//! What the transformations preserve: a file that conforms to the layouts
//! yields files that conform, and every file that an operation yields has
//! trailers that hold the aggregates over its own records.

use crate::ach_file::{with_content, BatchView, EntryView, FileView};
use crate::ach_transformations::{
    applied, apply_replacements, part, performed, replace_each, replaced, replaced_addenda,
    replaced_batch, replaced_batches, replaced_entries, replaced_entry, replaced_record,
    replaced_records, selected, split_each, split_of, step_applied,
};
use crate::condition::{eval_all, ConditionView};
use crate::config::{OperationType, ReplacementView, StepView};
use crate::conformance::{
    addenda_conform, batches_conform, entries_conform, lemma_refreshed_conforms,
};
use crate::error::TransformErrorView;
use crate::field::FieldView;
use crate::laws::{lemma_refreshed_is_current, trailers_are_current, trailers_are_whole};
use crate::layout::{conforms, is_position, layout, position_of, AchRecordType};
use vstd::prelude::*;

verus! {

/// Each of the files conforms.
pub open spec fn files_conform(files: Seq<FileView>) -> bool {
    forall|i: int| 0 <= i < files.len() ==> (#[trigger] files[i]).conforms()
}

/// Each of the files has trailers that hold the aggregates over its records.
pub open spec fn files_current(files: Seq<FileView>) -> bool {
    forall|i: int| 0 <= i < files.len() ==> trailers_are_current(#[trigger] files[i])
}

/// The number of operations of the first `n` steps.
pub open spec fn operation_count(steps: Seq<StepView>, n: int) -> nat
    decreases n,
{
    if n <= 0 {
        0
    } else {
        operation_count(steps, n - 1) + steps[n - 1].operation.len()
    }
}

/// Replacements change contents, not widths.
pub proof fn lemma_replacements_conform(
    reps: Seq<ReplacementView>,
    i: int,
    kind: AchRecordType,
    fields: Seq<FieldView>,
)
    requires
        conforms(kind, fields),
        apply_replacements(reps, i, kind, fields) is Ok,
    ensures
        conforms(kind, apply_replacements(reps, i, kind, fields)->Ok_0),
    decreases reps.len() - i,
{
    if 0 <= i < reps.len() {
        if reps[i].record != kind {
            lemma_replacements_conform(reps, i + 1, kind, fields);
        } else {
            let p = position_of(layout(kind), reps[i].field)->Some_0;
            assert(is_position(layout(kind), reps[i].field, p));
            let next = with_content(fields, p, reps[i].replace_with);
            assert(conforms(kind, next));
            lemma_replacements_conform(reps, i + 1, kind, next);
        }
    }
}

/// A replacement step changes the contents of a record, not its widths.
pub proof fn lemma_replaced_record_conforms(
    step: StepView,
    kind: AchRecordType,
    fields: Seq<FieldView>,
)
    requires
        conforms(kind, fields),
        replaced_record(step, kind, fields) is Ok,
    ensures
        conforms(kind, replaced_record(step, kind, fields)->Ok_0),
{
    if step.on.contains(kind) && eval_all(step.conditions, 0, kind, fields) == Ok::<
        bool,
        TransformErrorView,
    >(true) {
        lemma_replacements_conform(step.replacements, 0, kind, fields);
    }
}

/// A replacement step leaves addenda that conform conforming.
pub proof fn lemma_replaced_addenda_conform(step: StepView, addenda: Seq<Seq<FieldView>>, n: int)
    requires
        addenda_conform(addenda),
        0 <= n <= addenda.len(),
        replaced_addenda(step, addenda, n) is Ok,
    ensures
        addenda_conform(replaced_addenda(step, addenda, n)->Ok_0),
        replaced_addenda(step, addenda, n)->Ok_0.len() == n,
    decreases n,
{
    if n > 0 {
        lemma_replaced_addenda_conform(step, addenda, n - 1);
        lemma_replaced_record_conforms(step, AchRecordType::Addenda, addenda[n - 1]);
        let done = replaced_addenda(step, addenda, n - 1)->Ok_0;
        let out = replaced_addenda(step, addenda, n)->Ok_0;
        assert forall|i: int| 0 <= i < out.len() implies conforms(
            AchRecordType::Addenda,
            #[trigger] out[i],
        ) by {
            if i < done.len() {
                assert(out[i] == done[i]);
            }
        }
    }
}

/// A replacement step leaves an entry that conforms conforming.
pub proof fn lemma_replaced_entry_conforms(step: StepView, entry: EntryView)
    requires
        entry.conforms(),
        replaced_entry(step, entry) is Ok,
    ensures
        replaced_entry(step, entry)->Ok_0.conforms(),
        replaced_entry(step, entry)->Ok_0.addenda.len() == entry.addenda.len(),
{
    lemma_replaced_record_conforms(step, AchRecordType::EntryDetail, entry.fields);
    lemma_replaced_addenda_conform(step, entry.addenda, entry.addenda.len() as int);
}

/// A replacement step leaves entries that conform conforming.
pub proof fn lemma_replaced_entries_conform(step: StepView, entries: Seq<EntryView>, n: int)
    requires
        entries_conform(entries),
        0 <= n <= entries.len(),
        replaced_entries(step, entries, n) is Ok,
    ensures
        entries_conform(replaced_entries(step, entries, n)->Ok_0),
        replaced_entries(step, entries, n)->Ok_0.len() == n,
    decreases n,
{
    if n > 0 {
        lemma_replaced_entries_conform(step, entries, n - 1);
        lemma_replaced_entry_conforms(step, entries[n - 1]);
        let done = replaced_entries(step, entries, n - 1)->Ok_0;
        let out = replaced_entries(step, entries, n)->Ok_0;
        assert forall|i: int| 0 <= i < out.len() implies (#[trigger] out[i]).conforms() by {
            if i < done.len() {
                assert(out[i] == done[i]);
            }
        }
    }
}

/// A replacement step leaves a batch that conforms conforming.
pub proof fn lemma_replaced_batch_conforms(step: StepView, batch: BatchView)
    requires
        batch.conforms(),
        replaced_batch(step, batch) is Ok,
    ensures
        replaced_batch(step, batch)->Ok_0.conforms(),
{
    lemma_replaced_record_conforms(step, AchRecordType::CompanyBatchHeader, batch.header);
    lemma_replaced_entries_conform(step, batch.entries, batch.entries.len() as int);
    lemma_replaced_record_conforms(step, AchRecordType::CompanyBatchTrailer, batch.trailer);
}

/// A replacement step leaves batches that conform conforming.
pub proof fn lemma_replaced_batches_conform(step: StepView, batches: Seq<BatchView>, n: int)
    requires
        batches_conform(batches),
        0 <= n <= batches.len(),
        replaced_batches(step, batches, n) is Ok,
    ensures
        batches_conform(replaced_batches(step, batches, n)->Ok_0),
        replaced_batches(step, batches, n)->Ok_0.len() == n,
    decreases n,
{
    if n > 0 {
        lemma_replaced_batches_conform(step, batches, n - 1);
        lemma_replaced_batch_conforms(step, batches[n - 1]);
        let done = replaced_batches(step, batches, n - 1)->Ok_0;
        let out = replaced_batches(step, batches, n)->Ok_0;
        assert forall|i: int| 0 <= i < out.len() implies (#[trigger] out[i]).conforms() by {
            if i < done.len() {
                assert(out[i] == done[i]);
            }
        }
    }
}

/// Replacement preserves conformance and derives anew: the file that a
/// replacement step yields conforms if the file that it was given does, and
/// its trailers hold the aggregates over its records.
pub proof fn lemma_replaced_conforms(step: StepView, file: FileView)
    requires
        file.conforms(),
        replaced(step, file) is Ok,
    ensures
        replaced(step, file)->Ok_0.conforms(),
        trailers_are_current(replaced(step, file)->Ok_0),
{
    reveal(replaced);
    lemma_replaced_record_conforms(step, AchRecordType::Header, file.header);
    lemma_replaced_batches_conform(step, file.batches, file.batches.len() as int);
    lemma_replaced_record_conforms(step, AchRecordType::Trailer, file.trailer);
    let records = replaced_records(step, file)->Ok_0;
    assert(records.conforms());
    lemma_refreshed_conforms(records);
    lemma_whole(records);
    lemma_refreshed_is_current(records);
}

/// A file that conforms has trailers of as many fields as their layouts
/// declare.
pub proof fn lemma_whole(file: FileView)
    requires
        file.conforms(),
    ensures
        trailers_are_whole(file),
{
    assert forall|i: int| 0 <= i < file.batches.len() implies (#[trigger] file.batches[i]).trailer.len()
        == 10 by {
        assert(file.batches[i].conforms());
    }
}

/// The batches that a split selects from batches that conform conform.
pub proof fn lemma_selected_conform(
    conds: Seq<ConditionView>,
    batches: Seq<BatchView>,
    want: bool,
    n: int,
)
    requires
        batches_conform(batches),
        0 <= n <= batches.len(),
    ensures
        batches_conform(selected(conds, batches, want, n)),
    decreases n,
{
    if n > 0 {
        lemma_selected_conform(conds, batches, want, n - 1);
        let rest = selected(conds, batches, want, n - 1);
        let out = selected(conds, batches, want, n);
        assert forall|i: int| 0 <= i < out.len() implies (#[trigger] out[i]).conforms() by {
            if i < rest.len() {
                assert(out[i] == rest[i]);
            } else {
                assert(out[i] == batches[n - 1]);
            }
        }
    }
}

/// Split preserves conformance and derives anew: the two files that a split
/// yields conform if the file that it was given does, and their trailers
/// hold the aggregates over their own records.
pub proof fn lemma_split_conforms(conds: Seq<ConditionView>, file: FileView)
    requires
        file.conforms(),
        split_of(conds, file) is Ok,
    ensures
        split_of(conds, file)->Ok_0.0.conforms(),
        split_of(conds, file)->Ok_0.1.conforms(),
        trailers_are_current(split_of(conds, file)->Ok_0.0),
        trailers_are_current(split_of(conds, file)->Ok_0.1),
{
    reveal(split_of);
    let n = file.batches.len() as int;
    lemma_selected_conform(conds, file.batches, true, n);
    lemma_selected_conform(conds, file.batches, false, n);
    let yes = part(conds, file, true);
    let no = part(conds, file, false);
    lemma_refreshed_conforms(yes);
    lemma_refreshed_conforms(no);
    lemma_whole(yes);
    lemma_whole(no);
    lemma_refreshed_is_current(yes);
    lemma_refreshed_is_current(no);
}

/// The parts of files that conform conform and have current trailers.
pub proof fn lemma_split_each_conforms(conds: Seq<ConditionView>, files: Seq<FileView>, n: int)
    requires
        files_conform(files),
        0 <= n <= files.len(),
        split_each(conds, files, n) is Ok,
    ensures
        files_conform(split_each(conds, files, n)->Ok_0),
        files_current(split_each(conds, files, n)->Ok_0),
    decreases n,
{
    if n > 0 {
        lemma_split_each_conforms(conds, files, n - 1);
        lemma_split_conforms(conds, files[n - 1]);
        let done = split_each(conds, files, n - 1)->Ok_0;
        let out = split_each(conds, files, n)->Ok_0;
        let (matching, others) = split_of(conds, files[n - 1])->Ok_0;
        assert(out == done.push(matching).push(others));
        assert forall|i: int| 0 <= i < out.len() implies (#[trigger] out[i]).conforms()
            && trailers_are_current(out[i]) by {
            if i < done.len() {
                assert(out[i] == done[i]);
            }
        }
    }
}

/// Files that conform, once replaced in, conform and have current trailers.
pub proof fn lemma_replace_each_conforms(step: StepView, files: Seq<FileView>, n: int)
    requires
        files_conform(files),
        0 <= n <= files.len(),
        replace_each(step, files, n) is Ok,
    ensures
        files_conform(replace_each(step, files, n)->Ok_0),
        files_current(replace_each(step, files, n)->Ok_0),
    decreases n,
{
    if n > 0 {
        lemma_replace_each_conforms(step, files, n - 1);
        lemma_replaced_conforms(step, files[n - 1]);
        let done = replace_each(step, files, n - 1)->Ok_0;
        let out = replace_each(step, files, n)->Ok_0;
        assert forall|i: int| 0 <= i < out.len() implies (#[trigger] out[i]).conforms()
            && trailers_are_current(out[i]) by {
            if i < done.len() {
                assert(out[i] == done[i]);
            }
        }
    }
}

/// The files that an operation yields from files that conform conform and
/// have current trailers.
pub proof fn lemma_performed_conforms(op: OperationType, step: StepView, files: Seq<FileView>)
    requires
        files_conform(files),
        performed(op, step, files) is Ok,
    ensures
        files_conform(performed(op, step, files)->Ok_0),
        files_current(performed(op, step, files)->Ok_0),
{
    match op {
        OperationType::Split => lemma_split_each_conforms(
            step.conditions,
            files,
            files.len() as int,
        ),
        OperationType::Replace => lemma_replace_each_conforms(step, files, files.len() as int),
    }
}

/// The files that the first `k` operations of a step yield from files that
/// conform conform; they have current trailers if there was an operation,
/// or if the files had before.
pub proof fn lemma_step_applied_conforms(step: StepView, files: Seq<FileView>, k: int)
    requires
        files_conform(files),
        0 <= k <= step.operation.len(),
        step_applied(step, files, k) is Ok,
    ensures
        files_conform(step_applied(step, files, k)->Ok_0),
        k > 0 || files_current(files) ==> files_current(step_applied(step, files, k)->Ok_0),
    decreases k,
{
    if k > 0 {
        lemma_step_applied_conforms(step, files, k - 1);
        lemma_performed_conforms(
            step.operation[k - 1],
            step,
            step_applied(step, files, k - 1)->Ok_0,
        );
    }
}

/// Consistency of the derived aggregates: every file that the steps of a
/// rule file yield from a file that conforms conforms; and once an
/// operation was performed, the trailers of every file that results hold
/// the aggregates over the records of that file.
pub proof fn lemma_applied_conforms(steps: Seq<StepView>, files: Seq<FileView>, n: int)
    requires
        files_conform(files),
        0 <= n <= steps.len(),
        applied(steps, files, n) is Ok,
    ensures
        files_conform(applied(steps, files, n)->Ok_0),
        operation_count(steps, n) > 0 || files_current(files) ==> files_current(
            applied(steps, files, n)->Ok_0,
        ),
    decreases n,
{
    if n > 0 {
        lemma_applied_conforms(steps, files, n - 1);
        lemma_step_applied_conforms(
            steps[n - 1],
            applied(steps, files, n - 1)->Ok_0,
            steps[n - 1].operation.len() as int,
        );
    }
}

} // verus!
