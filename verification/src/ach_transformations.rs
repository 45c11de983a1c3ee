//! The transformation engine: applies the steps of a rule file to a file.
//!
//! A split divides the batches of a file over two files: those whose batch
//! header meets the conditions of the step, and the others.  A replacement
//! overwrites fields of the records that the step targets and whose fields
//! meet its conditions.  Either way the trailers of every file that results
//! are brought up to date.

use crate::ach_file::{
    addenda_views, batch_views, entry_views, with_content, AchFile, AchRecord, Addenda, BatchView,
    CompanyBatch, EntryDetail, EntryView, FileView,
};
use crate::condition::{condition_views, eval_all, holds_all, Condition, ConditionView};
use crate::config::{
    load_steps, loaded, step_views, OperationType, ReplacementView, StepView, Steps,
};
use crate::encoder::{encode, encoded};
use crate::parser::{parse, parsed};
use crate::text::line_views;
use crate::error::{
    fails_with, outcome, AchError, AchErrorView, ConfigError, TransformError, TransformErrorView,
};
use crate::field::FieldView;
use crate::layout::{layout, overflow_of, position_of, AchRecordType};
use vstd::prelude::*;

verus! {

/// What the conditions come to on the header of a batch.
pub open spec fn batch_holds(conds: Seq<ConditionView>, batch: BatchView) -> Result<
    bool,
    TransformErrorView,
> {
    eval_all(conds, 0, AchRecordType::CompanyBatchHeader, batch.header)
}

/// Those of the first `n` batches on whose header the conditions come to
/// `want`, in their order.
pub open spec fn selected(
    conds: Seq<ConditionView>,
    batches: Seq<BatchView>,
    want: bool,
    n: int,
) -> Seq<BatchView>
    decreases n,
{
    if n <= 0 {
        Seq::empty()
    } else if batch_holds(conds, batches[n - 1]) == Ok::<bool, TransformErrorView>(want) {
        selected(conds, batches, want, n - 1).push(batches[n - 1])
    } else {
        selected(conds, batches, want, n - 1)
    }
}

/// Why the conditions cannot be evaluated on the first of the first `n`
/// batches on which they cannot, if there is one.
pub open spec fn first_failure(conds: Seq<ConditionView>, batches: Seq<BatchView>, n: int) -> Option<
    TransformErrorView,
>
    decreases n,
{
    if n <= 0 {
        None
    } else {
        match first_failure(conds, batches, n - 1) {
            Some(e) => Some(e),
            None => match batch_holds(conds, batches[n - 1]) {
                Err(e) => Some(e),
                Ok(_) => None,
            },
        }
    }
}

/// The file with only those batches on whose header the conditions come to
/// `want`, its trailers as they were.
pub open spec fn part(conds: Seq<ConditionView>, file: FileView, want: bool) -> FileView {
    FileView {
        batches: selected(conds, file.batches, want, file.batches.len() as int),
        ..file
    }
}

/// What a split by the conditions yields: the file of the batches that meet
/// them and the file of the others, each with the header of the file that
/// is split and with its trailers brought up to date.  It fails where the
/// conditions cannot be evaluated on a batch header, and with
/// `FieldOverflow` where an aggregate of a part does not fit its field; the
/// report is on the first such field, of the first part before the second.
#[verifier::opaque]
pub open spec fn split_of(conds: Seq<ConditionView>, file: FileView) -> Result<
    (FileView, FileView),
    TransformErrorView,
> {
    match first_failure(conds, file.batches, file.batches.len() as int) {
        Some(e) => Err(e),
        None => match part(conds, file, true).overflow() {
            Some(o) => Err(TransformErrorView::FieldOverflow(o)),
            None => match part(conds, file, false).overflow() {
                Some(o) => Err(TransformErrorView::FieldOverflow(o)),
                None => Ok(
                    (part(conds, file, true).refreshed(), part(conds, file, false).refreshed()),
                ),
            },
        },
    }
}

/// The fields of a record after the replacements from the `i`th on that are
/// meant for its kind.  A replacement fails with `ConditionEvalFailure` where
/// it names a field that the record does not have, and with `FieldOverflow`
/// where its value is wider than the field; the failure then reports the
/// kind of the record, the name of the field and the value.
pub open spec fn apply_replacements(
    reps: Seq<ReplacementView>,
    i: int,
    kind: AchRecordType,
    fields: Seq<FieldView>,
) -> Result<Seq<FieldView>, TransformErrorView>
    decreases reps.len() - i,
{
    if i < 0 || i >= reps.len() {
        Ok(fields)
    } else if reps[i].record != kind {
        apply_replacements(reps, i + 1, kind, fields)
    } else {
        match position_of(layout(kind), reps[i].field) {
            None => Err(TransformErrorView::ConditionEvalFailure),
            Some(p) => if reps[i].replace_with.len() > fields[p].width {
                Err(TransformErrorView::FieldOverflow(overflow_of(kind, p, reps[i].replace_with)))
            } else {
                apply_replacements(
                    reps,
                    i + 1,
                    kind,
                    with_content(fields, p, reps[i].replace_with),
                )
            },
        }
    }
}

/// The fields of a record after a replacement step: changed only if the step
/// targets the kind of the record and the fields meet its conditions.
pub open spec fn replaced_record(step: StepView, kind: AchRecordType, fields: Seq<FieldView>) -> Result<
    Seq<FieldView>,
    TransformErrorView,
> {
    if !step.on.contains(kind) {
        Ok(fields)
    } else {
        match eval_all(step.conditions, 0, kind, fields) {
            Err(e) => Err(e),
            Ok(false) => Ok(fields),
            Ok(true) => apply_replacements(step.replacements, 0, kind, fields),
        }
    }
}

/// The first `n` addenda after a replacement step.
pub open spec fn replaced_addenda(step: StepView, addenda: Seq<Seq<FieldView>>, n: int) -> Result<
    Seq<Seq<FieldView>>,
    TransformErrorView,
>
    decreases n,
{
    if n <= 0 {
        Ok(Seq::empty())
    } else {
        match replaced_addenda(step, addenda, n - 1) {
            Err(e) => Err(e),
            Ok(done) => match replaced_record(step, AchRecordType::Addenda, addenda[n - 1]) {
                Err(e) => Err(e),
                Ok(fields) => Ok(done.push(fields)),
            },
        }
    }
}

/// An entry after a replacement step: its own fields first, then its
/// addenda in order.
pub open spec fn replaced_entry(step: StepView, entry: EntryView) -> Result<
    EntryView,
    TransformErrorView,
> {
    match replaced_record(step, AchRecordType::EntryDetail, entry.fields) {
        Err(e) => Err(e),
        Ok(fields) => match replaced_addenda(step, entry.addenda, entry.addenda.len() as int) {
            Err(e) => Err(e),
            Ok(addenda) => Ok(EntryView { fields, addenda }),
        },
    }
}

/// The first `n` entries after a replacement step.
pub open spec fn replaced_entries(step: StepView, entries: Seq<EntryView>, n: int) -> Result<
    Seq<EntryView>,
    TransformErrorView,
>
    decreases n,
{
    if n <= 0 {
        Ok(Seq::empty())
    } else {
        match replaced_entries(step, entries, n - 1) {
            Err(e) => Err(e),
            Ok(done) => match replaced_entry(step, entries[n - 1]) {
                Err(e) => Err(e),
                Ok(entry) => Ok(done.push(entry)),
            },
        }
    }
}

/// A batch after a replacement step: header, entries, trailer, in this
/// order.
pub open spec fn replaced_batch(step: StepView, batch: BatchView) -> Result<
    BatchView,
    TransformErrorView,
> {
    match replaced_record(step, AchRecordType::CompanyBatchHeader, batch.header) {
        Err(e) => Err(e),
        Ok(header) => match replaced_entries(step, batch.entries, batch.entries.len() as int) {
            Err(e) => Err(e),
            Ok(entries) => match replaced_record(
                step,
                AchRecordType::CompanyBatchTrailer,
                batch.trailer,
            ) {
                Err(e) => Err(e),
                Ok(trailer) => Ok(BatchView { header, entries, trailer }),
            },
        },
    }
}

/// The first `n` batches after a replacement step.
pub open spec fn replaced_batches(step: StepView, batches: Seq<BatchView>, n: int) -> Result<
    Seq<BatchView>,
    TransformErrorView,
>
    decreases n,
{
    if n <= 0 {
        Ok(Seq::empty())
    } else {
        match replaced_batches(step, batches, n - 1) {
            Err(e) => Err(e),
            Ok(done) => match replaced_batch(step, batches[n - 1]) {
                Err(e) => Err(e),
                Ok(batch) => Ok(done.push(batch)),
            },
        }
    }
}

/// The records of a file after a replacement step, the trailers not yet
/// brought up to date: file header, batches, file trailer, in this order.
pub open spec fn replaced_records(step: StepView, file: FileView) -> Result<
    FileView,
    TransformErrorView,
> {
    match replaced_record(step, AchRecordType::Header, file.header) {
        Err(e) => Err(e),
        Ok(header) => match replaced_batches(step, file.batches, file.batches.len() as int) {
            Err(e) => Err(e),
            Ok(batches) => match replaced_record(step, AchRecordType::Trailer, file.trailer) {
                Err(e) => Err(e),
                Ok(trailer) => Ok(FileView { header, batches, trailer }),
            },
        },
    }
}

/// What a replacement step makes of a file.  The records are visited in
/// the order of their lines, and the first failure ends the step.  The
/// trailers are brought up to date at the end; `FieldOverflow` where an
/// aggregate does not fit its field then.
#[verifier::opaque]
pub open spec fn replaced(step: StepView, file: FileView) -> Result<FileView, TransformErrorView> {
    match replaced_records(step, file) {
        Err(e) => Err(e),
        Ok(f) => match f.overflow() {
            Some(o) => Err(TransformErrorView::FieldOverflow(o)),
            None => Ok(f.refreshed()),
        },
    }
}

/// Once the conditions have failed on a batch, the failure stays the first.
pub proof fn lemma_first_failure_stays(
    conds: Seq<ConditionView>,
    batches: Seq<BatchView>,
    n: int,
    m: int,
)
    requires
        n <= m,
        first_failure(conds, batches, n) is Some,
    ensures
        first_failure(conds, batches, m) == first_failure(conds, batches, n),
    decreases m - n,
{
    if n < m {
        lemma_first_failure_stays(conds, batches, n, m - 1);
    }
}

/// A replacement step that fails on some addenda fails on all that follow.
pub proof fn lemma_replaced_addenda_fails(
    step: StepView,
    addenda: Seq<Seq<FieldView>>,
    n: int,
    m: int,
)
    requires
        n <= m,
        replaced_addenda(step, addenda, n) is Err,
    ensures
        replaced_addenda(step, addenda, m) == replaced_addenda(step, addenda, n),
    decreases m - n,
{
    if n < m {
        lemma_replaced_addenda_fails(step, addenda, n, m - 1);
    }
}

/// A replacement step that fails on some entry fails on all that follow.
pub proof fn lemma_replaced_entries_fails(step: StepView, entries: Seq<EntryView>, n: int, m: int)
    requires
        n <= m,
        replaced_entries(step, entries, n) is Err,
    ensures
        replaced_entries(step, entries, m) == replaced_entries(step, entries, n),
    decreases m - n,
{
    if n < m {
        lemma_replaced_entries_fails(step, entries, n, m - 1);
    }
}

/// A replacement step that fails on some batch fails on all that follow.
pub proof fn lemma_replaced_batches_fails(step: StepView, batches: Seq<BatchView>, n: int, m: int)
    requires
        n <= m,
        replaced_batches(step, batches, n) is Err,
    ensures
        replaced_batches(step, batches, m) == replaced_batches(step, batches, n),
    decreases m - n,
{
    if n < m {
        lemma_replaced_batches_fails(step, batches, n, m - 1);
    }
}

/// Whether `kind` is one of `kinds`.
pub fn targets(kinds: &Vec<AchRecordType>, kind: AchRecordType) -> (r: bool)
    ensures
        r == kinds@.contains(kind),
{
    let mut i: usize = 0;
    while i < kinds.len()
        invariant
            i <= kinds.len(),
            forall|j: int| 0 <= j < i ==> kinds@[j] != kind,
        decreases kinds.len() - i,
    {
        if kinds[i] == kind {
            return true;
        }
        i += 1;
    }
    false
}

/// Performs a replacement step on one record.  After a failure the record
/// may hold some of the replacements.
pub(crate) fn replace_in<R: AchRecord>(step: &Steps, record: &mut R) -> (r: Result<(), TransformError>)
    ensures
        final(record).kind() == old(record).kind(),
        match replaced_record(step@, old(record).kind(), old(record).fields()) {
            Ok(fields) => r is Ok && final(record).fields() == fields,
            Err(e) => fails_with(r, e),
        },
{
    let kind = record.record_type();
    if !targets(&step.on, kind) {
        return Ok(());
    }
    let refs = record.field_refs();
    let holds = holds_all(&step.conditions, 0, kind, &refs);
    assert(outcome(holds) == eval_all(step@.conditions, 0, kind, record.fields()));
    match holds {
        Err(e) => {
            return Err(e);
        },
        Ok(false) => {
            return Ok(());
        },
        Ok(true) => {},
    }
    let ghost reps = step@.replacements;
    let ghost goal = apply_replacements(reps, 0, kind, old(record).fields());
    let mut i: usize = 0;
    while i < step.replacements.len()
        invariant
            i <= step.replacements.len(),
            reps == step@.replacements,
            reps.len() == step.replacements.len(),
            kind == old(record).kind(),
            record.kind() == kind,
            record.fields().len() == layout(kind).len(),
            goal == replaced_record(step@, kind, old(record).fields()),
            goal == apply_replacements(reps, i as int, kind, record.fields()),
        decreases step.replacements.len() - i,
    {
        let rep = &step.replacements[i];
        assert(reps[i as int] == rep@);
        if rep.record == kind {
            match kind.position(rep.field.as_str()) {
                None => {
                    return Err(TransformError::ConditionEvalFailure);
                },
                Some(p) => {
                    match record.set_at(p, rep.replace_with.as_str()) {
                        Err(e) => {
                            return Err(e);
                        },
                        Ok(()) => {},
                    }
                },
            }
        }
        i += 1;
    }
    Ok(())
}

/// Performs a replacement step on each of the addenda, in order.
fn replace_in_addenda(addenda: &mut Vec<Addenda>, step: &Steps) -> (r: Result<(), TransformError>)
    ensures
        match replaced_addenda(
            step@,
            addenda_views(old(addenda)@),
            old(addenda)@.len() as int,
        ) {
            Ok(done) => r is Ok && addenda_views(final(addenda)@) == done,
            Err(e) => fails_with(r, e),
        },
{
    let ghost before = addenda_views(addenda@);
    let mut i: usize = 0;
    assert(addenda_views(addenda@).take(0) =~= Seq::<Seq<FieldView>>::empty());
    while i < addenda.len()
        invariant
            i <= addenda.len(),
            before == addenda_views(old(addenda)@),
            addenda.len() == before.len(),
            replaced_addenda(step@, before, i as int) == Ok::<Seq<Seq<FieldView>>, TransformErrorView>(
                addenda_views(addenda@).take(i as int),
            ),
            forall|j: int| i <= j < before.len() ==> (#[trigger] addenda@[j])@ == before[j],
        decreases addenda.len() - i,
    {
        let ghost done = addenda_views(addenda@).take(i as int);
        match replace_in(step, &mut addenda[i]) {
            Err(e) => {
                proof {
                    lemma_replaced_addenda_fails(step@, before, i + 1, before.len() as int);
                }
                return Err(e);
            },
            Ok(()) => {},
        }
        i += 1;
        assert(addenda_views(addenda@).take(i as int) =~= done.push(addenda@[i - 1]@));
    }
    assert(addenda_views(addenda@).take(addenda.len() as int) =~= addenda_views(addenda@));
    Ok(())
}

impl EntryDetail {
    /// Performs a replacement step on the entry and on its addenda.  After a
    /// failure the entry may hold some of the replacements.
    pub(crate) fn replace_records(&mut self, step: &Steps) -> (r: Result<(), TransformError>)
        ensures
            match replaced_entry(step@, old(self)@) {
                Ok(entry) => r is Ok && final(self)@ == entry,
                Err(e) => fails_with(r, e),
            },
    {
        let mut addenda: Vec<Addenda> = Vec::new();
        std::mem::swap(&mut self.addenda, &mut addenda);
        let own = replace_in(step, self);
        self.addenda = addenda;
        match own {
            Err(e) => {
                return Err(e);
            },
            Ok(()) => {},
        }
        replace_in_addenda(&mut self.addenda, step)
    }
}

/// Performs a replacement step on each of the entries, in order.
fn replace_in_entries(entries: &mut Vec<EntryDetail>, step: &Steps) -> (r: Result<
    (),
    TransformError,
>)
    ensures
        match replaced_entries(step@, entry_views(old(entries)@), old(entries)@.len() as int) {
            Ok(done) => r is Ok && entry_views(final(entries)@) == done,
            Err(e) => fails_with(r, e),
        },
{
    let ghost before = entry_views(entries@);
    let mut i: usize = 0;
    assert(entry_views(entries@).take(0) =~= Seq::<EntryView>::empty());
    while i < entries.len()
        invariant
            i <= entries.len(),
            before == entry_views(old(entries)@),
            entries.len() == before.len(),
            replaced_entries(step@, before, i as int) == Ok::<Seq<EntryView>, TransformErrorView>(
                entry_views(entries@).take(i as int),
            ),
            forall|j: int| i <= j < before.len() ==> (#[trigger] entries@[j])@ == before[j],
        decreases entries.len() - i,
    {
        let ghost done = entry_views(entries@).take(i as int);
        match entries[i].replace_records(step) {
            Err(e) => {
                proof {
                    lemma_replaced_entries_fails(step@, before, i + 1, before.len() as int);
                }
                return Err(e);
            },
            Ok(()) => {},
        }
        i += 1;
        assert(entry_views(entries@).take(i as int) =~= done.push(entries@[i - 1]@));
    }
    assert(entry_views(entries@).take(entries.len() as int) =~= entry_views(entries@));
    Ok(())
}

impl CompanyBatch {
    /// Performs a replacement step on every record of the batch.  After a
    /// failure the batch may hold some of the replacements.
    pub(crate) fn replace_records(&mut self, step: &Steps) -> (r: Result<(), TransformError>)
        ensures
            match replaced_batch(step@, old(self)@) {
                Ok(batch) => r is Ok && final(self)@ == batch,
                Err(e) => fails_with(r, e),
            },
    {
        match replace_in(step, &mut self.batch_header) {
            Err(e) => {
                return Err(e);
            },
            Ok(()) => {},
        }
        match replace_in_entries(&mut self.batch_records, step) {
            Err(e) => {
                return Err(e);
            },
            Ok(()) => {},
        }
        replace_in(step, &mut self.batch_trailer)
    }
}

/// Performs a replacement step on each of the batches, in order.
fn replace_in_batches(batches: &mut Vec<CompanyBatch>, step: &Steps) -> (r: Result<
    (),
    TransformError,
>)
    ensures
        match replaced_batches(step@, batch_views(old(batches)@), old(batches)@.len() as int) {
            Ok(done) => r is Ok && batch_views(final(batches)@) == done,
            Err(e) => fails_with(r, e),
        },
{
    let ghost before = batch_views(batches@);
    let mut i: usize = 0;
    assert(batch_views(batches@).take(0) =~= Seq::<BatchView>::empty());
    while i < batches.len()
        invariant
            i <= batches.len(),
            before == batch_views(old(batches)@),
            batches.len() == before.len(),
            replaced_batches(step@, before, i as int) == Ok::<Seq<BatchView>, TransformErrorView>(
                batch_views(batches@).take(i as int),
            ),
            forall|j: int| i <= j < before.len() ==> (#[trigger] batches@[j])@ == before[j],
        decreases batches.len() - i,
    {
        let ghost done = batch_views(batches@).take(i as int);
        match batches[i].replace_records(step) {
            Err(e) => {
                proof {
                    lemma_replaced_batches_fails(step@, before, i + 1, before.len() as int);
                }
                return Err(e);
            },
            Ok(()) => {},
        }
        i += 1;
        assert(batch_views(batches@).take(i as int) =~= done.push(batches@[i - 1]@));
    }
    assert(batch_views(batches@).take(batches.len() as int) =~= batch_views(batches@));
    Ok(())
}

impl AchFile {
    /// Divides the batches of the file over two files: first the file of
    /// the batches whose header meets all of the conditions, then the file
    /// of the others.
    pub fn split_by(&self, conditions: &Vec<Condition>) -> (r: Result<
        (AchFile, AchFile),
        TransformError,
    >)
        ensures
            match r {
                Ok((matching, others)) => split_of(condition_views(conditions@), self@) == Ok::<
                    (FileView, FileView),
                    TransformErrorView,
                >((matching@, others@)),
                Err(e) => split_of(condition_views(conditions@), self@) == Err::<
                    (FileView, FileView),
                    TransformErrorView,
                >(e@),
            },
    {
        reveal(split_of);
        let ghost conds = condition_views(conditions@);
        let ghost batches = self@.batches;
        let mut matching = AchFile {
            header: self.header.clone(),
            records: Vec::new(),
            trailer: self.trailer.clone(),
        };
        let mut others = AchFile {
            header: self.header.clone(),
            records: Vec::new(),
            trailer: self.trailer.clone(),
        };
        assert(matching@.batches =~= selected(conds, batches, true, 0));
        assert(others@.batches =~= selected(conds, batches, false, 0));
        let mut i: usize = 0;
        while i < self.records.len()
            invariant
                i <= self.records.len(),
                conds == condition_views(conditions@),
                batches == self@.batches,
                batches.len() == self.records.len(),
                first_failure(conds, batches, i as int) is None,
                matching@.header == self@.header,
                matching@.trailer == self@.trailer,
                others@.header == self@.header,
                others@.trailer == self@.trailer,
                matching@.batches == selected(conds, batches, true, i as int),
                others@.batches == selected(conds, batches, false, i as int),
            decreases self.records.len() - i,
        {
            let batch = &self.records[i];
            assert(batches[i as int] == batch@);
            let refs = batch.batch_header.field_refs();
            match holds_all(conditions, 0, AchRecordType::CompanyBatchHeader, &refs) {
                Err(e) => {
                    proof {
                        reveal(split_of);
                        lemma_first_failure_stays(conds, batches, i + 1, batches.len() as int);
                    }
                    return Err(e);
                },
                Ok(true) => {
                    matching.push(batch.clone());
                },
                Ok(false) => {
                    others.push(batch.clone());
                },
            }
            i += 1;
        }
        assert(matching@ == part(conds, self@, true));
        assert(others@ == part(conds, self@, false));
        match matching.refresh() {
            Err(e) => {
                return Err(e);
            },
            Ok(()) => {},
        }
        match others.refresh() {
            Err(e) => {
                return Err(e);
            },
            Ok(()) => {},
        }
        Ok((matching, others))
    }

    /// Divides the batches of the file over two files: first the file of
    /// the batches of the companies identified by one of `company_ids`,
    /// then the file of the others.
    pub fn split(&self, company_ids: Vec<String>) -> (r: Result<(AchFile, AchFile), AchError>)
        ensures
            match r {
                Ok((matching, others)) => split_of(by_company(company_ids@), self@) == Ok::<
                    (FileView, FileView),
                    TransformErrorView,
                >((matching@, others@)),
                Err(e) => split_of(by_company(company_ids@), self@) matches Err(t) && e@
                    == AchErrorView::Transform(t),
            },
    {
        let ghost conds = by_company(company_ids@);
        let mut conditions: Vec<Condition> = Vec::new();
        conditions.push(
            Condition::FieldIn { field: "company_id".to_owned(), values: company_ids },
        );
        assert(condition_views(conditions@) =~= conds);
        match self.split_by(&conditions) {
            Ok(parts) => Ok(parts),
            Err(t) => Err(AchError::from_transform(t)),
        }
    }

    /// The file after a replacement step on all its records, the trailers
    /// brought up to date.
    pub fn replaced(&self, step: &Steps) -> (r: Result<AchFile, TransformError>)
        ensures
            match r {
                Ok(file) => replaced(step@, self@) == Ok::<FileView, TransformErrorView>(file@),
                Err(e) => replaced(step@, self@) == Err::<FileView, TransformErrorView>(e@),
            },
    {
        reveal(replaced);
        let mut file = self.clone();
        match replace_in(step, &mut file.header) {
            Err(e) => {
                return Err(e);
            },
            Ok(()) => {},
        }
        match replace_in_batches(&mut file.records, step) {
            Err(e) => {
                return Err(e);
            },
            Ok(()) => {},
        }
        match replace_in(step, &mut file.trailer) {
            Err(e) => {
                return Err(e);
            },
            Ok(()) => {},
        }
        match file.refresh() {
            Err(e) => {
                return Err(e);
            },
            Ok(()) => {},
        }
        Ok(file)
    }

    /// Performs a replacement step on all records of the file and brings the
    /// trailers up to date.  After a failure the file is as it was.
    pub fn replace(&mut self, step: &Steps) -> (r: Result<(), TransformError>)
        ensures
            match replaced(step@, old(self)@) {
                Ok(file) => r is Ok && final(self)@ == file,
                Err(e) => fails_with(r, e) && final(self)@ == old(self)@,
            },
    {
        match self.replaced(step) {
            Ok(file) => {
                *self = file;
                Ok(())
            },
            Err(e) => Err(e),
        }
    }
}

/// The conditions of a split by company: the company identification of the
/// batch header is one of `ids`.
pub open spec fn by_company(ids: Seq<String>) -> Seq<ConditionView> {
    seq![
        ConditionView::FieldIn { field: "company_id"@, values: line_views(ids) },
    ]
}

/// The values of a sequence of files.
pub open spec fn file_views(files: Seq<AchFile>) -> Seq<FileView> {
    Seq::new(files.len(), |i: int| files[i]@)
}

/// The two parts of each of the first `n` files, in order; the failure of
/// the first split that fails.
pub open spec fn split_each(conds: Seq<ConditionView>, files: Seq<FileView>, n: int) -> Result<
    Seq<FileView>,
    TransformErrorView,
>
    decreases n,
{
    if n <= 0 {
        Ok(Seq::empty())
    } else {
        match split_each(conds, files, n - 1) {
            Err(e) => Err(e),
            Ok(done) => match split_of(conds, files[n - 1]) {
                Err(e) => Err(e),
                Ok((matching, others)) => Ok(done.push(matching).push(others)),
            },
        }
    }
}

/// Each of the first `n` files after a replacement step, in order; the
/// failure of the first replacement that fails.
pub open spec fn replace_each(step: StepView, files: Seq<FileView>, n: int) -> Result<
    Seq<FileView>,
    TransformErrorView,
>
    decreases n,
{
    if n <= 0 {
        Ok(Seq::empty())
    } else {
        match replace_each(step, files, n - 1) {
            Err(e) => Err(e),
            Ok(done) => match replaced(step, files[n - 1]) {
                Err(e) => Err(e),
                Ok(file) => Ok(done.push(file)),
            },
        }
    }
}

/// What one operation of a step makes of the files.
pub open spec fn performed(op: OperationType, step: StepView, files: Seq<FileView>) -> Result<
    Seq<FileView>,
    TransformErrorView,
> {
    match op {
        OperationType::Split => split_each(step.conditions, files, files.len() as int),
        OperationType::Replace => replace_each(step, files, files.len() as int),
    }
}

/// What the first `k` operations of a step make of the files.
pub open spec fn step_applied(step: StepView, files: Seq<FileView>, k: int) -> Result<
    Seq<FileView>,
    TransformErrorView,
>
    decreases k,
{
    if k <= 0 {
        Ok(files)
    } else {
        match step_applied(step, files, k - 1) {
            Err(e) => Err(e),
            Ok(fs) => performed(step.operation[k - 1], step, fs),
        }
    }
}

/// What the first `n` steps make of the files.
pub open spec fn applied(steps: Seq<StepView>, files: Seq<FileView>, n: int) -> Result<
    Seq<FileView>,
    TransformErrorView,
>
    decreases n,
{
    if n <= 0 {
        Ok(files)
    } else {
        match applied(steps, files, n - 1) {
            Err(e) => Err(e),
            Ok(fs) => step_applied(steps[n - 1], fs, steps[n - 1].operation.len() as int),
        }
    }
}

/// A run of splits that fails on some file fails on all that follow.
pub proof fn lemma_split_each_fails(conds: Seq<ConditionView>, files: Seq<FileView>, n: int, m: int)
    requires
        n <= m,
        split_each(conds, files, n) is Err,
    ensures
        split_each(conds, files, m) == split_each(conds, files, n),
    decreases m - n,
{
    if n < m {
        lemma_split_each_fails(conds, files, n, m - 1);
    }
}

/// A run of replacements that fails on some file fails on all that follow.
pub proof fn lemma_replace_each_fails(step: StepView, files: Seq<FileView>, n: int, m: int)
    requires
        n <= m,
        replace_each(step, files, n) is Err,
    ensures
        replace_each(step, files, m) == replace_each(step, files, n),
    decreases m - n,
{
    if n < m {
        lemma_replace_each_fails(step, files, n, m - 1);
    }
}

/// A step that fails at some operation fails whatever follows.
pub proof fn lemma_step_applied_fails(step: StepView, files: Seq<FileView>, k: int, m: int)
    requires
        k <= m,
        step_applied(step, files, k) is Err,
    ensures
        step_applied(step, files, m) == step_applied(step, files, k),
    decreases m - k,
{
    if k < m {
        lemma_step_applied_fails(step, files, k, m - 1);
    }
}

/// Steps that fail at some step fail whatever follows.
pub proof fn lemma_applied_fails(steps: Seq<StepView>, files: Seq<FileView>, n: int, m: int)
    requires
        n <= m,
        applied(steps, files, n) is Err,
    ensures
        applied(steps, files, m) == applied(steps, files, n),
    decreases m - n,
{
    if n < m {
        lemma_applied_fails(steps, files, n, m - 1);
    }
}

/// Splits each of the files by the conditions.
fn split_files(conditions: &Vec<Condition>, files: &Vec<AchFile>) -> (r: Result<
    Vec<AchFile>,
    TransformError,
>)
    ensures
        match r {
            Ok(out) => split_each(
                condition_views(conditions@),
                file_views(files@),
                files@.len() as int,
            ) == Ok::<Seq<FileView>, TransformErrorView>(file_views(out@)),
            Err(e) => split_each(
                condition_views(conditions@),
                file_views(files@),
                files@.len() as int,
            ) == Err::<Seq<FileView>, TransformErrorView>(e@),
        },
{
    let ghost conds = condition_views(conditions@);
    let ghost input = file_views(files@);
    let mut out: Vec<AchFile> = Vec::new();
    let mut i: usize = 0;
    assert(file_views(out@) =~= Seq::<FileView>::empty());
    while i < files.len()
        invariant
            i <= files.len(),
            conds == condition_views(conditions@),
            input == file_views(files@),
            split_each(conds, input, i as int) == Ok::<Seq<FileView>, TransformErrorView>(
                file_views(out@),
            ),
        decreases files.len() - i,
    {
        let ghost done = file_views(out@);
        assert(input[i as int] == files@[i as int]@);
        match files[i].split_by(conditions) {
            Err(e) => {
                proof {
                    lemma_split_each_fails(conds, input, i + 1, input.len() as int);
                }
                return Err(e);
            },
            Ok((matching, others)) => {
                out.push(matching);
                out.push(others);
                assert(file_views(out@) =~= done.push(matching@).push(others@));
            },
        }
        i += 1;
    }
    Ok(out)
}

/// Performs a replacement step on each of the files.
fn replace_files(step: &Steps, files: &Vec<AchFile>) -> (r: Result<Vec<AchFile>, TransformError>)
    ensures
        match r {
            Ok(out) => replace_each(step@, file_views(files@), files@.len() as int) == Ok::<
                Seq<FileView>,
                TransformErrorView,
            >(file_views(out@)),
            Err(e) => replace_each(step@, file_views(files@), files@.len() as int) == Err::<
                Seq<FileView>,
                TransformErrorView,
            >(e@),
        },
{
    let ghost input = file_views(files@);
    let mut out: Vec<AchFile> = Vec::new();
    let mut i: usize = 0;
    assert(file_views(out@) =~= Seq::<FileView>::empty());
    while i < files.len()
        invariant
            i <= files.len(),
            input == file_views(files@),
            replace_each(step@, input, i as int) == Ok::<Seq<FileView>, TransformErrorView>(
                file_views(out@),
            ),
        decreases files.len() - i,
    {
        let ghost done = file_views(out@);
        assert(input[i as int] == files@[i as int]@);
        match files[i].replaced(step) {
            Err(e) => {
                proof {
                    lemma_replace_each_fails(step@, input, i + 1, input.len() as int);
                }
                return Err(e);
            },
            Ok(file) => {
                out.push(file);
                assert(file_views(out@) =~= done.push(file@));
            },
        }
        i += 1;
    }
    Ok(out)
}

impl Steps {
    /// Performs the operations of the step, in order, on the files.
    pub fn apply(&self, files: Vec<AchFile>) -> (r: Result<Vec<AchFile>, TransformError>)
        ensures
            match r {
                Ok(out) => step_applied(
                    self@,
                    file_views(files@),
                    self@.operation.len() as int,
                ) == Ok::<Seq<FileView>, TransformErrorView>(file_views(out@)),
                Err(e) => step_applied(self@, file_views(files@), self@.operation.len() as int)
                    == Err::<Seq<FileView>, TransformErrorView>(e@),
            },
    {
        let ghost input = file_views(files@);
        let mut current = files;
        let mut k: usize = 0;
        while k < self.operation.len()
            invariant
                k <= self.operation.len(),
                input == file_views(files@),
                step_applied(self@, input, k as int) == Ok::<Seq<FileView>, TransformErrorView>(
                    file_views(current@),
                ),
            decreases self.operation.len() - k,
        {
            let next = match self.operation[k] {
                OperationType::Split => split_files(&self.conditions, &current),
                OperationType::Replace => replace_files(self, &current),
            };
            match next {
                Err(e) => {
                    proof {
                        lemma_step_applied_fails(self@, input, k + 1, self@.operation.len() as int);
                    }
                    return Err(e);
                },
                Ok(files) => {
                    current = files;
                },
            }
            k += 1;
        }
        Ok(current)
    }
}

/// The steps of a rule file, in the order in which they are performed.
#[derive(Debug)]
pub struct Transformations {
    pub transformations: Vec<Steps>,
}

impl View for Transformations {
    type V = Seq<StepView>;

    open spec fn view(&self) -> Seq<StepView> {
        step_views(self.transformations@)
    }
}

impl Transformations {
    /// Reads the steps of a rule file from its lines.  A line that is
    /// malformed, or a key, an operation or a kind of record that is not
    /// known, fails the whole file.
    pub fn load(text: &Vec<String>) -> (r: Result<Transformations, ConfigError>)
        ensures
            match r {
                Ok(t) => loaded(line_views(text@)) == Ok::<Seq<StepView>, ConfigError>(t@),
                Err(e) => loaded(line_views(text@)) == Err::<Seq<StepView>, ConfigError>(e),
            },
    {
        match load_steps(text) {
            Ok(steps) => Ok(Transformations { transformations: steps }),
            Err(e) => Err(e),
        }
    }

    /// Performs the steps, in order, on the file.  Every split doubles the
    /// number of files; every file that an operation yields has its
    /// trailers up to date.
    pub fn apply(&self, file: AchFile) -> (r: Result<Vec<AchFile>, TransformError>)
        ensures
            match r {
                Ok(out) => applied(self@, seq![file@], self@.len() as int) == Ok::<
                    Seq<FileView>,
                    TransformErrorView,
                >(file_views(out@)),
                Err(e) => applied(self@, seq![file@], self@.len() as int) == Err::<
                    Seq<FileView>,
                    TransformErrorView,
                >(e@),
            },
    {
        let ghost input = seq![file@];
        let mut current: Vec<AchFile> = Vec::new();
        current.push(file);
        assert(file_views(current@) =~= input);
        let mut n: usize = 0;
        while n < self.transformations.len()
            invariant
                n <= self.transformations.len(),
                input == seq![file@],
                applied(self@, input, n as int) == Ok::<Seq<FileView>, TransformErrorView>(
                    file_views(current@),
                ),
            decreases self.transformations.len() - n,
        {
            assert(self@[n as int] == self.transformations@[n as int]@);
            match self.transformations[n].apply(current) {
                Err(e) => {
                    proof {
                        lemma_applied_fails(self@, input, n + 1, self@.len() as int);
                    }
                    return Err(e);
                },
                Ok(files) => {
                    current = files;
                },
            }
            n += 1;
        }
        Ok(current)
    }
}

/// Reads the steps of a rule file from its lines.
pub fn load_transformations(text: &Vec<String>) -> (r: Result<Transformations, ConfigError>)
    ensures
        match r {
            Ok(t) => loaded(line_views(text@)) == Ok::<Seq<StepView>, ConfigError>(t@),
            Err(e) => loaded(line_views(text@)) == Err::<Seq<StepView>, ConfigError>(e),
        },
{
    Transformations::load(text)
}

/// Performs the steps, in order, on the file.
pub fn apply(transformations: &Transformations, file: AchFile) -> (r: Result<
    Vec<AchFile>,
    TransformError,
>)
    ensures
        match r {
            Ok(out) => applied(transformations@, seq![file@], transformations@.len() as int)
                == Ok::<Seq<FileView>, TransformErrorView>(file_views(out@)),
            Err(e) => applied(transformations@, seq![file@], transformations@.len() as int)
                == Err::<Seq<FileView>, TransformErrorView>(e@),
        },
{
    transformations.apply(file)
}

/// The lines of each of the first `n` files; the failure of the first file
/// that cannot be encoded.
pub open spec fn encoded_each(files: Seq<FileView>, n: int) -> Result<
    Seq<Seq<Seq<char>>>,
    TransformErrorView,
>
    decreases n,
{
    if n <= 0 {
        Ok(Seq::empty())
    } else {
        match encoded_each(files, n - 1) {
            Err(e) => Err(e),
            Ok(done) => match encoded(files[n - 1]) {
                Err(e) => Err(e),
                Ok(lines) => Ok(done.push(lines)),
            },
        }
    }
}

/// Files that fail to encode at some file fail whatever follows.
pub proof fn lemma_encoded_each_fails(files: Seq<FileView>, n: int, m: int)
    requires
        n <= m,
        encoded_each(files, n) is Err,
    ensures
        encoded_each(files, m) == encoded_each(files, n),
    decreases m - n,
{
    if n < m {
        lemma_encoded_each_fails(files, n, m - 1);
    }
}

/// The lines of each of a sequence of texts.
pub open spec fn text_views(texts: Seq<Vec<String>>) -> Seq<Seq<Seq<char>>> {
    Seq::new(texts.len(), |i: int| line_views(texts[i]@))
}

/// What the whole pipeline makes of the lines of a file and the lines of a
/// rule file: the rules are loaded, the file is decoded, the steps are
/// performed, and every file that results is encoded.  The first of these
/// that fails ends the pipeline.
pub open spec fn processed(lines: Seq<Seq<char>>, rules: Seq<Seq<char>>) -> Result<
    Seq<Seq<Seq<char>>>,
    AchErrorView,
> {
    match loaded(rules) {
        Err(e) => Err(AchErrorView::Config(e)),
        Ok(steps) => match parsed(lines, false) {
            Err(e) => Err(AchErrorView::Decode(e)),
            Ok((file, _)) => match applied(steps, seq![file], steps.len() as int) {
                Err(e) => Err(AchErrorView::Transform(e)),
                Ok(files) => match encoded_each(files, files.len() as int) {
                    Err(e) => Err(AchErrorView::Transform(e)),
                    Ok(texts) => Ok(texts),
                },
            },
        },
    }
}

/// Encodes each of the files.
pub fn encode_all(files: &Vec<AchFile>) -> (r: Result<Vec<Vec<String>>, TransformError>)
    ensures
        match r {
            Ok(texts) => encoded_each(file_views(files@), files@.len() as int) == Ok::<
                Seq<Seq<Seq<char>>>,
                TransformErrorView,
            >(text_views(texts@)),
            Err(e) => encoded_each(file_views(files@), files@.len() as int) == Err::<
                Seq<Seq<Seq<char>>>,
                TransformErrorView,
            >(e@),
        },
{
    let ghost input = file_views(files@);
    let mut out: Vec<Vec<String>> = Vec::new();
    let mut i: usize = 0;
    assert(text_views(out@) =~= Seq::<Seq<Seq<char>>>::empty());
    while i < files.len()
        invariant
            i <= files.len(),
            input == file_views(files@),
            encoded_each(input, i as int) == Ok::<Seq<Seq<Seq<char>>>, TransformErrorView>(
                text_views(out@),
            ),
        decreases files.len() - i,
    {
        let ghost done = text_views(out@);
        assert(input[i as int] == files@[i as int]@);
        match encode(&files[i]) {
            Err(e) => {
                proof {
                    lemma_encoded_each_fails(input, i + 1, input.len() as int);
                }
                return Err(e);
            },
            Ok(lines) => {
                out.push(lines);
                assert(text_views(out@) =~= done.push(line_views(lines@)));
            },
        }
        i += 1;
    }
    Ok(out)
}

/// Runs the whole pipeline on the lines of a file and the lines of a rule
/// file, and yields the lines of each file that results.
pub fn process(lines: Vec<String>, rules: &Vec<String>) -> (r: Result<Vec<Vec<String>>, AchError>)
    ensures
        match r {
            Ok(texts) => processed(line_views(lines@), line_views(rules@)) == Ok::<
                Seq<Seq<Seq<char>>>,
                AchErrorView,
            >(text_views(texts@)),
            Err(e) => processed(line_views(lines@), line_views(rules@)) == Err::<
                Seq<Seq<Seq<char>>>,
                AchErrorView,
            >(e@),
        },
{
    let transformations = match Transformations::load(rules) {
        Err(e) => {
            return Err(AchError::from_config(e));
        },
        Ok(t) => t,
    };
    let file = match parse(lines) {
        Err(e) => {
            return Err(AchError::from_decode(e));
        },
        Ok(file) => file,
    };
    let files = match transformations.apply(file) {
        Err(e) => {
            return Err(AchError::from_transform(e));
        },
        Ok(files) => files,
    };
    match encode_all(&files) {
        Err(e) => Err(AchError::from_transform(e)),
        Ok(texts) => Ok(texts),
    }
}

} // verus!
