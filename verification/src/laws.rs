//! Laws that relate the functions of this crate to one another.

use crate::ach_file::{BatchView, FileView, COMPANY_ID};
use crate::ach_transformations::{
    batch_holds, by_company, first_failure, part, selected, split_of,
};
use crate::aggregate::{
    derived, lemma_numeric_value_of_zero_padded, lemma_refreshed_keeps_aggregates,
    lemma_sums_depend_on_entries, lemma_zero_padded_len, numeric_value, pow10, refreshed_batches,
    zero_padded, AMOUNT_LIMIT, BATCH_COUNT_LIMIT, BATCH_ENTRY_COUNT, BATCH_ENTRY_HASH,
    BATCH_ENTRY_LIMIT, BATCH_TOTAL_CREDIT, BATCH_TOTAL_DEBIT, BLOCK_COUNT_LIMIT, FILE_BATCH_COUNT,
    FILE_BLOCK_COUNT, FILE_ENTRY_COUNT, FILE_ENTRY_HASH, FILE_ENTRY_LIMIT, FILE_TOTAL_CREDITS,
    FILE_TOTAL_DEBITS, HASH_MODULUS,
};
use crate::condition::{content_of, eval, eval_all, ConditionView};
use crate::encoder::{encoded, entries_fit, filler_line, lemma_lines_len, lemma_unfit_file};
use crate::error::{DecodeError, TransformErrorView};
use crate::field::FieldView;
use crate::layout::{all_fit, is_position, layout, lemma_position_of, position_of, AchRecordType};
use crate::parser::{
    addenda_end, batch_after, entries_from, file_from, lemma_addenda_end_bounds,
    lemma_entries_from_bounds, tag_of,
};
use crate::text::line_views;
use vstd::prelude::*;

verus! {

/// The derived fields of the trailer of the batch hold the aggregates of
/// the entries of the batch.
pub open spec fn batch_trailer_is_current(batch: BatchView) -> bool {
    &&& batch.trailer[BATCH_ENTRY_COUNT as int] == derived(batch.entry_and_addenda_count(), 6, false)
    &&& batch.trailer[BATCH_ENTRY_HASH as int] == derived(batch.entry_hash(), 10, true)
    &&& batch.trailer[BATCH_TOTAL_DEBIT as int] == derived(batch.total_debit(), 12, false)
    &&& batch.trailer[BATCH_TOTAL_CREDIT as int] == derived(batch.total_credit(), 12, false)
}

/// The derived fields of the trailer of the file hold the aggregates of the
/// batches of the file, and so does every batch trailer for its batch.
pub open spec fn trailers_are_current(file: FileView) -> bool {
    &&& file.trailer[FILE_BATCH_COUNT as int] == derived(file.batch_count(), 6, false)
    &&& file.trailer[FILE_BLOCK_COUNT as int] == derived(file.block_count(), 6, false)
    &&& file.trailer[FILE_ENTRY_COUNT as int] == derived(file.entry_and_addenda_count(), 8, false)
    &&& file.trailer[FILE_ENTRY_HASH as int] == derived(file.entry_hash(), 10, false)
    &&& file.trailer[FILE_TOTAL_DEBITS as int] == derived(file.total_debits(), 12, false)
    &&& file.trailer[FILE_TOTAL_CREDITS as int] == derived(file.total_credits(), 12, false)
    &&& forall|i: int|
        0 <= i < file.batches.len() ==> batch_trailer_is_current(#[trigger] file.batches[i])
}

/// The trailers have as many fields as their layouts declare.
pub open spec fn trailers_are_whole(file: FileView) -> bool {
    &&& file.trailer.len() == 7
    &&& forall|i: int| 0 <= i < file.batches.len() ==> (#[trigger] file.batches[i]).trailer.len() == 10
}

/// A file whose trailers were brought up to date holds, in every trailer,
/// the aggregates over the records that the trailer summarises, and over no
/// others.
pub proof fn lemma_refreshed_is_current(file: FileView)
    requires
        trailers_are_whole(file),
    ensures
        trailers_are_current(file.refreshed()),
        file.refreshed().header == file.header,
        file.refreshed().batches.len() == file.batches.len(),
        forall|i: int|
            0 <= i < file.batches.len() ==> (#[trigger] file.refreshed().batches[i]).entries
                == file.batches[i].entries && file.refreshed().batches[i].header
                == file.batches[i].header,
{
    lemma_refreshed_keeps_aggregates(file);
    let fresh = file.refreshed();
    lemma_sums_depend_on_entries(fresh.batches, file.batches, file.batches.len() as int);
    assert forall|i: int| 0 <= i < fresh.batches.len() implies batch_trailer_is_current(
        #[trigger] fresh.batches[i],
    ) by {
        assert(file.batches[i].trailer.len() == 10);
    }
}

/// Width invariant: a file in which the content of some field of the file
/// header, of a batch header, of an entry or of an addenda is wider than the
/// field is not encoded: encoding fails with `FieldOverflow`.
pub proof fn lemma_overflow_fails_encoding(file: FileView, i: int)
    requires
        !all_fit(file.header) || (0 <= i < file.batches.len() && (!all_fit(file.batches[i].header)
            || !entries_fit(file.batches[i].entries))),
    ensures
        encoded(file) matches Err(TransformErrorView::FieldOverflow(_)),
{
    lemma_unfit_file(file.refreshed());
    if file.aggregates_fit() && all_fit(file.header) {
        assert(!file.refreshed().batches[i].all_fit());
    }
}

/// Addenda-indicator consistency: a file with an entry whose indicator
/// disagrees with the addenda it owns is not encoded; where nothing
/// overflows, encoding fails with `AddendaIndicatorMismatch`.
pub proof fn lemma_mismatch_fails_encoding(file: FileView)
    requires
        !file.indicators_consistent(),
    ensures
        encoded(file) is Err,
        file.aggregates_fit() && file.refreshed().all_fit() ==> encoded(file) == Err::<
            Seq<Seq<char>>,
            TransformErrorView,
        >(TransformErrorView::AddendaIndicatorMismatch),
{
    lemma_unfit_file(file.refreshed());
}

/// The two selections of a split divide the first `n` batches: each batch
/// is in exactly one of them, as often as it occurs.
pub proof fn lemma_selected_partition(conds: Seq<ConditionView>, batches: Seq<BatchView>, n: int)
    requires
        0 <= n <= batches.len(),
        first_failure(conds, batches, n) is None,
    ensures
        selected(conds, batches, true, n).len() + selected(conds, batches, false, n).len() == n,
        selected(conds, batches, true, n).to_multiset().add(
            selected(conds, batches, false, n).to_multiset(),
        ) == batches.take(n).to_multiset(),
        forall|b: BatchView|
            selected(conds, batches, true, n).contains(b) ==> batch_holds(conds, b) == Ok::<
                bool,
                TransformErrorView,
            >(true),
        forall|b: BatchView|
            selected(conds, batches, false, n).contains(b) ==> batch_holds(conds, b) == Ok::<
                bool,
                TransformErrorView,
            >(false),
    decreases n,
{
    broadcast use vstd::seq_lib::group_to_multiset_ensures;

    let yes = selected(conds, batches, true, n);
    let no = selected(conds, batches, false, n);
    if n == 0 {
        assert(batches.take(0) =~= Seq::<BatchView>::empty());
        assert(yes.to_multiset().add(no.to_multiset()) =~= batches.take(0).to_multiset());
    } else {
        assert(first_failure(conds, batches, n - 1) is None);
        lemma_selected_partition(conds, batches, n - 1);
        let last = batches[n - 1];
        assert(batch_holds(conds, last) is Ok);
        let yes0 = selected(conds, batches, true, n - 1);
        let no0 = selected(conds, batches, false, n - 1);
        assert(batches.take(n) =~= batches.take(n - 1).push(last));
        if batch_holds(conds, last) == Ok::<bool, TransformErrorView>(true) {
            assert(yes == yes0.push(last));
            assert(no == no0);
            assert(yes.to_multiset().add(no.to_multiset()) =~= batches.take(n).to_multiset());
            assert forall|b: BatchView| yes.contains(b) implies batch_holds(conds, b) == Ok::<
                bool,
                TransformErrorView,
            >(true) by {
                let k = choose|k: int| 0 <= k < yes.len() && yes[k] == b;
                if k < yes0.len() {
                    assert(yes0[k] == b);
                    assert(yes0.contains(b));
                }
            }
        } else {
            assert(batch_holds(conds, last)->Ok_0 == false);
            assert(batch_holds(conds, last) == Ok::<bool, TransformErrorView>(false));
            assert(yes == yes0);
            assert(no == no0.push(last));
            assert(yes.to_multiset().add(no.to_multiset()) =~= batches.take(n).to_multiset());
            assert forall|b: BatchView| no.contains(b) implies batch_holds(conds, b) == Ok::<
                bool,
                TransformErrorView,
            >(false) by {
                let k = choose|k: int| 0 <= k < no.len() && no[k] == b;
                if k < no0.len() {
                    assert(no0[k] == b);
                    assert(no0.contains(b));
                }
            }
        }
    }
}

/// Split completeness: where a split succeeds, the batches of its two
/// parts divide the batches of the file that is split.  No batch is in both
/// parts and none is dropped or doubled; the batches of each part keep
/// their order, their headers and their entries.  Every trailer of either
/// part holds the aggregates over the batches of that part only.
pub proof fn lemma_split_complete(conds: Seq<ConditionView>, file: FileView)
    requires
        split_of(conds, file) is Ok,
        trailers_are_whole(file),
    ensures
        ({
            let (matching, others) = split_of(conds, file)->Ok_0;
            let yes = selected(conds, file.batches, true, file.batches.len() as int);
            let no = selected(conds, file.batches, false, file.batches.len() as int);
            &&& yes.to_multiset().add(no.to_multiset()) == file.batches.to_multiset()
            &&& yes.len() + no.len() == file.batches.len()
            &&& forall|b: BatchView| !(yes.contains(b) && no.contains(b))
            &&& matching.header == file.header
            &&& others.header == file.header
            &&& matching.batches == refreshed_batches(yes)
            &&& others.batches == refreshed_batches(no)
            &&& trailers_are_current(matching)
            &&& trailers_are_current(others)
        }),
{
    reveal(split_of);
    let n = file.batches.len() as int;
    lemma_selected_partition(conds, file.batches, n);
    assert(file.batches.take(n) =~= file.batches);
    let yes = selected(conds, file.batches, true, n);
    let no = selected(conds, file.batches, false, n);
    assert forall|i: int| 0 <= i < yes.len() implies (#[trigger] yes[i]).trailer.len() == 10 by {
        lemma_selected_are_batches(conds, file.batches, true, n, i);
    }
    assert forall|i: int| 0 <= i < no.len() implies (#[trigger] no[i]).trailer.len() == 10 by {
        lemma_selected_are_batches(conds, file.batches, false, n, i);
    }
    lemma_refreshed_is_current(part(conds, file, true));
    lemma_refreshed_is_current(part(conds, file, false));
    let (matching, others) = split_of(conds, file)->Ok_0;
    assert(matching == part(conds, file, true).refreshed());
    assert(others == part(conds, file, false).refreshed());
    assert(trailers_are_current(matching));
    assert(trailers_are_current(others));
    assert(matching.batches == refreshed_batches(yes));
    assert(yes.to_multiset().add(no.to_multiset()) == file.batches.to_multiset());
    assert forall|b: BatchView| !(yes.contains(b) && no.contains(b)) by {
        if yes.contains(b) && no.contains(b) {
            assert(batch_holds(conds, b) == Ok::<bool, TransformErrorView>(true));
            assert(batch_holds(conds, b) == Ok::<bool, TransformErrorView>(false));
        }
    }
}

/// Every selected batch is one of the batches.
pub proof fn lemma_selected_are_batches(
    conds: Seq<ConditionView>,
    batches: Seq<BatchView>,
    want: bool,
    n: int,
    i: int,
)
    requires
        0 <= n <= batches.len(),
        0 <= i < selected(conds, batches, want, n).len(),
    ensures
        exists|k: int| 0 <= k < n && batches[k] == selected(conds, batches, want, n)[i],
    decreases n,
{
    if n > 0 {
        let rest = selected(conds, batches, want, n - 1);
        if i < rest.len() {
            lemma_selected_are_batches(conds, batches, want, n - 1, i);
            let k = choose|k: int| 0 <= k < n - 1 && batches[k] == rest[i];
            assert(batches[k] == selected(conds, batches, want, n)[i]);
        } else {
            assert(batches[n - 1] == selected(conds, batches, want, n)[i]);
        }
    }
}

/// In a batch header the company identification is the fourth field.
pub proof fn lemma_company_id_position()
    ensures
        position_of(layout(AchRecordType::CompanyBatchHeader), "company_id"@) == Some(
            COMPANY_ID as int,
        ),
{
    reveal_strlit("company_id");
    reveal_strlit("service_class_code");
    reveal_strlit("company_name");
    reveal_strlit("company_discretionary_data");
    let names = layout(AchRecordType::CompanyBatchHeader);
    assert(names[0].name.len() != "company_id"@.len());
    assert(names[1].name.len() != "company_id"@.len());
    assert(names[2].name.len() != "company_id"@.len());
    assert(is_position(names, "company_id"@, COMPANY_ID as int));
    lemma_position_of(names, "company_id"@, COMPANY_ID as int);
}

/// A split by company looks at the company identification of the batch
/// header and at nothing else: a batch goes to the first part exactly if
/// its company is one of those asked for.  The conditions of such a split
/// can be evaluated on every batch.
pub proof fn lemma_split_by_company(ids: Seq<String>, batch: BatchView)
    ensures
        batch_holds(by_company(ids), batch) == Ok::<bool, TransformErrorView>(
            line_views(ids).contains(batch.header[COMPANY_ID as int].content),
        ),
{
    lemma_company_id_position();
    let conds = by_company(ids);
    let kind = AchRecordType::CompanyBatchHeader;
    assert(conds.len() == 1);
    assert(eval_all(conds, 1, kind, batch.header) == Ok::<bool, TransformErrorView>(true));
    assert(content_of(kind, batch.header, "company_id"@) == Some(
        batch.header[COMPANY_ID as int].content,
    ));
    assert(eval(conds[0], kind, batch.header) == Ok::<bool, TransformErrorView>(
        line_views(ids).contains(batch.header[COMPANY_ID as int].content),
    ));
}

/// The conditions of a split by company can be evaluated on every batch.
pub proof fn lemma_company_split_evaluates(ids: Seq<String>, batches: Seq<BatchView>, n: int)
    requires
        0 <= n <= batches.len(),
    ensures
        first_failure(by_company(ids), batches, n) is None,
    decreases n,
{
    if n > 0 {
        lemma_company_split_evaluates(ids, batches, n - 1);
        lemma_split_by_company(ids, batches[n - 1]);
    }
}

/// Split by company: a split by company identifications fails only where
/// an aggregate of a part does not fit its field.  Where it succeeds, the
/// first part holds the batches of the companies asked for and the second
/// part the batches of all others; together they hold every batch of the
/// file that is split, each once; and the trailers of either part hold the
/// aggregates over the batches of that part only.
pub proof fn lemma_company_split_complete(ids: Seq<String>, file: FileView)
    requires
        trailers_are_whole(file),
    ensures
        split_of(by_company(ids), file) matches Err(e) ==> e is FieldOverflow,
        split_of(by_company(ids), file) matches Ok((matching, others)) ==> {
            let yes = selected(by_company(ids), file.batches, true, file.batches.len() as int);
            let no = selected(by_company(ids), file.batches, false, file.batches.len() as int);
            &&& matching.batches == refreshed_batches(yes)
            &&& others.batches == refreshed_batches(no)
            &&& yes.to_multiset().add(no.to_multiset()) == file.batches.to_multiset()
            &&& forall|b: BatchView|
                yes.contains(b) ==> line_views(ids).contains(b.header[COMPANY_ID as int].content)
            &&& forall|b: BatchView|
                no.contains(b) ==> !line_views(ids).contains(b.header[COMPANY_ID as int].content)
            &&& trailers_are_current(matching)
            &&& trailers_are_current(others)
        },
{
    reveal(split_of);
    let conds = by_company(ids);
    let n = file.batches.len() as int;
    lemma_company_split_evaluates(ids, file.batches, n);
    if split_of(conds, file) is Ok {
        lemma_split_complete(conds, file);
        lemma_selected_partition(conds, file.batches, n);
        let yes = selected(conds, file.batches, true, n);
        let no = selected(conds, file.batches, false, n);
        assert forall|b: BatchView| yes.contains(b) implies line_views(ids).contains(
            b.header[COMPANY_ID as int].content,
        ) by {
            lemma_split_by_company(ids, b);
        }
        assert forall|b: BatchView| no.contains(b) implies !line_views(ids).contains(
            b.header[COMPANY_ID as int].content,
        ) by {
            lemma_split_by_company(ids, b);
        }
    }
}

/// Whole blocks: the lines that a file is encoded to are a multiple of ten
/// lines, and the fillers that end them are fewer than ten.
pub proof fn lemma_encoded_whole_blocks(file: FileView)
    requires
        encoded(file) is Ok,
    ensures
        encoded(file)->Ok_0.len() % 10 == 0,
        encoded(file)->Ok_0.len() == file.line_count() + file.padding(),
        file.padding() < 10,
        forall|i: int|
            file.line_count() <= i < encoded(file)->Ok_0.len() ==> encoded(file)->Ok_0[i]
                == filler_line(),
{
    let fresh = file.refreshed();
    lemma_refreshed_keeps_aggregates(file);
    assert(fresh.batches.len() == file.batches.len());
    assert forall|i: int| 0 <= i < fresh.batches.len() implies (#[trigger] fresh.batches[i]).indicators_consistent() by {
        assert(file.batches[i].indicators_consistent());
        assert(fresh.batches[i].entries == file.batches[i].entries);
    }
    lemma_lines_len(fresh);
}

/// A derived field holds content that fills it, so it always fits.
pub proof fn lemma_derived_fits(value: nat, width: nat, left: bool)
    ensures
        derived(value, width, left).fits(),
        derived(value, width, left).rendered() == zero_padded(value, width),
{
    lemma_zero_padded_len(value, width);
    derived(value, width, left).lemma_full_renders_itself();
}

/// Success is owed: a file is encoded if its aggregates fit their fields,
/// the content of every field that is not derived fits, and every entry's
/// indicator agrees with its addenda.
pub proof fn lemma_encoding_succeeds(file: FileView)
    requires
        file.aggregates_fit(),
        file.all_fit(),
        file.indicators_consistent(),
        trailers_are_whole(file),
    ensures
        encoded(file) is Ok,
{
    let fresh = file.refreshed();
    lemma_derived_fits(file.batch_count(), 6, false);
    lemma_derived_fits(file.block_count(), 6, false);
    lemma_derived_fits(file.entry_and_addenda_count(), 8, false);
    lemma_derived_fits(file.entry_hash(), 10, false);
    lemma_derived_fits(file.total_debits(), 12, false);
    lemma_derived_fits(file.total_credits(), 12, false);
    assert(all_fit(fresh.trailer));
    assert forall|i: int| 0 <= i < fresh.batches.len() implies (#[trigger] fresh.batches[i]).all_fit() by {
        let batch = file.batches[i];
        assert(batch.all_fit());
        assert(batch.trailer.len() == 10);
        lemma_derived_fits(batch.entry_and_addenda_count(), 6, false);
        lemma_derived_fits(batch.entry_hash(), 10, true);
        lemma_derived_fits(batch.total_debit(), 12, false);
        lemma_derived_fits(batch.total_credit(), 12, false);
        assert(all_fit(fresh.batches[i].trailer));
    }
    lemma_unfit_file(fresh);
}

/// The limits of the aggregates are what the widths of their fields allow:
/// an aggregate fits its field exactly if it is below ten to the power of
/// the width that the layout gives to the field.
pub proof fn lemma_limits_match_widths()
    ensures
        BATCH_ENTRY_LIMIT == pow10(
            layout(AchRecordType::CompanyBatchTrailer)[BATCH_ENTRY_COUNT as int].width,
        ),
        HASH_MODULUS == pow10(
            layout(AchRecordType::CompanyBatchTrailer)[BATCH_ENTRY_HASH as int].width,
        ),
        AMOUNT_LIMIT == pow10(
            layout(AchRecordType::CompanyBatchTrailer)[BATCH_TOTAL_DEBIT as int].width,
        ),
        AMOUNT_LIMIT == pow10(
            layout(AchRecordType::CompanyBatchTrailer)[BATCH_TOTAL_CREDIT as int].width,
        ),
        BATCH_COUNT_LIMIT == pow10(layout(AchRecordType::Trailer)[FILE_BATCH_COUNT as int].width),
        BLOCK_COUNT_LIMIT == pow10(layout(AchRecordType::Trailer)[FILE_BLOCK_COUNT as int].width),
        FILE_ENTRY_LIMIT == pow10(layout(AchRecordType::Trailer)[FILE_ENTRY_COUNT as int].width),
        HASH_MODULUS == pow10(layout(AchRecordType::Trailer)[FILE_ENTRY_HASH as int].width),
        AMOUNT_LIMIT == pow10(layout(AchRecordType::Trailer)[FILE_TOTAL_DEBITS as int].width),
        AMOUNT_LIMIT == pow10(layout(AchRecordType::Trailer)[FILE_TOTAL_CREDITS as int].width),
{
    reveal_with_fuel(pow10, 13);
}

/// The trailers of a file that was brought up to date read back as the
/// aggregates of the file: the numeric value of each derived field of the
/// file trailer is the aggregate that the field stands for.
pub proof fn lemma_trailer_reads_back(file: FileView)
    requires
        file.aggregates_fit(),
        trailers_are_whole(file),
    ensures
        numeric_value(file.refreshed().trailer[FILE_BATCH_COUNT as int].content) == file.batch_count(),
        numeric_value(file.refreshed().trailer[FILE_BLOCK_COUNT as int].content) == file.block_count(),
        numeric_value(file.refreshed().trailer[FILE_ENTRY_COUNT as int].content) == file.entry_and_addenda_count(),
        numeric_value(file.refreshed().trailer[FILE_ENTRY_HASH as int].content) == file.entry_hash(),
        numeric_value(file.refreshed().trailer[FILE_TOTAL_DEBITS as int].content) == file.total_debits(),
        numeric_value(file.refreshed().trailer[FILE_TOTAL_CREDITS as int].content) == file.total_credits(),
{
    lemma_limits_match_widths();
    reveal_with_fuel(pow10, 13);
    lemma_numeric_value_of_zero_padded(file.batch_count(), 6);
    lemma_numeric_value_of_zero_padded(file.block_count(), 6);
    lemma_numeric_value_of_zero_padded(file.entry_and_addenda_count(), 8);
    lemma_numeric_value_of_zero_padded(file.entry_hash(), 10);
    lemma_numeric_value_of_zero_padded(file.total_debits(), 12);
    lemma_numeric_value_of_zero_padded(file.total_credits(), 12);
}

/// Lookahead: a batch whose entries are followed by a line that is neither
/// an entry nor the batch trailer is malformed, and so is the file that
/// holds it.  The line that interrupts the batch, the header of a next batch
/// as it may be, is not taken for the trailer.
pub proof fn lemma_interrupted_batch_is_malformed(
    lines: Seq<Seq<char>>,
    pos: int,
    header: Seq<FieldView>,
    batches: Seq<BatchView>,
    failed: bool,
)
    requires
        0 <= pos < lines.len(),
        tag_of(lines[pos]) == '5',
        entries_from(lines, pos + 1).1 < lines.len(),
        tag_of(lines[entries_from(lines, pos + 1).1]) != '8',
    ensures
        batch_after(lines, pos + 1, lines[pos], failed) == Err::<(BatchView, int), DecodeError>(
            DecodeError::MalformedBatch,
        ),
        file_from(lines, pos, header, batches, failed) == Err::<(FileView, int), DecodeError>(
            DecodeError::MalformedBatch,
        ),
        tag_of(lines[entries_from(lines, pos + 1).1]) != '6',
{
    lemma_entries_from_bounds(lines, pos + 1);
    lemma_entries_stop(lines, pos + 1);
}

/// A run of entries stops at the end of the lines or before a line that
/// opens no entry.
pub proof fn lemma_entries_stop(lines: Seq<Seq<char>>, pos: int)
    requires
        0 <= pos <= lines.len(),
    ensures
        entries_from(lines, pos).1 < lines.len() ==> tag_of(lines[entries_from(lines, pos).1])
            != '6',
    decreases lines.len() - pos,
{
    if pos < lines.len() && tag_of(lines[pos]) == '6' {
        lemma_addenda_end_bounds(lines, pos + 1);
        lemma_entries_stop(lines, addenda_end(lines, pos + 1));
    }
}

} // verus!
