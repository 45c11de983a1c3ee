//! The round trip law: decoding well-formed lines and encoding the file
//! that they hold gives the lines back.

use crate::ach_file::{entries_line_count, BatchView, EntryView};
use crate::encoder::{
    addenda_lines, batches_all_fit, batches_lines, encoded, entries_consistent, entries_fit,
    entries_lines, fillers, lemma_lines_len, lemma_unfit_file,
};
use crate::error::TransformErrorView;
use crate::field::FieldView;
use crate::layout::{
    all_fit, concat_rendered, decoded, layout, offset, record_line, tag, AchRecordType, FieldDefView,
    LINE_WIDTH,
};
use crate::parser::{
    addenda_end, batch_after, body_of, entries_from, entry_after, file_from,
    lemma_addenda_end_bounds, lemma_entries_from_bounds, parsed, record_of, tag_of,
};
use vstd::prelude::*;

verus! {

/// Every line from `from` up to `to` is as wide as a line is.
pub open spec fn full_width(lines: Seq<Seq<char>>, from: int, to: int) -> bool {
    forall|i: int| from <= i < to ==> (#[trigger] lines[i]).len() == LINE_WIDTH
}

/// Lines are well formed if they hold a file, the file header is the first
/// line and the only one, every line up to the file trailer is as wide as a
/// line is, every trailer holds the aggregates over its records, and every
/// entry says that addenda follow it exactly if some do.
pub open spec fn is_well_formed(lines: Seq<Seq<char>>) -> bool {
    &&& parsed(lines, false) is Ok
    &&& tag_of(lines[0]) == '1'
    &&& forall|i: int| 0 < i < parsed(lines, false)->Ok_0.1 ==> tag_of(#[trigger] lines[i]) != '1'
    &&& full_width(lines, 0, parsed(lines, false)->Ok_0.1)
    &&& parsed(lines, false)->Ok_0.0.aggregates_fit()
    &&& parsed(lines, false)->Ok_0.0.refreshed() == parsed(lines, false)->Ok_0.0
    &&& parsed(lines, false)->Ok_0.0.indicators_consistent()
}

/// The fields of every layout take the whole line after the tag.
pub proof fn lemma_layout_fills_line(kind: AchRecordType)
    ensures
        offset(layout(kind), layout(kind).len() as int) == LINE_WIDTH - 1,
{
    reveal_with_fuel(offset, 13);
}

/// Fields start at or after the fields before them.
pub proof fn lemma_offset_monotonic(layout: Seq<FieldDefView>, i: int, j: int)
    requires
        i <= j,
    ensures
        offset(layout, i) <= offset(layout, j),
        0 <= offset(layout, i),
    decreases j - i, i,
{
    if i < j {
        lemma_offset_monotonic(layout, i, j - 1);
    } else if i > 0 {
        lemma_offset_monotonic(layout, i - 1, i - 1);
    }
}

/// Whatever is decoded fits its field.
pub proof fn lemma_decoded_fits(rest: Seq<char>, layout: Seq<FieldDefView>)
    ensures
        all_fit(decoded(rest, layout)),
{
    assert forall|i: int| 0 <= i < decoded(rest, layout).len() implies (#[trigger] decoded(
        rest,
        layout,
    )[i]).fits() by {}
}

/// The first `n` fields decoded from a line that is long enough for them
/// render to the characters that they were decoded from.
pub proof fn lemma_concat_decoded(rest: Seq<char>, layout: Seq<FieldDefView>, n: int)
    requires
        0 <= n <= layout.len(),
        offset(layout, n) <= rest.len(),
    ensures
        concat_rendered(decoded(rest, layout), n) == rest.subrange(0, offset(layout, n)),
    decreases n,
{
    lemma_offset_monotonic(layout, 0, n);
    if n > 0 {
        lemma_offset_monotonic(layout, n - 1, n);
        lemma_concat_decoded(rest, layout, n - 1);
        let field = decoded(rest, layout)[n - 1];
        assert(field.content =~= rest.subrange(offset(layout, n - 1), offset(layout, n)));
        field.lemma_full_renders_itself();
        assert(concat_rendered(decoded(rest, layout), n) =~= rest.subrange(0, offset(layout, n)));
    } else {
        assert(concat_rendered(decoded(rest, layout), n) =~= rest.subrange(0, offset(layout, n)));
    }
}

/// A line of full width renders, once decoded, to itself.
pub proof fn lemma_record_round_trip(kind: AchRecordType, line: Seq<char>)
    requires
        line.len() == LINE_WIDTH,
        tag_of(line) == tag(kind),
    ensures
        record_line(kind, record_of(kind, line)) == line,
        all_fit(record_of(kind, line)),
{
    lemma_layout_fills_line(kind);
    lemma_concat_decoded(body_of(line), layout(kind), layout(kind).len() as int);
    lemma_decoded_fits(body_of(line), layout(kind));
    assert(record_line(kind, record_of(kind, line)) =~= line);
}

/// The lines of a run of addenda all start with the tag of addenda.
pub proof fn lemma_addenda_run_tags(lines: Seq<Seq<char>>, pos: int, i: int)
    requires
        0 <= pos <= i < addenda_end(lines, pos),
    ensures
        i < lines.len(),
        tag_of(lines[i]) == '7',
    decreases lines.len() - pos,
{
    if 0 <= pos < lines.len() && tag_of(lines[pos]) == '7' {
        if pos < i {
            lemma_addenda_run_tags(lines, pos + 1, i);
        }
    }
}

/// An entry of full-width lines whose indicator agrees with its addenda
/// renders to its lines.
pub proof fn lemma_entry_round_trip(lines: Seq<Seq<char>>, pos: int)
    requires
        0 <= pos < lines.len(),
        tag_of(lines[pos]) == '6',
        full_width(lines, pos, addenda_end(lines, pos + 1)),
        entry_after(lines, pos + 1, lines[pos]).indicator_consistent(),
    ensures
        entry_after(lines, pos + 1, lines[pos]).lines() == lines.subrange(
            pos,
            addenda_end(lines, pos + 1),
        ),
        entry_after(lines, pos + 1, lines[pos]).all_fit(),
        entry_after(lines, pos + 1, lines[pos]).line_count() == addenda_end(lines, pos + 1) - pos,
{
    let end = addenda_end(lines, pos + 1);
    let entry = entry_after(lines, pos + 1, lines[pos]);
    lemma_addenda_end_bounds(lines, pos + 1);
    lemma_record_round_trip(AchRecordType::EntryDetail, lines[pos]);
    assert forall|i: int| 0 <= i < entry.addenda.len() implies all_fit(
        #[trigger] entry.addenda[i],
    ) && addenda_lines(entry.addenda)[i] == lines[pos + 1 + i] by {
        lemma_addenda_run_tags(lines, pos + 1, pos + 1 + i);
        lemma_record_round_trip(AchRecordType::Addenda, lines[pos + 1 + i]);
    }
    assert(addenda_lines(entry.addenda) =~= lines.subrange(pos + 1, end));
    assert(entry.lines() =~= lines.subrange(pos, end));
}

/// The lines, the line count, the fitting and the consistency of entries,
/// with one more entry in front.
pub proof fn lemma_entries_prepend(first: EntryView, more: Seq<EntryView>, n: int)
    requires
        0 <= n <= more.len(),
    ensures
        entries_lines(seq![first] + more, n + 1) == first.lines() + entries_lines(more, n),
        entries_line_count(seq![first] + more, n + 1) == first.line_count() + entries_line_count(
            more,
            n,
        ),
    decreases n,
{
    let all = seq![first] + more;
    if n > 0 {
        lemma_entries_prepend(first, more, n - 1);
        assert(all[n] == more[n - 1]);
        assert(entries_lines(all, n + 1) =~= first.lines() + entries_lines(more, n));
    } else {
        assert(all[0] == first);
        assert(entries_lines(all, 0) =~= Seq::<Seq<char>>::empty());
        assert(entries_lines(all, 1) =~= first.lines() + entries_lines(more, 0));
        assert(entries_line_count(all, 0) == 0);
        assert(entries_line_count(all, 1) == entries_line_count(all, 0) + all[0].line_count());
    }
}

/// A run of entries of full-width lines whose indicators agree with their
/// addenda renders to its lines.
pub proof fn lemma_entries_round_trip(lines: Seq<Seq<char>>, pos: int)
    requires
        0 <= pos <= lines.len(),
        full_width(lines, pos, entries_from(lines, pos).1),
        entries_consistent(entries_from(lines, pos).0),
    ensures
        entries_lines(entries_from(lines, pos).0, entries_from(lines, pos).0.len() as int)
            == lines.subrange(pos, entries_from(lines, pos).1),
        entries_line_count(entries_from(lines, pos).0, entries_from(lines, pos).0.len() as int)
            == entries_from(lines, pos).1 - pos,
        entries_fit(entries_from(lines, pos).0),
    decreases lines.len() - pos,
{
    let (entries, stop) = entries_from(lines, pos);
    if pos < lines.len() && tag_of(lines[pos]) == '6' {
        let end = addenda_end(lines, pos + 1);
        let first = entry_after(lines, pos + 1, lines[pos]);
        let (more, stop2) = entries_from(lines, end);
        lemma_addenda_end_bounds(lines, pos + 1);
        lemma_entries_from_bounds(lines, end);
        assert(entries == seq![first] + more);
        assert(entries[0] == first);
        assert(first.indicator_consistent());
        assert forall|i: int| 0 <= i < more.len() implies (#[trigger] more[i]).indicator_consistent() by {
            assert(entries[i + 1] == more[i]);
        }
        lemma_entry_round_trip(lines, pos);
        lemma_entries_round_trip(lines, end);
        lemma_entries_prepend(first, more, more.len() as int);
        assert(lines.subrange(pos, end) + lines.subrange(end, stop) =~= lines.subrange(pos, stop));
        assert forall|i: int| 0 <= i < entries.len() implies (#[trigger] entries[i]).all_fit() by {
            if i > 0 {
                assert(entries[i] == more[i - 1]);
            }
        }
    } else {
        assert(entries_lines(entries, 0) =~= lines.subrange(pos, pos));
    }
}

/// A batch of full-width lines whose indicators agree with the addenda
/// renders to its lines.
pub proof fn lemma_batch_round_trip(lines: Seq<Seq<char>>, pos: int, failed: bool)
    requires
        0 <= pos < lines.len(),
        tag_of(lines[pos]) == '5',
        batch_after(lines, pos + 1, lines[pos], failed) is Ok,
        full_width(lines, pos, batch_after(lines, pos + 1, lines[pos], failed)->Ok_0.1),
        batch_after(lines, pos + 1, lines[pos], failed)->Ok_0.0.indicators_consistent(),
    ensures
        batch_after(lines, pos + 1, lines[pos], failed)->Ok_0.0.lines() == lines.subrange(
            pos,
            batch_after(lines, pos + 1, lines[pos], failed)->Ok_0.1,
        ),
        batch_after(lines, pos + 1, lines[pos], failed)->Ok_0.0.all_fit(),
        batch_after(lines, pos + 1, lines[pos], failed)->Ok_0.0.line_count() == batch_after(
            lines,
            pos + 1,
            lines[pos],
            failed,
        )->Ok_0.1 - pos,
{
    let (batch, next) = batch_after(lines, pos + 1, lines[pos], failed)->Ok_0;
    let (entries, stop) = entries_from(lines, pos + 1);
    lemma_entries_from_bounds(lines, pos + 1);
    assert(next == stop + 1);
    lemma_entries_round_trip(lines, pos + 1);
    lemma_record_round_trip(AchRecordType::CompanyBatchHeader, lines[pos]);
    lemma_record_round_trip(AchRecordType::CompanyBatchTrailer, lines[stop]);
    assert(batch.lines() =~= lines.subrange(pos, next));
}

/// The lines of the first `n` batches do not depend on the batches after
/// them.
pub proof fn lemma_batches_lines_prefix(batches: Seq<BatchView>, more: BatchView, n: int)
    requires
        0 <= n <= batches.len(),
    ensures
        batches_lines(batches.push(more), n) == batches_lines(batches, n),
    decreases n,
{
    if n > 0 {
        lemma_batches_lines_prefix(batches, more, n - 1);
        assert(batches.push(more)[n - 1] == batches[n - 1]);
    }
}

/// A file of full-width lines with no further file header, whose indicators
/// agree with the addenda, renders to its lines: the batches that are
/// decoded from `pos` on render to the lines from `pos` up to the file
/// trailer.
pub proof fn lemma_file_round_trip(
    lines: Seq<Seq<char>>,
    pos: int,
    header: Seq<FieldView>,
    batches: Seq<BatchView>,
    failed: bool,
)
    requires
        0 <= pos,
        file_from(lines, pos, header, batches, failed) is Ok,
        forall|i: int|
            pos <= i < file_from(lines, pos, header, batches, failed)->Ok_0.1 ==> tag_of(
                #[trigger] lines[i],
            ) != '1',
        full_width(lines, pos, file_from(lines, pos, header, batches, failed)->Ok_0.1),
        file_from(lines, pos, header, batches, failed)->Ok_0.0.indicators_consistent(),
        batches_all_fit(batches),
    ensures
        ({
            let (file, end) = file_from(lines, pos, header, batches, failed)->Ok_0;
            &&& pos < end <= lines.len()
            &&& file.header == header
            &&& file.trailer == record_of(AchRecordType::Trailer, lines[end - 1])
            &&& tag_of(lines[end - 1]) == '9'
            &&& batches.len() <= file.batches.len()
            &&& forall|i: int| 0 <= i < batches.len() ==> file.batches[i] == batches[i]
            &&& batches_lines(file.batches, file.batches.len() as int) == batches_lines(
                batches,
                batches.len() as int,
            ) + lines.subrange(pos, end - 1)
            &&& batches_all_fit(file.batches)
        }),
    decreases lines.len() - pos,
{
    let (file, end) = file_from(lines, pos, header, batches, failed)->Ok_0;
    lemma_file_round_trip_bounds(lines, pos, header, batches, failed);
    assert(tag_of(lines[pos]) != '1');
    if tag_of(lines[pos]) == '5' {
        lemma_entries_from_bounds(lines, pos + 1);
        let (batch, next) = batch_after(lines, pos + 1, lines[pos], failed)->Ok_0;
        let grown = batches.push(batch);
        assert(file_from(lines, next, header, grown, failed) == file_from(
            lines,
            pos,
            header,
            batches,
            failed,
        ));
        // The batch is one of the batches of the file, so it is consistent
        // and takes lines of full width; the rest follows by induction.
        lemma_file_round_trip_bounds(lines, next, header, grown, failed);
        assert(file.batches[batches.len() as int] == grown[batches.len() as int]);
        assert(batch.indicators_consistent());
        lemma_batch_round_trip(lines, pos, failed);
        assert forall|i: int| 0 <= i < grown.len() implies (#[trigger] grown[i]).all_fit() by {
            if i < batches.len() {
                assert(grown[i] == batches[i]);
            }
        }
        lemma_file_round_trip(lines, next, header, grown, failed);
        lemma_batches_lines_prefix(batches, batch, batches.len() as int);
        assert(batches_lines(grown, grown.len() as int) == batches_lines(
            batches,
            batches.len() as int,
        ) + lines.subrange(pos, next));
        assert(lines.subrange(pos, next) + lines.subrange(next, end - 1) =~= lines.subrange(
            pos,
            end - 1,
        ));
        assert forall|i: int| 0 <= i < batches.len() implies file.batches[i] == batches[i] by {
            assert(grown[i] == batches[i]);
        }
    } else {
        assert(tag_of(lines[pos]) == '9');
        assert(lines.subrange(pos, pos) =~= Seq::<Seq<char>>::empty());
        assert(batches_lines(batches, batches.len() as int) + lines.subrange(pos, end - 1)
            =~= batches_lines(batches, batches.len() as int));
    }
}

/// The batches seen so far are the first batches of the file that is
/// decoded, and the file ends within the lines, after the place where
/// decoding went on.
pub proof fn lemma_file_round_trip_bounds(
    lines: Seq<Seq<char>>,
    pos: int,
    header: Seq<FieldView>,
    batches: Seq<BatchView>,
    failed: bool,
)
    requires
        0 <= pos,
        file_from(lines, pos, header, batches, failed) is Ok,
    ensures
        pos < file_from(lines, pos, header, batches, failed)->Ok_0.1 <= lines.len(),
        batches.len() <= file_from(lines, pos, header, batches, failed)->Ok_0.0.batches.len(),
        forall|i: int|
            0 <= i < batches.len() ==> file_from(
                lines,
                pos,
                header,
                batches,
                failed,
            )->Ok_0.0.batches[i] == batches[i],
    decreases lines.len() - pos,
{
    if tag_of(lines[pos]) == '1' {
        lemma_file_round_trip_bounds(
            lines,
            pos + 1,
            record_of(AchRecordType::Header, lines[pos]),
            batches,
            failed,
        );
    } else if tag_of(lines[pos]) == '5' {
        lemma_entries_from_bounds(lines, pos + 1);
        let (batch, next) = batch_after(lines, pos + 1, lines[pos], failed)->Ok_0;
        lemma_file_round_trip_bounds(lines, next, header, batches.push(batch), failed);
        assert forall|i: int| 0 <= i < batches.len() implies file_from(
            lines,
            pos,
            header,
            batches,
            failed,
        )->Ok_0.0.batches[i] == batches[i] by {
            assert(batches.push(batch)[i] == batches[i]);
        }
    }
}

/// Round trip: the file that well-formed lines hold is encoded to those
/// lines, up to and including the file trailer, and to fillers after them
/// that bring the number of lines to a multiple of ten.
pub proof fn lemma_round_trip(lines: Seq<Seq<char>>)
    requires
        is_well_formed(lines),
    ensures
        ({
            let (file, end) = parsed(lines, false)->Ok_0;
            &&& 0 < end <= lines.len()
            &&& encoded(file) == Ok::<Seq<Seq<char>>, TransformErrorView>(
                lines.subrange(0, end) + fillers(file.padding()),
            )
            &&& (end + file.padding()) % 10 == 0
        }),
{
    let (file, end) = parsed(lines, false)->Ok_0;
    let blank = decoded(Seq::empty(), layout(AchRecordType::Header));
    let header = record_of(AchRecordType::Header, lines[0]);
    let none = Seq::<BatchView>::empty();
    assert(lines.len() > 0);
    assert(file_from(lines, 0, blank, none, false) == file_from(lines, 1, header, none, false));
    lemma_file_round_trip(lines, 1, header, none, false);
    lemma_record_round_trip(AchRecordType::Header, lines[0]);
    lemma_record_round_trip(AchRecordType::Trailer, lines[end - 1]);
    assert(batches_lines(none, 0) =~= Seq::<Seq<char>>::empty());
    assert(file.lines() =~= lines.subrange(0, end));
    assert(file.all_fit());
    lemma_unfit_file(file);
    lemma_lines_len(file);
}

} // verus!
