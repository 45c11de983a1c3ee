//! Conformance: a record conforms if its fields have the widths that the
//! layout of its kind declares.  Whatever the parser yields conforms, and
//! what conforms is encoded to lines of the full width.

use crate::ach_file::{BatchView, EntryView, FileView};
use crate::encoder::{addenda_lines, batches_lines, encoded, entries_lines, fillers};
use crate::field::FieldView;
use crate::layout::{
    concat_rendered, conforms, decoded, layout, offset, record_line, AchRecordType, LINE_WIDTH,
};
use crate::parser::{
    addenda_end, batch_after, entries_from, entry_after, file_from, lemma_addenda_end_bounds,
    lemma_entries_from_bounds, parsed, record_of, tag_of,
};
use crate::round_trip::lemma_layout_fills_line;
use vstd::prelude::*;

verus! {

/// Each of the addenda conforms.
pub open spec fn addenda_conform(addenda: Seq<Seq<FieldView>>) -> bool {
    forall|i: int| 0 <= i < addenda.len() ==> conforms(AchRecordType::Addenda, #[trigger] addenda[i])
}

impl EntryView {
    /// The entry and each of its addenda conform.
    pub open spec fn conforms(self) -> bool {
        conforms(AchRecordType::EntryDetail, self.fields) && addenda_conform(self.addenda)
    }
}

/// Each of the entries conforms.
pub open spec fn entries_conform(entries: Seq<EntryView>) -> bool {
    forall|i: int| 0 <= i < entries.len() ==> (#[trigger] entries[i]).conforms()
}

impl BatchView {
    /// Every record of the batch conforms.
    pub open spec fn conforms(self) -> bool {
        &&& conforms(AchRecordType::CompanyBatchHeader, self.header)
        &&& entries_conform(self.entries)
        &&& conforms(AchRecordType::CompanyBatchTrailer, self.trailer)
    }
}

/// Each of the batches conforms.
pub open spec fn batches_conform(batches: Seq<BatchView>) -> bool {
    forall|i: int| 0 <= i < batches.len() ==> (#[trigger] batches[i]).conforms()
}

impl FileView {
    /// Every record of the file conforms.
    pub open spec fn conforms(self) -> bool {
        &&& conforms(AchRecordType::Header, self.header)
        &&& batches_conform(self.batches)
        &&& conforms(AchRecordType::Trailer, self.trailer)
    }
}

/// Every one of the lines is as wide as a line is.
pub open spec fn all_full(lines: Seq<Seq<char>>) -> bool {
    forall|i: int| 0 <= i < lines.len() ==> (#[trigger] lines[i]).len() == LINE_WIDTH
}

/// The first `n` fields of a record that conforms render to as many
/// characters as the layout gives them.
pub proof fn lemma_concat_len(kind: AchRecordType, fields: Seq<FieldView>, n: int)
    requires
        conforms(kind, fields),
        0 <= n <= fields.len(),
    ensures
        concat_rendered(fields, n).len() == offset(layout(kind), n),
    decreases n,
{
    if n > 0 {
        lemma_concat_len(kind, fields, n - 1);
        fields[n - 1].lemma_rendered_len();
    }
}

/// A record that conforms takes a line of the full width, whatever its
/// fields hold.
pub proof fn lemma_conforming_line(kind: AchRecordType, fields: Seq<FieldView>)
    requires
        conforms(kind, fields),
    ensures
        record_line(kind, fields).len() == LINE_WIDTH,
{
    lemma_concat_len(kind, fields, fields.len() as int);
    lemma_layout_fills_line(kind);
}

/// The lines of an entry that conforms are of the full width.
pub proof fn lemma_entry_lines_full(entry: EntryView)
    requires
        entry.conforms(),
    ensures
        all_full(entry.lines()),
{
    lemma_conforming_line(AchRecordType::EntryDetail, entry.fields);
    assert forall|i: int| 0 <= i < entry.lines().len() implies (#[trigger] entry.lines()[i]).len()
        == LINE_WIDTH by {
        if i > 0 {
            assert(entry.lines()[i] == addenda_lines(entry.addenda)[i - 1]);
            lemma_conforming_line(AchRecordType::Addenda, entry.addenda[i - 1]);
        }
    }
}

/// The lines of entries that conform are of the full width.
pub proof fn lemma_entries_lines_full(entries: Seq<EntryView>, n: int)
    requires
        entries_conform(entries),
        0 <= n <= entries.len(),
    ensures
        all_full(entries_lines(entries, n)),
    decreases n,
{
    if n > 0 {
        lemma_entries_lines_full(entries, n - 1);
        lemma_entry_lines_full(entries[n - 1]);
        let before = entries_lines(entries, n - 1);
        let last = entries[n - 1].lines();
        assert forall|i: int| 0 <= i < (before + last).len() implies (#[trigger] (before
            + last)[i]).len() == LINE_WIDTH by {
            if i < before.len() {
                assert((before + last)[i] == before[i]);
            } else {
                assert((before + last)[i] == last[i - before.len()]);
            }
        }
    }
}

/// The lines of a batch that conforms are of the full width.
pub proof fn lemma_batch_lines_full(batch: BatchView)
    requires
        batch.conforms(),
    ensures
        all_full(batch.lines()),
{
    lemma_conforming_line(AchRecordType::CompanyBatchHeader, batch.header);
    lemma_conforming_line(AchRecordType::CompanyBatchTrailer, batch.trailer);
    lemma_entries_lines_full(batch.entries, batch.entries.len() as int);
    let middle = entries_lines(batch.entries, batch.entries.len() as int);
    assert forall|i: int| 0 <= i < batch.lines().len() implies (#[trigger] batch.lines()[i]).len()
        == LINE_WIDTH by {
        if 0 < i <= middle.len() {
            assert(batch.lines()[i] == middle[i - 1]);
        }
    }
}

/// The lines of batches that conform are of the full width.
pub proof fn lemma_batches_lines_full(batches: Seq<BatchView>, n: int)
    requires
        batches_conform(batches),
        0 <= n <= batches.len(),
    ensures
        all_full(batches_lines(batches, n)),
    decreases n,
{
    if n > 0 {
        lemma_batches_lines_full(batches, n - 1);
        lemma_batch_lines_full(batches[n - 1]);
        let before = batches_lines(batches, n - 1);
        let last = batches[n - 1].lines();
        assert forall|i: int| 0 <= i < (before + last).len() implies (#[trigger] (before
            + last)[i]).len() == LINE_WIDTH by {
            if i < before.len() {
                assert((before + last)[i] == before[i]);
            } else {
                assert((before + last)[i] == last[i - before.len()]);
            }
        }
    }
}

/// The lines of a file that conforms are of the full width.
pub proof fn lemma_file_lines_full(file: FileView)
    requires
        file.conforms(),
    ensures
        all_full(file.lines()),
{
    lemma_conforming_line(AchRecordType::Header, file.header);
    lemma_conforming_line(AchRecordType::Trailer, file.trailer);
    lemma_batches_lines_full(file.batches, file.batches.len() as int);
    let middle = batches_lines(file.batches, file.batches.len() as int);
    assert forall|i: int| 0 <= i < file.lines().len() implies (#[trigger] file.lines()[i]).len()
        == LINE_WIDTH by {
        if 0 < i <= middle.len() {
            assert(file.lines()[i] == middle[i - 1]);
        }
    }
}

/// A file that conforms still conforms when its trailers are brought up to
/// date.
pub proof fn lemma_refreshed_conforms(file: FileView)
    requires
        file.conforms(),
    ensures
        file.refreshed().conforms(),
{
    let fresh = file.refreshed();
    assert forall|i: int| 0 <= i < fresh.batches.len() implies (#[trigger] fresh.batches[i]).conforms() by {
        assert(file.batches[i].conforms());
    }
}

/// Line width: every line that a conforming file is encoded to, fillers
/// included, is as wide as a line is.
pub proof fn lemma_encoded_lines_full(file: FileView)
    requires
        file.conforms(),
        encoded(file) is Ok,
    ensures
        all_full(encoded(file)->Ok_0),
{
    lemma_refreshed_conforms(file);
    lemma_file_lines_full(file.refreshed());
    let body = file.refreshed().lines();
    let tail = fillers(file.padding());
    assert forall|i: int| 0 <= i < (body + tail).len() implies (#[trigger] (body + tail)[i]).len()
        == LINE_WIDTH by {
        if i < body.len() {
            assert((body + tail)[i] == body[i]);
        } else {
            assert((body + tail)[i] == tail[i - body.len()]);
        }
    }
}

/// The entries that are decoded from lines conform.
pub proof fn lemma_parsed_entries_conform(lines: Seq<Seq<char>>, pos: int)
    requires
        0 <= pos <= lines.len(),
    ensures
        entries_conform(entries_from(lines, pos).0),
    decreases lines.len() - pos,
{
    let entries = entries_from(lines, pos).0;
    if pos < lines.len() && tag_of(lines[pos]) == '6' {
        let end = addenda_end(lines, pos + 1);
        let first = entry_after(lines, pos + 1, lines[pos]);
        let more = entries_from(lines, end).0;
        lemma_addenda_end_bounds(lines, pos + 1);
        lemma_parsed_entries_conform(lines, end);
        assert(first.conforms());
        assert forall|i: int| 0 <= i < entries.len() implies (#[trigger] entries[i]).conforms() by {
            if i > 0 {
                assert(entries[i] == more[i - 1]);
            }
        }
    }
}

/// The file that is decoded from lines conforms, if the header and the
/// batches that decoding started with do.
pub proof fn lemma_parsed_file_conforms(
    lines: Seq<Seq<char>>,
    pos: int,
    header: Seq<FieldView>,
    batches: Seq<BatchView>,
    failed: bool,
)
    requires
        0 <= pos,
        conforms(AchRecordType::Header, header),
        batches_conform(batches),
        file_from(lines, pos, header, batches, failed) is Ok,
    ensures
        file_from(lines, pos, header, batches, failed)->Ok_0.0.conforms(),
    decreases lines.len() - pos,
{
    if tag_of(lines[pos]) == '1' {
        lemma_parsed_file_conforms(
            lines,
            pos + 1,
            record_of(AchRecordType::Header, lines[pos]),
            batches,
            failed,
        );
    } else if tag_of(lines[pos]) == '5' {
        lemma_entries_from_bounds(lines, pos + 1);
        lemma_parsed_entries_conform(lines, pos + 1);
        let (batch, next) = batch_after(lines, pos + 1, lines[pos], failed)->Ok_0;
        let grown = batches.push(batch);
        assert forall|i: int| 0 <= i < grown.len() implies (#[trigger] grown[i]).conforms() by {
            if i < batches.len() {
                assert(grown[i] == batches[i]);
            }
        }
        lemma_parsed_file_conforms(lines, next, header, grown, failed);
    }
}

/// Whatever file the parser yields conforms: every field of every record
/// has the width that the layout of its record declares.
pub proof fn lemma_parsed_conforms(lines: Seq<Seq<char>>, failed: bool)
    requires
        parsed(lines, failed) is Ok,
    ensures
        parsed(lines, failed)->Ok_0.0.conforms(),
{
    lemma_parsed_file_conforms(
        lines,
        0,
        decoded(Seq::empty(), layout(AchRecordType::Header)),
        Seq::empty(),
        failed,
    );
}

} // verus!
