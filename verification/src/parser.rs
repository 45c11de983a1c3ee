//! The line parser: decodes a sequence of lines into a file.
//!
//! The first character of a line decides what the line holds, and the
//! parser is in one of three scopes when it reads one.  At file scope `1` is
//! the file header, `5` opens a batch and `9` is the file trailer, which ends
//! the file: what follows it is not looked at.  In a batch `6` opens an entry
//! and `8` is the batch trailer, which closes the batch and leads back to
//! file scope.  After an entry come its addenda, the lines that start with
//! `7`.  A line that belongs to the enclosing scope is put back for that
//! scope to read.
//!
//! Where several file headers stand at file scope the last one counts; a
//! file without any has a blank header.  The lines that end before the file
//! trailer hold no file, and neither do lines in which a batch is
//! interrupted before its trailer.

use crate::ach_file::{
    AchFile, Addenda, BatchView, CompanyBatch, CompanyBatchHeader, CompanyBatchTrailer,
    EntryDetail, EntryView, FileView, Header, Trailer,
};
use crate::error::DecodeError;
use crate::field::FieldView;
use crate::layout::{decoded, layout, AchRecordType};
use crate::string_reader::StringReader;
use crate::text::line_views;
use vstd::prelude::*;
use vstd::string::*;
use vstd::utf8::{decode_utf8, encode_utf8, encode_utf8_decode_utf8, valid_utf8};

verus! {

/// The tag of a line: its first character.  An empty line has the line
/// break itself where its tag should be.
pub open spec fn tag_of(line: Seq<char>) -> char {
    if line.len() > 0 {
        line[0]
    } else {
        '\n'
    }
}

/// What follows the tag in a line.
pub open spec fn body_of(line: Seq<char>) -> Seq<char> {
    if line.len() > 0 {
        line.skip(1)
    } else {
        line
    }
}

/// The record of the given kind that a line holds after its tag.
pub open spec fn record_of(kind: AchRecordType, line: Seq<char>) -> Seq<FieldView> {
    decoded(body_of(line), layout(kind))
}

/// The error of a read beyond the last line.
pub open spec fn end_error(failed: bool) -> DecodeError {
    if failed {
        DecodeError::IoFailure
    } else {
        DecodeError::UnexpectedEof
    }
}

/// Where the run of addenda lines that starts at `pos` ends.
pub open spec fn addenda_end(lines: Seq<Seq<char>>, pos: int) -> int
    decreases lines.len() - pos,
{
    if 0 <= pos < lines.len() && tag_of(lines[pos]) == '7' {
        addenda_end(lines, pos + 1)
    } else {
        pos
    }
}

/// The addenda that the lines from `pos` up to `end` hold.
pub open spec fn addenda_between(lines: Seq<Seq<char>>, pos: int, end: int) -> Seq<
    Seq<FieldView>,
> {
    Seq::new((end - pos) as nat, |i: int| record_of(AchRecordType::Addenda, lines[pos + i]))
}

/// The entry whose own line is `first` and whose addenda start at `pos`.
pub open spec fn entry_after(lines: Seq<Seq<char>>, pos: int, first: Seq<char>) -> EntryView {
    EntryView {
        fields: record_of(AchRecordType::EntryDetail, first),
        addenda: addenda_between(lines, pos, addenda_end(lines, pos)),
    }
}

/// A run of addenda ends at or after its start, and within the lines if it
/// started there.
pub proof fn lemma_addenda_end_bounds(lines: Seq<Seq<char>>, pos: int)
    ensures
        pos <= addenda_end(lines, pos),
        pos <= lines.len() ==> addenda_end(lines, pos) <= lines.len(),
    decreases lines.len() - pos,
{
    if 0 <= pos < lines.len() && tag_of(lines[pos]) == '7' {
        lemma_addenda_end_bounds(lines, pos + 1);
    }
}

/// The entries that start at `pos`, and where the run of them ends.
pub open spec fn entries_from(lines: Seq<Seq<char>>, pos: int) -> (Seq<EntryView>, int)
    decreases lines.len() - pos,
{
    if 0 <= pos < lines.len() && tag_of(lines[pos]) == '6' {
        proof {
            lemma_addenda_end_bounds(lines, pos + 1);
        }
        let end = addenda_end(lines, pos + 1);
        let (more, stop) = entries_from(lines, end);
        (seq![entry_after(lines, pos + 1, lines[pos])] + more, stop)
    } else {
        (Seq::empty(), pos)
    }
}

/// A run of entries ends at or after its start, and within the lines if it
/// started there.
pub proof fn lemma_entries_from_bounds(lines: Seq<Seq<char>>, pos: int)
    ensures
        pos <= entries_from(lines, pos).1,
        pos <= lines.len() ==> entries_from(lines, pos).1 <= lines.len(),
    decreases lines.len() - pos,
{
    if 0 <= pos < lines.len() && tag_of(lines[pos]) == '6' {
        lemma_addenda_end_bounds(lines, pos + 1);
        lemma_entries_from_bounds(lines, addenda_end(lines, pos + 1));
    }
}

/// The batch whose header line is `first` and whose entries start at `pos`,
/// with the place after its trailer; or why there is no such batch: the
/// lines end before its trailer, or a line that is neither an entry nor the
/// trailer interrupts it.
pub open spec fn batch_after(
    lines: Seq<Seq<char>>,
    pos: int,
    first: Seq<char>,
    failed: bool,
) -> Result<(BatchView, int), DecodeError> {
    let (entries, stop) = entries_from(lines, pos);
    if stop < 0 || stop >= lines.len() {
        Err(end_error(failed))
    } else if tag_of(lines[stop]) == '8' {
        Ok(
            (
                BatchView {
                    header: record_of(AchRecordType::CompanyBatchHeader, first),
                    entries,
                    trailer: record_of(AchRecordType::CompanyBatchTrailer, lines[stop]),
                },
                stop + 1,
            ),
        )
    } else {
        Err(DecodeError::MalformedBatch)
    }
}

/// The file that the lines from `pos` on complete, given the header and the
/// batches seen so far, with the place after its trailer.
pub open spec fn file_from(
    lines: Seq<Seq<char>>,
    pos: int,
    header: Seq<FieldView>,
    batches: Seq<BatchView>,
    failed: bool,
) -> Result<(FileView, int), DecodeError>
    decreases lines.len() - pos,
{
    if pos < 0 || pos >= lines.len() {
        Err(end_error(failed))
    } else if tag_of(lines[pos]) == '1' {
        file_from(lines, pos + 1, record_of(AchRecordType::Header, lines[pos]), batches, failed)
    } else if tag_of(lines[pos]) == '5' {
        proof {
            lemma_entries_from_bounds(lines, pos + 1);
        }
        match batch_after(lines, pos + 1, lines[pos], failed) {
            Ok((batch, next)) => file_from(lines, next, header, batches.push(batch), failed),
            Err(e) => Err(e),
        }
    } else if tag_of(lines[pos]) == '9' {
        Ok((FileView { header, batches, trailer: record_of(AchRecordType::Trailer, lines[pos]) }, pos + 1))
    } else {
        Err(DecodeError::UnrecognizedRecordType(tag_of(lines[pos])))
    }
}

/// The file that the lines hold, with the number of lines that it takes; or
/// why they hold none.  `failed` says that the source of the lines broke
/// off after the last of them.
pub open spec fn parsed(lines: Seq<Seq<char>>, failed: bool) -> Result<(FileView, int), DecodeError> {
    file_from(lines, 0, decoded(Seq::empty(), layout(AchRecordType::Header)), Seq::empty(), failed)
}

/// The byte that ends a line.
pub const LINE_FEED: u8 = 10;

/// The byte that may stand before the end of a line.
pub const CARRIAGE_RETURN: u8 = 13;

/// Where the line that starts at `from` ends: before the next line break,
/// or with the bytes.
pub open spec fn line_end(bytes: Seq<u8>, from: int) -> int
    decreases bytes.len() - from,
{
    if 0 <= from < bytes.len() && bytes[from] != LINE_FEED {
        line_end(bytes, from + 1)
    } else {
        from
    }
}

/// A line ends within the bytes, at or after its start.
pub proof fn lemma_line_end_bounds(bytes: Seq<u8>, from: int)
    requires
        0 <= from <= bytes.len(),
    ensures
        from <= line_end(bytes, from) <= bytes.len(),
    decreases bytes.len() - from,
{
    if from < bytes.len() && bytes[from] != LINE_FEED {
        lemma_line_end_bounds(bytes, from + 1);
    }
}

/// A line without the carriage return that may end it.
pub open spec fn without_return(line: Seq<u8>) -> Seq<u8> {
    if line.len() > 0 && line.last() == CARRIAGE_RETURN {
        line.drop_last()
    } else {
        line
    }
}

/// The bytes of the line that starts at `from`, without what ends it.
pub open spec fn line_at(bytes: Seq<u8>, from: int) -> Seq<u8> {
    without_return(bytes.subrange(from, line_end(bytes, from)))
}

/// The lines of text that the bytes from `from` on hold, after those of
/// `acc`, and whether the text breaks off: line breaks end the lines, a
/// carriage return before a line break does not count, and the text breaks
/// off before the first line that is no UTF-8.
pub open spec fn text_lines(bytes: Seq<u8>, from: int, acc: Seq<Seq<char>>) -> (
    Seq<Seq<char>>,
    bool,
)
    decreases bytes.len() - from,
{
    if from < 0 || from >= bytes.len() {
        (acc, false)
    } else if !valid_utf8(line_at(bytes, from)) {
        (acc, true)
    } else if line_end(bytes, from) >= bytes.len() {
        (acc.push(decode_utf8(line_at(bytes, from))), false)
    } else {
        proof {
            lemma_line_end_bounds(bytes, from);
        }
        text_lines(bytes, line_end(bytes, from) + 1, acc.push(decode_utf8(line_at(bytes, from))))
    }
}

/// The string that the bytes encode, by `String::from_utf8` of the standard
/// library; none where the bytes are no UTF-8.  Taken on trust from the
/// documentation of that function: it succeeds exactly on valid UTF-8, and
/// the string that it yields has the given bytes.
#[verifier::external_body]
fn string_from_utf8(bytes: Vec<u8>) -> (r: Option<String>)
    ensures
        r is Some <==> valid_utf8(bytes@),
        r matches Some(s) ==> encode_utf8(s@) == bytes@,
{
    match String::from_utf8(bytes) {
        Ok(s) => Some(s),
        Err(_) => None,
    }
}

/// A source of lines that were read ahead of decoding, with a place in them.
/// The last line read can be put back, so that the next read yields it again.
#[derive(Debug)]
pub struct LineSource {
    pub lines: Vec<String>,
    pub next: usize,
    pub failed: bool,
}

impl LineSource {
    /// A source at the first of `lines`, which are all that there is.
    pub fn new(lines: Vec<String>) -> (r: LineSource)
        ensures
            r.lines@ == lines@,
            r.next == 0,
            !r.failed,
    {
        LineSource { lines, next: 0, failed: false }
    }

    /// A source at the first of `lines`, after the last of which reading
    /// failed.
    pub fn broken(lines: Vec<String>) -> (r: LineSource)
        ensures
            r.lines@ == lines@,
            r.next == 0,
            r.failed,
    {
        LineSource { lines, next: 0, failed: true }
    }

    /// A source at the first of the lines of text that `bytes` hold.  The
    /// source breaks off after the last of them if the bytes are not
    /// `complete`, or before the first line that is no UTF-8.
    pub fn from_bytes(bytes: &[u8], complete: bool) -> (r: LineSource)
        ensures
            r@ == text_lines(bytes@, 0, Seq::empty()).0,
            r.failed == (!complete || text_lines(bytes@, 0, Seq::empty()).1),
            r.next == 0,
    {
        let mut lines: Vec<String> = Vec::new();
        let mut from: usize = 0;
        assert(line_views(lines@) =~= Seq::<Seq<char>>::empty());
        while from < bytes.len()
            invariant
                text_lines(bytes@, 0, Seq::empty()) == text_lines(
                    bytes@,
                    from as int,
                    line_views(lines@),
                ),
            decreases bytes.len() - from,
        {
            let ghost before = line_views(lines@);
            let mut line: Vec<u8> = Vec::new();
            let mut end: usize = from;
            assert(line@ =~= bytes@.subrange(from as int, end as int));
            while end < bytes.len() && bytes[end] != LINE_FEED
                invariant
                    from <= end <= bytes.len(),
                    line@ == bytes@.subrange(from as int, end as int),
                    line_end(bytes@, end as int) == line_end(bytes@, from as int),
                decreases bytes.len() - end,
            {
                line.push(bytes[end]);
                end += 1;
                assert(line@ =~= bytes@.subrange(from as int, end as int));
            }
            if line.len() > 0 && line[line.len() - 1] == CARRIAGE_RETURN {
                line.pop();
            }
            assert(line@ =~= line_at(bytes@, from as int));
            match string_from_utf8(line) {
                None => {
                    return LineSource { lines, next: 0, failed: true };
                },
                Some(text) => {
                    proof {
                        encode_utf8_decode_utf8(text@);
                    }
                    lines.push(text);
                    assert(line_views(lines@) =~= before.push(text@));
                },
            }
            if end >= bytes.len() {
                return LineSource { lines, next: 0, failed: !complete };
            }
            from = end + 1;
        }
        LineSource { lines, next: 0, failed: !complete }
    }

    /// The characters of each line of the source.
    pub open spec fn view(&self) -> Seq<Seq<char>> {
        line_views(self.lines@)
    }

    /// Reads the next line.  Beyond the last line the read fails: with
    /// `IoFailure` if the source broke off there, else with `UnexpectedEof`.
    pub fn read(&mut self) -> (r: Result<String, DecodeError>)
        ensures
            final(self).lines@ == old(self).lines@,
            final(self).failed == old(self).failed,
            match r {
                Ok(line) => old(self).next < old(self)@.len() && line@ == old(self)@[old(
                    self,
                ).next as int] && final(self).next == old(self).next + 1,
                Err(e) => old(self).next >= old(self)@.len() && e == end_error(old(self).failed)
                    && final(self).next == old(self).next,
            },
    {
        if self.next < self.lines.len() {
            let line = self.lines[self.next].clone();
            self.next = self.next + 1;
            Ok(line)
        } else if self.failed {
            Err(DecodeError::IoFailure)
        } else {
            Err(DecodeError::UnexpectedEof)
        }
    }

    /// Puts the last line read back.  Before the first line there is nothing
    /// to put back, and the source stays where it is.
    pub fn unread(&mut self)
        ensures
            final(self).lines@ == old(self).lines@,
            final(self).failed == old(self).failed,
            old(self).next > 0 ==> final(self).next == old(self).next - 1,
            old(self).next == 0 ==> final(self).next == 0,
    {
        if self.next > 0 {
            self.next = self.next - 1;
        }
    }
}

/// The tag of a line.
pub fn line_tag(line: &str) -> (c: char)
    ensures
        c == tag_of(line@),
{
    if line.unicode_len() > 0 {
        line.get_char(0)
    } else {
        '\n'
    }
}

/// A reader over what follows the tag in a line.
fn body_reader(line: String) -> (reader: StringReader)
    ensures
        reader.remaining() == body_of(line@),
{
    let mut reader = StringReader::new(line);
    let _ = reader.read(1);
    assert(reader.remaining() =~= body_of(line@));
    reader
}

impl EntryDetail {
    /// Decodes an entry: its own line, `first`, then from the source the
    /// addenda that follow it.  The first line that is no addenda is put
    /// back.
    pub fn parse(src: &mut LineSource, first: String) -> (entry: EntryDetail)
        ensures
            entry@ == entry_after(old(src)@, old(src).next as int, first@),
            final(src).lines@ == old(src).lines@,
            final(src).failed == old(src).failed,
            final(src).next == addenda_end(old(src)@, old(src).next as int),
    {
        let ghost lines = src@;
        let ghost start = src.next as int;
        let mut entry = EntryDetail::from(body_reader(first));
        proof {
            lemma_addenda_end_bounds(lines, start);
        }
        loop
            invariant
                src.lines@ == old(src).lines@,
                src.failed == old(src).failed,
                lines == old(src)@,
                start == old(src).next,
                start <= src.next,
                addenda_end(lines, src.next as int) == addenda_end(lines, start),
                entry@.fields == record_of(AchRecordType::EntryDetail, first@),
                entry@.addenda == addenda_between(lines, start, src.next as int),
            ensures
                src.lines@ == old(src).lines@,
                src.failed == old(src).failed,
                src.next == addenda_end(lines, start),
                entry@.fields == record_of(AchRecordType::EntryDetail, first@),
                entry@.addenda == addenda_between(lines, start, src.next as int),
            decreases src.lines.len() - src.next,
        {
            match src.read() {
                Ok(line) => {
                    if line_tag(line.as_str()) == '7' {
                        let addenda = Addenda::from(body_reader(line));
                        entry.push(addenda);
                        assert(entry@.addenda =~= addenda_between(lines, start, src.next as int));
                    } else {
                        src.unread();
                        break ;
                    }
                },
                Err(_) => {
                    break ;
                },
            }
        }
        entry
    }
}

impl CompanyBatch {
    /// Decodes a batch: its header line, `first`, then from the source its
    /// entries and its trailer.  A batch that the lines end in, or that
    /// another record interrupts, is no batch; the interrupting line is put
    /// back.
    pub fn parse(src: &mut LineSource, first: String) -> (r: Result<CompanyBatch, DecodeError>)
        ensures
            final(src).lines@ == old(src).lines@,
            final(src).failed == old(src).failed,
            match r {
                Ok(batch) => batch_after(old(src)@, old(src).next as int, first@, old(src).failed)
                    == Ok::<(BatchView, int), DecodeError>((batch@, final(src).next as int)),
                Err(e) => batch_after(old(src)@, old(src).next as int, first@, old(src).failed)
                    == Err::<(BatchView, int), DecodeError>(e),
            },
    {
        let ghost lines = src@;
        let ghost start = src.next as int;
        let batch_header = CompanyBatchHeader::from(body_reader(first));
        let mut batch = CompanyBatch {
            batch_header,
            batch_records: Vec::new(),
            batch_trailer: CompanyBatchTrailer::default(),
        };
        assert(batch@.entries =~= Seq::<EntryView>::empty());
        loop
            invariant
                src.lines@ == old(src).lines@,
                src.failed == old(src).failed,
                lines == old(src)@,
                start == old(src).next,
                start <= src.next,
                batch@.header == record_of(AchRecordType::CompanyBatchHeader, first@),
                entries_from(lines, start) == (
                    batch@.entries + entries_from(lines, src.next as int).0,
                    entries_from(lines, src.next as int).1,
                ),
            decreases src.lines.len() - src.next,
        {
            let ghost before = batch@.entries;
            let ghost at = src.next as int;
            match src.read() {
                Ok(line) => {
                    let t = line_tag(line.as_str());
                    if t == '6' {
                        let entry = EntryDetail::parse(src, line);
                        batch.push(entry);
                        proof {
                            lemma_addenda_end_bounds(lines, at + 1);
                            assert(before + (seq![entry@] + entries_from(lines, src.next as int).0)
                                =~= before.push(entry@) + entries_from(lines, src.next as int).0);
                        }
                    } else if t == '8' {
                        batch.batch_trailer = CompanyBatchTrailer::from(body_reader(line));
                        proof {
                            assert(before + Seq::<EntryView>::empty() =~= before);
                        }
                        return Ok(batch);
                    } else {
                        src.unread();
                        proof {
                            assert(before + Seq::<EntryView>::empty() =~= before);
                        }
                        return Err(DecodeError::MalformedBatch);
                    }
                },
                Err(e) => {
                    proof {
                        assert(before + Seq::<EntryView>::empty() =~= before);
                    }
                    return Err(e);
                },
            }
        }
    }
}

impl AchFile {
    /// Decodes a file from the source, up to and including its trailer.
    pub fn parse(src: &mut LineSource) -> (r: Result<AchFile, DecodeError>)
        ensures
            final(src).lines@ == old(src).lines@,
            final(src).failed == old(src).failed,
            match r {
                Ok(file) => file_from(
                    old(src)@,
                    old(src).next as int,
                    decoded(Seq::empty(), layout(AchRecordType::Header)),
                    Seq::empty(),
                    old(src).failed,
                ) == Ok::<(FileView, int), DecodeError>((file@, final(src).next as int)),
                Err(e) => file_from(
                    old(src)@,
                    old(src).next as int,
                    decoded(Seq::empty(), layout(AchRecordType::Header)),
                    Seq::empty(),
                    old(src).failed,
                ) == Err::<(FileView, int), DecodeError>(e),
            },
    {
        let ghost lines = src@;
        let ghost start = src.next as int;
        let ghost failed = src.failed;
        let ghost blank = decoded(Seq::empty(), layout(AchRecordType::Header));
        let mut file = AchFile::default();
        assert(file@.batches =~= Seq::<BatchView>::empty());
        loop
            invariant
                src.lines@ == old(src).lines@,
                src.failed == old(src).failed,
                lines == old(src)@,
                start == old(src).next,
                failed == old(src).failed,
                blank == decoded(Seq::empty(), layout(AchRecordType::Header)),
                file_from(lines, start, blank, Seq::empty(), failed) == file_from(
                    lines,
                    src.next as int,
                    file@.header,
                    file@.batches,
                    failed,
                ),
            decreases src.lines.len() - src.next,
        {
            let ghost at = src.next as int;
            let line = match src.read() {
                Ok(line) => line,
                Err(e) => {
                    return Err(e);
                },
            };
            let t = line_tag(line.as_str());
            if t == '1' {
                file.header = Header::from(body_reader(line));
            } else if t == '5' {
                match CompanyBatch::parse(src, line) {
                    Ok(batch) => {
                        proof {
                            lemma_entries_from_bounds(lines, at + 1);
                        }
                        file.push(batch);
                    },
                    Err(e) => {
                        return Err(e);
                    },
                }
            } else if t == '9' {
                file.trailer = Trailer::from(body_reader(line));
                return Ok(file);
            } else {
                return Err(DecodeError::UnrecognizedRecordType(t));
            }
        }
    }
}

/// Decodes a file from the bytes of its text, which are all that there is.
/// Text that is no UTF-8 counts as a failure of its source where it begins.
pub fn parse_bytes(bytes: &[u8]) -> (r: Result<AchFile, DecodeError>)
    ensures
        match r {
            Ok(file) => parsed(
                text_lines(bytes@, 0, Seq::empty()).0,
                text_lines(bytes@, 0, Seq::empty()).1,
            ) matches Ok((f, _)) && f == file@,
            Err(e) => parsed(
                text_lines(bytes@, 0, Seq::empty()).0,
                text_lines(bytes@, 0, Seq::empty()).1,
            ) == Err::<(FileView, int), DecodeError>(e),
        },
{
    let mut src = LineSource::from_bytes(bytes, true);
    AchFile::parse(&mut src)
}

/// Decodes a file from `lines`, which are all that there is.
pub fn parse(lines: Vec<String>) -> (r: Result<AchFile, DecodeError>)
    ensures
        match r {
            Ok(file) => parsed(line_views(lines@), false) matches Ok((f, _)) && f == file@,
            Err(e) => parsed(line_views(lines@), false) == Err::<(FileView, int), DecodeError>(e),
        },
{
    let mut src = LineSource::new(lines);
    AchFile::parse(&mut src)
}

} // verus!
