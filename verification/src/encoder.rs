//! The encoder: renders a file back to fixed-width lines.
//!
//! The lines are the file header; for each batch its header, its entries,
//! each followed by its addenda where its indicator says so, and its
//! trailer; the file trailer; and filler lines, all nines, that bring the
//! number of lines to a whole number of blocks.  The trailers are written
//! with their derived fields computed anew from the records: what the
//! trailers held before is not trusted.

use crate::ach_file::{
    batches_line_count, entries_line_count, render, AchFile, AchRecord, BatchView, CompanyBatch,
    EntryDetail, EntryView, FileView,
};
use crate::aggregate::{lemma_refreshed_keeps_aggregates, BLOCKING_FACTOR};
use crate::error::{reports, OverflowView, TransformError, TransformErrorView};
use crate::field::FieldView;
use crate::layout::{
    all_fit, check_fields, fields_fit, lemma_unfit_in, record_line, unfit_in, AchRecordType,
    LINE_WIDTH,
};
use crate::text::line_views;
use vstd::prelude::*;
use vstd::string::*;

verus! {

/// The lines of a sequence of addenda.
pub open spec fn addenda_lines(addenda: Seq<Seq<FieldView>>) -> Seq<Seq<char>> {
    Seq::new(addenda.len(), |i: int| record_line(AchRecordType::Addenda, addenda[i]))
}

/// Every addenda's fields hold content that fits.
pub open spec fn addenda_fit(addenda: Seq<Seq<FieldView>>) -> bool {
    forall|i: int| 0 <= i < addenda.len() ==> all_fit(#[trigger] addenda[i])
}

/// The report on the first field of the first `n` addenda whose content is
/// wider than the field, if there is one.
pub open spec fn first_unfit_addenda(addenda: Seq<Seq<FieldView>>, n: int) -> Option<OverflowView>
    decreases n,
{
    if n <= 0 {
        None
    } else {
        match first_unfit_addenda(addenda, n - 1) {
            Some(o) => Some(o),
            None => unfit_in(AchRecordType::Addenda, addenda[n - 1]),
        }
    }
}

impl EntryView {
    /// The report on the first field of the entry and of its addenda, in
    /// the order of their lines, whose content is wider than the field.
    pub open spec fn unfit(self) -> Option<OverflowView> {
        match unfit_in(AchRecordType::EntryDetail, self.fields) {
            Some(o) => Some(o),
            None => first_unfit_addenda(self.addenda, self.addenda.len() as int),
        }
    }

    /// The line of the entry, then those of its addenda if the entry says
    /// that addenda follow it.
    pub open spec fn lines(self) -> Seq<Seq<char>> {
        if self.indicator_set() {
            seq![record_line(AchRecordType::EntryDetail, self.fields)] + addenda_lines(
                self.addenda,
            )
        } else {
            seq![record_line(AchRecordType::EntryDetail, self.fields)]
        }
    }

    /// Every field of the entry and of its addenda holds content that fits.
    pub open spec fn all_fit(self) -> bool {
        all_fit(self.fields) && addenda_fit(self.addenda)
    }
}

/// The lines of the first `n` entries, in order.
pub open spec fn entries_lines(entries: Seq<EntryView>, n: int) -> Seq<Seq<char>>
    decreases n,
{
    if n <= 0 {
        Seq::empty()
    } else {
        entries_lines(entries, n - 1) + entries[n - 1].lines()
    }
}

/// The report on the first field of the first `n` entries whose content is
/// wider than the field, if there is one.
pub open spec fn first_unfit_entry(entries: Seq<EntryView>, n: int) -> Option<OverflowView>
    decreases n,
{
    if n <= 0 {
        None
    } else {
        match first_unfit_entry(entries, n - 1) {
            Some(o) => Some(o),
            None => entries[n - 1].unfit(),
        }
    }
}

/// Every field of each of the entries holds content that fits.
pub open spec fn entries_fit(entries: Seq<EntryView>) -> bool {
    forall|i: int| 0 <= i < entries.len() ==> (#[trigger] entries[i]).all_fit()
}

/// Each of the entries says that addenda follow it exactly if it owns some.
pub open spec fn entries_consistent(entries: Seq<EntryView>) -> bool {
    forall|i: int| 0 <= i < entries.len() ==> (#[trigger] entries[i]).indicator_consistent()
}

impl BatchView {
    /// The report on the first field of the records of the batch, in the
    /// order of their lines, whose content is wider than the field.
    pub open spec fn unfit(self) -> Option<OverflowView> {
        match unfit_in(AchRecordType::CompanyBatchHeader, self.header) {
            Some(o) => Some(o),
            None => match first_unfit_entry(self.entries, self.entries.len() as int) {
                Some(o) => Some(o),
                None => unfit_in(AchRecordType::CompanyBatchTrailer, self.trailer),
            },
        }
    }

    /// The lines of the batch, its trailer as it stands.
    pub open spec fn lines(self) -> Seq<Seq<char>> {
        seq![record_line(AchRecordType::CompanyBatchHeader, self.header)] + entries_lines(
            self.entries,
            self.entries.len() as int,
        ) + seq![record_line(AchRecordType::CompanyBatchTrailer, self.trailer)]
    }

    /// Every field of every record of the batch holds content that fits.
    pub open spec fn all_fit(self) -> bool {
        all_fit(self.header) && entries_fit(self.entries) && all_fit(self.trailer)
    }

    /// Every entry of the batch has an indicator that agrees with its addenda.
    pub open spec fn indicators_consistent(self) -> bool {
        entries_consistent(self.entries)
    }
}

/// The lines of the first `n` batches, in order.
pub open spec fn batches_lines(batches: Seq<BatchView>, n: int) -> Seq<Seq<char>>
    decreases n,
{
    if n <= 0 {
        Seq::empty()
    } else {
        batches_lines(batches, n - 1) + batches[n - 1].lines()
    }
}

/// The report on the first field of the first `n` batches whose content is
/// wider than the field, if there is one.
pub open spec fn first_unfit_batch(batches: Seq<BatchView>, n: int) -> Option<OverflowView>
    decreases n,
{
    if n <= 0 {
        None
    } else {
        match first_unfit_batch(batches, n - 1) {
            Some(o) => Some(o),
            None => batches[n - 1].unfit(),
        }
    }
}

/// Every field of each of the batches holds content that fits.
pub open spec fn batches_all_fit(batches: Seq<BatchView>) -> bool {
    forall|i: int| 0 <= i < batches.len() ==> (#[trigger] batches[i]).all_fit()
}

/// Every entry of each of the batches has a consistent indicator.
pub open spec fn batches_consistent(batches: Seq<BatchView>) -> bool {
    forall|i: int| 0 <= i < batches.len() ==> (#[trigger] batches[i]).indicators_consistent()
}

/// A filler line: nines over the whole width of a line.
pub open spec fn filler_line() -> Seq<char> {
    Seq::new(LINE_WIDTH as nat, |i: int| '9')
}

/// `n` filler lines.
pub open spec fn fillers(n: nat) -> Seq<Seq<char>> {
    Seq::new(n, |i: int| filler_line())
}

impl FileView {
    /// The report on the first field of the records of the file, in the
    /// order of their lines, whose content is wider than the field.
    pub open spec fn unfit(self) -> Option<OverflowView> {
        match unfit_in(AchRecordType::Header, self.header) {
            Some(o) => Some(o),
            None => match first_unfit_batch(self.batches, self.batches.len() as int) {
                Some(o) => Some(o),
                None => unfit_in(AchRecordType::Trailer, self.trailer),
            },
        }
    }

    /// The lines of the file, its trailers as they stand, without fillers.
    pub open spec fn lines(self) -> Seq<Seq<char>> {
        seq![record_line(AchRecordType::Header, self.header)] + batches_lines(
            self.batches,
            self.batches.len() as int,
        ) + seq![record_line(AchRecordType::Trailer, self.trailer)]
    }

    /// Every field of every record of the file holds content that fits.
    pub open spec fn all_fit(self) -> bool {
        all_fit(self.header) && batches_all_fit(self.batches) && all_fit(self.trailer)
    }

    /// Every entry of the file has an indicator that agrees with its addenda.
    pub open spec fn indicators_consistent(self) -> bool {
        batches_consistent(self.batches)
    }
}

/// What encoding a file yields.  It fails with `FieldOverflow` where an
/// aggregate does not fit its trailer field or, the trailers brought up to
/// date, the content of some field is wider than the field, and reports the
/// first such field; else with `AddendaIndicatorMismatch` where an entry's
/// indicator disagrees with its addenda.  Else it yields the lines of the
/// file with its trailers brought up to date, and fillers after them.
pub open spec fn encoded(file: FileView) -> Result<Seq<Seq<char>>, TransformErrorView> {
    match file.overflow() {
        Some(o) => Err(TransformErrorView::FieldOverflow(o)),
        None => match file.refreshed().unfit() {
            Some(o) => Err(TransformErrorView::FieldOverflow(o)),
            None => if !file.indicators_consistent() {
                Err(TransformErrorView::AddendaIndicatorMismatch)
            } else {
                Ok(file.refreshed().lines() + fillers(file.padding()))
            },
        },
    }
}

/// A field of addenda once reported stays the first.
pub proof fn lemma_first_unfit_addenda_stays(addenda: Seq<Seq<FieldView>>, n: int, m: int)
    requires
        n <= m,
        first_unfit_addenda(addenda, n) is Some,
    ensures
        first_unfit_addenda(addenda, m) == first_unfit_addenda(addenda, n),
    decreases m - n,
{
    if n < m {
        lemma_first_unfit_addenda_stays(addenda, n, m - 1);
    }
}

/// A field of entries once reported stays the first.
pub proof fn lemma_first_unfit_entry_stays(entries: Seq<EntryView>, n: int, m: int)
    requires
        n <= m,
        first_unfit_entry(entries, n) is Some,
    ensures
        first_unfit_entry(entries, m) == first_unfit_entry(entries, n),
    decreases m - n,
{
    if n < m {
        lemma_first_unfit_entry_stays(entries, n, m - 1);
    }
}

/// A field of batches once reported stays the first.
pub proof fn lemma_first_unfit_batch_stays(batches: Seq<BatchView>, n: int, m: int)
    requires
        n <= m,
        first_unfit_batch(batches, n) is Some,
    ensures
        first_unfit_batch(batches, m) == first_unfit_batch(batches, n),
    decreases m - n,
{
    if n < m {
        lemma_first_unfit_batch_stays(batches, n, m - 1);
    }
}

/// No field of the first `n` addenda is reported exactly if all their
/// contents fit.
pub proof fn lemma_unfit_addenda(addenda: Seq<Seq<FieldView>>, n: int)
    requires
        0 <= n <= addenda.len(),
    ensures
        first_unfit_addenda(addenda, n) is None <==> forall|i: int|
            0 <= i < n ==> all_fit(#[trigger] addenda[i]),
    decreases n,
{
    if n > 0 {
        lemma_unfit_addenda(addenda, n - 1);
        lemma_unfit_in(AchRecordType::Addenda, addenda[n - 1]);
    }
}

/// No field of an entry is reported exactly if all its contents fit.
pub proof fn lemma_unfit_entry(entry: EntryView)
    ensures
        entry.unfit() is None <==> entry.all_fit(),
{
    lemma_unfit_in(AchRecordType::EntryDetail, entry.fields);
    lemma_unfit_addenda(entry.addenda, entry.addenda.len() as int);
}

/// No field of the first `n` entries is reported exactly if all their
/// contents fit.
pub proof fn lemma_unfit_entries(entries: Seq<EntryView>, n: int)
    requires
        0 <= n <= entries.len(),
    ensures
        first_unfit_entry(entries, n) is None <==> forall|i: int|
            0 <= i < n ==> (#[trigger] entries[i]).all_fit(),
    decreases n,
{
    if n > 0 {
        lemma_unfit_entries(entries, n - 1);
        lemma_unfit_entry(entries[n - 1]);
    }
}

/// No field of a batch is reported exactly if all its contents fit.
pub proof fn lemma_unfit_batch(batch: BatchView)
    ensures
        batch.unfit() is None <==> batch.all_fit(),
{
    lemma_unfit_in(AchRecordType::CompanyBatchHeader, batch.header);
    lemma_unfit_entries(batch.entries, batch.entries.len() as int);
    lemma_unfit_in(AchRecordType::CompanyBatchTrailer, batch.trailer);
}

/// No field of the first `n` batches is reported exactly if all their
/// contents fit.
pub proof fn lemma_unfit_batches(batches: Seq<BatchView>, n: int)
    requires
        0 <= n <= batches.len(),
    ensures
        first_unfit_batch(batches, n) is None <==> forall|i: int|
            0 <= i < n ==> (#[trigger] batches[i]).all_fit(),
    decreases n,
{
    if n > 0 {
        lemma_unfit_batches(batches, n - 1);
        lemma_unfit_batch(batches[n - 1]);
    }
}

/// No field of a file is reported exactly if all its contents fit.
pub proof fn lemma_unfit_file(file: FileView)
    ensures
        file.unfit() is None <==> file.all_fit(),
{
    lemma_unfit_in(AchRecordType::Header, file.header);
    lemma_unfit_batches(file.batches, file.batches.len() as int);
    lemma_unfit_in(AchRecordType::Trailer, file.trailer);
}

/// Appends the line of a record to `out`.
fn emit<R: AchRecord>(record: &R, out: &mut Vec<String>)
    ensures
        line_views(final(out)@) == line_views(old(out)@).push(
            record_line(record.kind(), record.fields()),
        ),
{
    let line = render(record);
    out.push(line);
    assert(line_views(out@) =~= line_views(old(out)@).push(
        record_line(record.kind(), record.fields()),
    ));
}

/// Whether every field of a record holds content that fits.
fn record_fits<R: AchRecord>(record: &R) -> (r: bool)
    ensures
        r == all_fit(record.fields()),
{
    let refs = record.field_refs();
    fields_fit(&refs)
}

/// Checks that the content of every field of a record fits; fails with
/// `FieldOverflow` on the first that does not, and reports it.
fn check_record<R: AchRecord>(record: &R) -> (r: Result<(), TransformError>)
    ensures
        reports(r, unfit_in(record.kind(), record.fields())),
{
    let refs = record.field_refs();
    check_fields(record.record_type(), &refs)
}

impl EntryDetail {
    /// Appends the lines of the entry to `out`.
    pub fn emit(&self, out: &mut Vec<String>)
        ensures
            line_views(final(out)@) == line_views(old(out)@) + self@.lines(),
    {
        let ghost start = line_views(out@);
        emit(self, out);
        if self.indicator_set() {
            let mut i: usize = 0;
            while i < self.addenda.len()
                invariant
                    i <= self.addenda.len(),
                    line_views(out@) == start.push(
                        record_line(AchRecordType::EntryDetail, self@.fields),
                    ) + addenda_lines(self@.addenda).take(i as int),
                decreases self.addenda.len() - i,
            {
                emit(&self.addenda[i], out);
                i += 1;
                assert(line_views(out@) =~= start.push(
                    record_line(AchRecordType::EntryDetail, self@.fields),
                ) + addenda_lines(self@.addenda).take(i as int));
            }
            assert(addenda_lines(self@.addenda).take(self.addenda.len() as int) =~= addenda_lines(
                self@.addenda,
            ));
        }
        assert(line_views(out@) =~= start + self@.lines());
    }

    /// The line of the entry, then those of its addenda if the entry says
    /// that addenda follow it.
    pub fn lines(&self) -> (out: Vec<String>)
        ensures
            line_views(out@) == self@.lines(),
    {
        let mut out: Vec<String> = Vec::new();
        self.emit(&mut out);
        assert(line_views(out@) =~= self@.lines());
        out
    }

    /// Whether every field of the entry and of its addenda holds content
    /// that fits.
    pub fn fits(&self) -> (r: bool)
        ensures
            r == self@.all_fit(),
    {
        if !record_fits(self) {
            return false;
        }
        let mut i: usize = 0;
        while i < self.addenda.len()
            invariant
                i <= self.addenda.len(),
                forall|j: int| 0 <= j < i ==> all_fit(#[trigger] self@.addenda[j]),
            decreases self.addenda.len() - i,
        {
            if !record_fits(&self.addenda[i]) {
                assert(!all_fit(self@.addenda[i as int]));
                return false;
            }
            i += 1;
        }
        true
    }

    /// Checks that the content of every field of the entry and of its
    /// addenda fits; fails with `FieldOverflow` on the first that does not,
    /// and reports it.
    pub fn check_widths(&self) -> (r: Result<(), TransformError>)
        ensures
            reports(r, self@.unfit()),
    {
        match check_record(self) {
            Err(e) => {
                return Err(e);
            },
            Ok(()) => {},
        }
        let mut i: usize = 0;
        while i < self.addenda.len()
            invariant
                i <= self.addenda.len(),
                unfit_in(AchRecordType::EntryDetail, self@.fields) is None,
                first_unfit_addenda(self@.addenda, i as int) is None,
            decreases self.addenda.len() - i,
        {
            assert(self@.addenda[i as int] == self.addenda@[i as int]@);
            match check_record(&self.addenda[i]) {
                Err(e) => {
                    proof {
                        lemma_first_unfit_addenda_stays(
                            self@.addenda,
                            i + 1,
                            self@.addenda.len() as int,
                        );
                    }
                    return Err(e);
                },
                Ok(()) => {},
            }
            i += 1;
        }
        Ok(())
    }

    /// Whether the entry says that addenda follow it exactly if it owns some.
    pub fn indicator_consistent(&self) -> (r: bool)
        ensures
            r == self@.indicator_consistent(),
    {
        self.indicator_set() == (self.addenda.len() > 0)
    }
}

impl CompanyBatch {
    /// Appends the lines of the batch, its trailer as it stands, to `out`.
    pub fn emit(&self, out: &mut Vec<String>)
        ensures
            line_views(final(out)@) == line_views(old(out)@) + self@.lines(),
    {
        let ghost start = line_views(out@);
        let ghost head = record_line(AchRecordType::CompanyBatchHeader, self@.header);
        emit(&self.batch_header, out);
        let mut i: usize = 0;
        assert(line_views(out@) =~= start.push(head) + entries_lines(self@.entries, 0));
        while i < self.batch_records.len()
            invariant
                i <= self.batch_records.len(),
                head == record_line(AchRecordType::CompanyBatchHeader, self@.header),
                line_views(out@) == start.push(head) + entries_lines(self@.entries, i as int),
            decreases self.batch_records.len() - i,
        {
            self.batch_records[i].emit(out);
            i += 1;
            assert(line_views(out@) =~= start.push(head) + entries_lines(self@.entries, i as int));
        }
        emit(&self.batch_trailer, out);
        assert(line_views(out@) =~= start + self@.lines());
    }

    /// The lines of the batch, its trailer as it stands.
    pub fn lines(&self) -> (out: Vec<String>)
        ensures
            line_views(out@) == self@.lines(),
    {
        let mut out: Vec<String> = Vec::new();
        self.emit(&mut out);
        assert(line_views(out@) =~= self@.lines());
        out
    }

    /// Whether every field of every record of the batch holds content that
    /// fits.
    pub fn fits(&self) -> (r: bool)
        ensures
            r == self@.all_fit(),
    {
        if !record_fits(&self.batch_header) || !record_fits(&self.batch_trailer) {
            return false;
        }
        let mut i: usize = 0;
        while i < self.batch_records.len()
            invariant
                i <= self.batch_records.len(),
                forall|j: int| 0 <= j < i ==> (#[trigger] self@.entries[j]).all_fit(),
            decreases self.batch_records.len() - i,
        {
            if !self.batch_records[i].fits() {
                assert(!self@.entries[i as int].all_fit());
                return false;
            }
            i += 1;
        }
        true
    }

    /// Checks that the content of every field of every record of the batch
    /// fits; fails with `FieldOverflow` on the first, in the order of the
    /// lines, that does not, and reports it.
    pub fn check_widths(&self) -> (r: Result<(), TransformError>)
        ensures
            reports(r, self@.unfit()),
    {
        match check_record(&self.batch_header) {
            Err(e) => {
                return Err(e);
            },
            Ok(()) => {},
        }
        let mut i: usize = 0;
        while i < self.batch_records.len()
            invariant
                i <= self.batch_records.len(),
                unfit_in(AchRecordType::CompanyBatchHeader, self@.header) is None,
                first_unfit_entry(self@.entries, i as int) is None,
            decreases self.batch_records.len() - i,
        {
            assert(self@.entries[i as int] == self.batch_records@[i as int]@);
            match self.batch_records[i].check_widths() {
                Err(e) => {
                    proof {
                        lemma_first_unfit_entry_stays(
                            self@.entries,
                            i + 1,
                            self@.entries.len() as int,
                        );
                    }
                    return Err(e);
                },
                Ok(()) => {},
            }
            i += 1;
        }
        check_record(&self.batch_trailer)
    }

    /// Whether every entry of the batch has an indicator that agrees with
    /// its addenda.
    pub fn indicators_consistent(&self) -> (r: bool)
        ensures
            r == self@.indicators_consistent(),
    {
        let mut i: usize = 0;
        while i < self.batch_records.len()
            invariant
                i <= self.batch_records.len(),
                forall|j: int| 0 <= j < i ==> (#[trigger] self@.entries[j]).indicator_consistent(),
            decreases self.batch_records.len() - i,
        {
            if !self.batch_records[i].indicator_consistent() {
                assert(!self@.entries[i as int].indicator_consistent());
                return false;
            }
            i += 1;
        }
        true
    }
}

impl AchFile {
    /// The lines of the file, its trailers as they stand, without fillers.
    pub fn lines(&self) -> (out: Vec<String>)
        ensures
            line_views(out@) == self@.lines(),
    {
        let mut out: Vec<String> = Vec::new();
        let ghost head = record_line(AchRecordType::Header, self@.header);
        emit(&self.header, &mut out);
        let mut i: usize = 0;
        assert(line_views(out@) =~= seq![head] + batches_lines(self@.batches, 0));
        while i < self.records.len()
            invariant
                i <= self.records.len(),
                head == record_line(AchRecordType::Header, self@.header),
                line_views(out@) == seq![head] + batches_lines(self@.batches, i as int),
            decreases self.records.len() - i,
        {
            self.records[i].emit(&mut out);
            i += 1;
            assert(line_views(out@) =~= seq![head] + batches_lines(self@.batches, i as int));
        }
        emit(&self.trailer, &mut out);
        assert(line_views(out@) =~= self@.lines());
        out
    }

    /// Whether every field of every record of the file holds content that
    /// fits.
    pub fn fits(&self) -> (r: bool)
        ensures
            r == self@.all_fit(),
    {
        if !record_fits(&self.header) || !record_fits(&self.trailer) {
            return false;
        }
        let mut i: usize = 0;
        while i < self.records.len()
            invariant
                i <= self.records.len(),
                forall|j: int| 0 <= j < i ==> (#[trigger] self@.batches[j]).all_fit(),
            decreases self.records.len() - i,
        {
            if !self.records[i].fits() {
                assert(!self@.batches[i as int].all_fit());
                return false;
            }
            i += 1;
        }
        true
    }

    /// Checks that the content of every field of every record of the file
    /// fits; fails with `FieldOverflow` on the first, in the order of the
    /// lines, that does not, and reports it.
    pub fn check_widths(&self) -> (r: Result<(), TransformError>)
        ensures
            reports(r, self@.unfit()),
    {
        match check_record(&self.header) {
            Err(e) => {
                return Err(e);
            },
            Ok(()) => {},
        }
        let mut i: usize = 0;
        while i < self.records.len()
            invariant
                i <= self.records.len(),
                unfit_in(AchRecordType::Header, self@.header) is None,
                first_unfit_batch(self@.batches, i as int) is None,
            decreases self.records.len() - i,
        {
            assert(self@.batches[i as int] == self.records@[i as int]@);
            match self.records[i].check_widths() {
                Err(e) => {
                    proof {
                        lemma_first_unfit_batch_stays(
                            self@.batches,
                            i + 1,
                            self@.batches.len() as int,
                        );
                    }
                    return Err(e);
                },
                Ok(()) => {},
            }
            i += 1;
        }
        check_record(&self.trailer)
    }

    /// Whether every entry of the file has an indicator that agrees with
    /// its addenda.
    pub fn indicators_consistent(&self) -> (r: bool)
        ensures
            r == self@.indicators_consistent(),
    {
        let mut i: usize = 0;
        while i < self.records.len()
            invariant
                i <= self.records.len(),
                forall|j: int| 0 <= j < i ==> (#[trigger] self@.batches[j]).indicators_consistent(),
            decreases self.records.len() - i,
        {
            if !self.records[i].indicators_consistent() {
                assert(!self@.batches[i as int].indicators_consistent());
                return false;
            }
            i += 1;
        }
        true
    }
}

/// A filler line.
pub fn make_filler() -> (line: String)
    ensures
        line@ == filler_line(),
{
    let mut line = String::new();
    let mut i: usize = 0;
    while i < LINE_WIDTH
        invariant
            i <= LINE_WIDTH,
            line@ == Seq::new(i as nat, |j: int| '9'),
        decreases LINE_WIDTH - i,
    {
        proof {
            reveal_strlit("9");
        }
        line.append("9");
        i += 1;
        assert(line@ =~= Seq::new(i as nat, |j: int| '9'));
    }
    line
}

/// The entries that agree with their indicators take as many lines as they
/// count.
pub proof fn lemma_entries_lines_len(entries: Seq<EntryView>, n: int)
    requires
        n <= entries.len(),
        entries_consistent(entries),
    ensures
        entries_lines(entries, n).len() == entries_line_count(entries, n),
    decreases n,
{
    if n > 0 {
        lemma_entries_lines_len(entries, n - 1);
        assert(entries[n - 1].indicator_consistent());
    }
}

/// The batches whose entries agree with their indicators take as many lines
/// as they count.
pub proof fn lemma_batches_lines_len(batches: Seq<BatchView>, n: int)
    requires
        n <= batches.len(),
        batches_consistent(batches),
    ensures
        batches_lines(batches, n).len() == batches_line_count(batches, n),
    decreases n,
{
    if n > 0 {
        lemma_batches_lines_len(batches, n - 1);
        assert(batches[n - 1].indicators_consistent());
        lemma_entries_lines_len(batches[n - 1].entries, batches[n - 1].entries.len() as int);
    }
}

/// A file whose entries agree with their indicators takes as many lines as
/// it counts.
pub proof fn lemma_lines_len(file: FileView)
    requires
        file.indicators_consistent(),
    ensures
        file.lines().len() == file.line_count(),
{
    lemma_batches_lines_len(file.batches, file.batches.len() as int);
}

/// Renders a file to its lines, fillers included.
pub fn encode(file: &AchFile) -> (r: Result<Vec<String>, TransformError>)
    ensures
        match r {
            Ok(lines) => encoded(file@) == Ok::<Seq<Seq<char>>, TransformErrorView>(
                line_views(lines@),
            ),
            Err(e) => encoded(file@) == Err::<Seq<Seq<char>>, TransformErrorView>(e@),
        },
{
    let mut fresh = file.clone();
    match fresh.refresh() {
        Ok(()) => {},
        Err(e) => {
            return Err(e);
        },
    }
    match fresh.check_widths() {
        Ok(()) => {},
        Err(e) => {
            return Err(e);
        },
    }
    proof {
        assert(fresh@.batches.len() == file@.batches.len());
        assert forall|i: int| 0 <= i < file@.batches.len() implies (#[trigger] fresh@.batches[i]).entries
            == file@.batches[i].entries by {}
        assert(fresh@.indicators_consistent() == file@.indicators_consistent()) by {
            if file@.indicators_consistent() {
                assert forall|i: int| 0 <= i < fresh@.batches.len() implies (#[trigger] fresh@.batches[i]).indicators_consistent() by {
                    assert(file@.batches[i].indicators_consistent());
                }
            }
            if fresh@.indicators_consistent() {
                assert forall|i: int| 0 <= i < file@.batches.len() implies (#[trigger] file@.batches[i]).indicators_consistent() by {
                    assert(fresh@.batches[i].indicators_consistent());
                }
            }
        }
    }
    if !fresh.indicators_consistent() {
        return Err(TransformError::AddendaIndicatorMismatch);
    }
    let mut out = fresh.lines();
    let ghost body = line_views(out@);
    proof {
        lemma_lines_len(fresh@);
        lemma_refreshed_keeps_aggregates(file@);
        assert(body.len() == out.len());
    }
    let rest = out.len() % (BLOCKING_FACTOR as usize);
    let target: usize = if rest == 0 {
        0
    } else {
        BLOCKING_FACTOR as usize - rest
    };
    assert(target == file@.padding());
    let filler = make_filler();
    let mut i: usize = 0;
    assert(line_views(out@) =~= body + fillers(0));
    while i < target
        invariant
            i <= target,
            filler@ == filler_line(),
            line_views(out@) == body + fillers(i as nat),
        decreases target - i,
    {
        let ghost before = line_views(out@);
        out.push(filler.clone());
        i += 1;
        proof {
            assert(line_views(out@) =~= before.push(filler_line()));
            assert(fillers(i as nat) =~= fillers((i - 1) as nat).push(filler_line()));
            assert(before.push(filler_line()) =~= body + fillers(i as nat));
        }
    }
    Ok(out)
}

/// The lines as one text, each line ended by a line break.
pub open spec fn text_of(lines: Seq<Seq<char>>, n: int) -> Seq<char>
    decreases n,
{
    if n <= 0 {
        Seq::empty()
    } else {
        text_of(lines, n - 1) + lines[n - 1] + seq!['\n']
    }
}

/// Joins lines to one text, each line ended by a line break.
pub fn join_lines(lines: &Vec<String>) -> (text: String)
    ensures
        text@ == text_of(line_views(lines@), lines@.len() as int),
{
    let mut text = String::new();
    let mut i: usize = 0;
    while i < lines.len()
        invariant
            i <= lines.len(),
            text@ == text_of(line_views(lines@), i as int),
        decreases lines.len() - i,
    {
        proof {
            reveal_strlit("\n");
        }
        text.append(lines[i].as_str());
        text.append("\n");
        i += 1;
        assert(text@ =~= text_of(line_views(lines@), i as int));
    }
    text
}

} // verus!
