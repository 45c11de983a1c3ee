//! The aggregator: the fields of the trailers that are functions of the
//! records they summarise.
//!
//! A batch trailer holds the number of entries and addenda of its batch, the
//! entry hash, and the totals of the debit and of the credit amounts.  The
//! file trailer holds the same over all batches, and the numbers of batches
//! and of blocks.  The numeric value of a field is the decimal number that
//! its digits spell; characters that are no digits do not count.  The entry
//! hash is the sum of the routing numbers of the receiving institutions, cut
//! to its last ten digits.  A derived value stands in its field as decimal
//! digits, padded with zeros to the width of the field.

use crate::ach_file::{
    batches_line_count, entries_line_count, AchFile, BatchView, CompanyBatch, EntryDetail,
    EntryView, FileView, AMOUNT, RECEIVING_DFI_ID, TRANSACTIONS_CODE,
};
use crate::error::{overflows_with, OverflowView, TransformError};
use crate::field::{Field, FieldView};
use crate::layout::{layout, overflow, overflow_of, AchRecordType};
use vstd::arithmetic::div_mod::{
    lemma_add_mod_noop, lemma_mod_breakdown, lemma_mul_mod_noop_left, lemma_small_mod,
};
use vstd::prelude::*;
use vstd::string::*;

verus! {

/// Entry hashes are cut to the digits below this power of ten.
pub const HASH_MODULUS: u64 = 10_000_000_000;

/// The totals of a trailer must stay below this to fit their twelve digits.
pub const AMOUNT_LIMIT: u64 = 1_000_000_000_000;

/// A batch may count fewer entries and addenda than this: six digits.
pub const BATCH_ENTRY_LIMIT: u64 = 1_000_000;

/// A file may count fewer entries and addenda than this: eight digits.
pub const FILE_ENTRY_LIMIT: u64 = 100_000_000;

/// A file may count fewer batches than this: six digits.
pub const BATCH_COUNT_LIMIT: u64 = 1_000_000;

/// A file may count fewer blocks than this: six digits.
pub const BLOCK_COUNT_LIMIT: u64 = 1_000_000;

/// The number of lines in a block.
pub const BLOCKING_FACTOR: u64 = 10;

/// Where a batch trailer keeps the number of entries and addenda.
pub const BATCH_ENTRY_COUNT: usize = 1;

/// Where a batch trailer keeps the entry hash.
pub const BATCH_ENTRY_HASH: usize = 2;

/// Where a batch trailer keeps the total of the debits.
pub const BATCH_TOTAL_DEBIT: usize = 3;

/// Where a batch trailer keeps the total of the credits.
pub const BATCH_TOTAL_CREDIT: usize = 4;

/// Where the file trailer keeps the number of batches.
pub const FILE_BATCH_COUNT: usize = 0;

/// Where the file trailer keeps the number of blocks.
pub const FILE_BLOCK_COUNT: usize = 1;

/// Where the file trailer keeps the number of entries and addenda.
pub const FILE_ENTRY_COUNT: usize = 2;

/// Where the file trailer keeps the entry hash.
pub const FILE_ENTRY_HASH: usize = 3;

/// Where the file trailer keeps the total of the debits.
pub const FILE_TOTAL_DEBITS: usize = 4;

/// Where the file trailer keeps the total of the credits.
pub const FILE_TOTAL_CREDITS: usize = 5;

/// Whether an entry takes money from the receiver's account or gives to it.
#[derive(Debug, Clone, Copy, PartialEq, Eq, Structural)]
pub enum Polarity {
    Credit,
    Debit,
    Neither,
}

/// `c` is a decimal digit.
pub open spec fn is_digit(c: char) -> bool {
    '0' <= c <= '9'
}

/// The value of the decimal digit `c`.
pub open spec fn digit_value(c: char) -> nat {
    (c as u32 - 48) as nat
}

/// The decimal number that the digits of `s` spell, other characters left out.
pub open spec fn numeric_value(s: Seq<char>) -> nat
    decreases s.len(),
{
    if s.len() == 0 {
        0
    } else if is_digit(s.last()) {
        numeric_value(s.drop_last()) * 10 + digit_value(s.last())
    } else {
        numeric_value(s.drop_last())
    }
}

/// `x`, or `cap` where `x` is not below it.
pub open spec fn capped(x: nat, cap: nat) -> nat {
    if x < cap {
        x
    } else {
        cap
    }
}

/// The polarity of a transaction code, by the table of the codes in use:
/// for checking, savings, ledger and loan accounts (first digit 2 to 5) the
/// codes ending in 1 to 4 are credits; those ending in 6 to 9, and for loan
/// accounts 55 and 56, are debits.  Any other code is neither.
pub open spec fn polarity_of(code: Seq<char>) -> Polarity {
    if code.len() != 2 {
        Polarity::Neither
    } else if '2' <= code[0] <= '5' && '1' <= code[1] <= '4' {
        Polarity::Credit
    } else if '2' <= code[0] <= '4' && '6' <= code[1] <= '9' {
        Polarity::Debit
    } else if code[0] == '5' && (code[1] == '5' || code[1] == '6') {
        Polarity::Debit
    } else {
        Polarity::Neither
    }
}

impl EntryView {
    /// The routing number of the receiving institution, as a number.
    pub open spec fn routing_value(self) -> nat {
        numeric_value(self.fields[RECEIVING_DFI_ID as int].content)
    }

    /// The amount, as a number.
    pub open spec fn amount_value(self) -> nat {
        numeric_value(self.fields[AMOUNT as int].content)
    }

    /// Whether the entry is a credit, a debit or neither.
    pub open spec fn polarity(self) -> Polarity {
        polarity_of(self.fields[TRANSACTIONS_CODE as int].content)
    }

    /// What the entry adds to the total of the debits.
    pub open spec fn debit(self) -> nat {
        if self.polarity() == Polarity::Debit {
            self.amount_value()
        } else {
            0
        }
    }

    /// What the entry adds to the total of the credits.
    pub open spec fn credit(self) -> nat {
        if self.polarity() == Polarity::Credit {
            self.amount_value()
        } else {
            0
        }
    }
}

/// The sum of the routing numbers of the first `n` entries.
pub open spec fn hash_sum(entries: Seq<EntryView>, n: int) -> nat
    decreases n,
{
    if n <= 0 {
        0
    } else {
        hash_sum(entries, n - 1) + entries[n - 1].routing_value()
    }
}

/// The sum of the debit amounts of the first `n` entries.
pub open spec fn debit_sum(entries: Seq<EntryView>, n: int) -> nat
    decreases n,
{
    if n <= 0 {
        0
    } else {
        debit_sum(entries, n - 1) + entries[n - 1].debit()
    }
}

/// The sum of the credit amounts of the first `n` entries.
pub open spec fn credit_sum(entries: Seq<EntryView>, n: int) -> nat
    decreases n,
{
    if n <= 0 {
        0
    } else {
        credit_sum(entries, n - 1) + entries[n - 1].credit()
    }
}

impl BatchView {
    /// The number of the entries of the batch and of all their addenda.
    pub open spec fn entry_and_addenda_count(self) -> nat {
        entries_line_count(self.entries, self.entries.len() as int)
    }

    /// The sum of the routing numbers of the entries of the batch.
    pub open spec fn routing_total(self) -> nat {
        hash_sum(self.entries, self.entries.len() as int)
    }

    /// The entry hash of the batch.
    pub open spec fn entry_hash(self) -> nat {
        self.routing_total() % (HASH_MODULUS as nat)
    }

    /// The total of the debit amounts of the batch.
    pub open spec fn total_debit(self) -> nat {
        debit_sum(self.entries, self.entries.len() as int)
    }

    /// The total of the credit amounts of the batch.
    pub open spec fn total_credit(self) -> nat {
        credit_sum(self.entries, self.entries.len() as int)
    }

    /// The report on the first derived field of the batch trailer that
    /// cannot hold its aggregate, if there is one.
    pub open spec fn overflow(self) -> Option<OverflowView> {
        if self.entry_and_addenda_count() >= BATCH_ENTRY_LIMIT {
            Some(no_room(AchRecordType::CompanyBatchTrailer, BATCH_ENTRY_COUNT as int))
        } else if self.total_debit() >= AMOUNT_LIMIT {
            Some(no_room(AchRecordType::CompanyBatchTrailer, BATCH_TOTAL_DEBIT as int))
        } else if self.total_credit() >= AMOUNT_LIMIT {
            Some(no_room(AchRecordType::CompanyBatchTrailer, BATCH_TOTAL_CREDIT as int))
        } else {
            None
        }
    }

    /// Each aggregate of the batch fits its field of the batch trailer.
    pub open spec fn aggregates_fit(self) -> bool {
        self.overflow() is None
    }
}

/// The report that field `index` of a trailer cannot hold its aggregate.
/// The value of the report is empty: the aggregate is the content of no
/// field.
pub open spec fn no_room(kind: AchRecordType, index: int) -> OverflowView {
    overflow_of(kind, index, Seq::empty())
}

/// The report on the first of the first `n` batches that has an aggregate
/// which does not fit its field, if there is one.
pub open spec fn first_batch_overflow(batches: Seq<BatchView>, n: int) -> Option<OverflowView>
    decreases n,
{
    if n <= 0 {
        None
    } else {
        match first_batch_overflow(batches, n - 1) {
            Some(o) => Some(o),
            None => batches[n - 1].overflow(),
        }
    }
}

/// The number of the entries and addenda of the first `n` batches.
pub open spec fn file_entry_count(batches: Seq<BatchView>, n: int) -> nat
    decreases n,
{
    if n <= 0 {
        0
    } else {
        file_entry_count(batches, n - 1) + batches[n - 1].entry_and_addenda_count()
    }
}

/// The sum of the routing numbers of the entries of the first `n` batches.
pub open spec fn file_routing_total(batches: Seq<BatchView>, n: int) -> nat
    decreases n,
{
    if n <= 0 {
        0
    } else {
        file_routing_total(batches, n - 1) + batches[n - 1].routing_total()
    }
}

/// The total of the debit amounts of the first `n` batches.
pub open spec fn file_debit_sum(batches: Seq<BatchView>, n: int) -> nat
    decreases n,
{
    if n <= 0 {
        0
    } else {
        file_debit_sum(batches, n - 1) + batches[n - 1].total_debit()
    }
}

/// The total of the credit amounts of the first `n` batches.
pub open spec fn file_credit_sum(batches: Seq<BatchView>, n: int) -> nat
    decreases n,
{
    if n <= 0 {
        0
    } else {
        file_credit_sum(batches, n - 1) + batches[n - 1].total_credit()
    }
}

impl FileView {
    /// The number of batches of the file.
    pub open spec fn batch_count(self) -> nat {
        self.batches.len()
    }

    /// The number of blocks that the lines of the file take: the least
    /// number of blocks that holds them all.
    pub open spec fn block_count(self) -> nat {
        (self.line_count() + 9) / 10
    }

    /// The number of the entries and addenda of all batches.
    pub open spec fn entry_and_addenda_count(self) -> nat {
        file_entry_count(self.batches, self.batches.len() as int)
    }

    /// The entry hash of the file: the routing numbers of all entries are
    /// summed first, and the sum is cut then.
    pub open spec fn entry_hash(self) -> nat {
        file_routing_total(self.batches, self.batches.len() as int) % (HASH_MODULUS as nat)
    }

    /// The total of the debit amounts of all batches.
    pub open spec fn total_debits(self) -> nat {
        file_debit_sum(self.batches, self.batches.len() as int)
    }

    /// The total of the credit amounts of all batches.
    pub open spec fn total_credits(self) -> nat {
        file_credit_sum(self.batches, self.batches.len() as int)
    }

    /// The number of filler lines that bring the file to whole blocks.
    pub open spec fn padding(self) -> nat {
        (self.block_count() * 10 - self.line_count()) as nat
    }

    /// The report on the first derived field that cannot hold its
    /// aggregate, if there is one: of the trailer of the first batch that
    /// has one, else of the file trailer.
    pub open spec fn overflow(self) -> Option<OverflowView> {
        match first_batch_overflow(self.batches, self.batches.len() as int) {
            Some(o) => Some(o),
            None => if self.batch_count() >= BATCH_COUNT_LIMIT {
                Some(no_room(AchRecordType::Trailer, FILE_BATCH_COUNT as int))
            } else if self.block_count() >= BLOCK_COUNT_LIMIT {
                Some(no_room(AchRecordType::Trailer, FILE_BLOCK_COUNT as int))
            } else if self.entry_and_addenda_count() >= FILE_ENTRY_LIMIT {
                Some(no_room(AchRecordType::Trailer, FILE_ENTRY_COUNT as int))
            } else if self.total_debits() >= AMOUNT_LIMIT {
                Some(no_room(AchRecordType::Trailer, FILE_TOTAL_DEBITS as int))
            } else if self.total_credits() >= AMOUNT_LIMIT {
                Some(no_room(AchRecordType::Trailer, FILE_TOTAL_CREDITS as int))
            } else {
                None
            },
        }
    }

    /// Each aggregate of the file and of each of its batches fits its field.
    pub open spec fn aggregates_fit(self) -> bool {
        self.overflow() is None
    }
}

/// The first batch once found with an aggregate that does not fit stays the
/// first.
pub proof fn lemma_first_batch_overflow_stays(batches: Seq<BatchView>, n: int, m: int)
    requires
        n <= m,
        first_batch_overflow(batches, n) is Some,
    ensures
        first_batch_overflow(batches, m) == first_batch_overflow(batches, n),
    decreases m - n,
{
    if n < m {
        lemma_first_batch_overflow_stays(batches, n, m - 1);
    }
}

/// No batch is reported exactly if the aggregates of every batch fit.
pub proof fn lemma_first_batch_overflow(batches: Seq<BatchView>, n: int)
    requires
        0 <= n <= batches.len(),
    ensures
        first_batch_overflow(batches, n) is None <==> forall|i: int|
            0 <= i < n ==> (#[trigger] batches[i]).aggregates_fit(),
    decreases n,
{
    if n > 0 {
        lemma_first_batch_overflow(batches, n - 1);
    }
}

/// The aggregates of a batch.
#[derive(Debug, Clone, Copy, PartialEq, Eq, Structural)]
pub struct BatchTotals {
    pub entry_and_addenda_count: u64,
    pub entry_hash: u64,
    pub total_debit_amount: u64,
    pub total_credit_amount: u64,
}

/// The aggregates of a file.
#[derive(Debug, Clone, Copy, PartialEq, Eq, Structural)]
pub struct FileTotals {
    pub batch_count: u64,
    pub block_count: u64,
    pub entry_and_addenda_count: u64,
    pub entry_hash: u64,
    pub total_debits: u64,
    pub total_credits: u64,
}

impl BatchView {
    /// The aggregates of the batch, where they fit.
    pub open spec fn totals(self) -> BatchTotals {
        BatchTotals {
            entry_and_addenda_count: self.entry_and_addenda_count() as u64,
            entry_hash: self.entry_hash() as u64,
            total_debit_amount: self.total_debit() as u64,
            total_credit_amount: self.total_credit() as u64,
        }
    }
}

impl FileView {
    /// The aggregates of the file, where they fit.
    pub open spec fn totals(self) -> FileTotals {
        FileTotals {
            batch_count: self.batch_count() as u64,
            block_count: self.block_count() as u64,
            entry_and_addenda_count: self.entry_and_addenda_count() as u64,
            entry_hash: self.entry_hash() as u64,
            total_debits: self.total_debits() as u64,
            total_credits: self.total_credits() as u64,
        }
    }
}

/// The polarity of a transaction code.
pub fn polarity(code: &str) -> (p: Polarity)
    ensures
        p == polarity_of(code@),
{
    if code.unicode_len() != 2 {
        return Polarity::Neither;
    }
    let a = code.get_char(0);
    let b = code.get_char(1);
    if '2' <= a && a <= '5' && '1' <= b && b <= '4' {
        Polarity::Credit
    } else if '2' <= a && a <= '4' && '6' <= b && b <= '9' {
        Polarity::Debit
    } else if a == '5' && (b == '5' || b == '6') {
        Polarity::Debit
    } else {
        Polarity::Neither
    }
}

/// The numeric value of `s`, cut to what is below `modulus`.
pub(crate) fn numeric_mod(s: &str, modulus: u64) -> (r: u64)
    requires
        0 < modulus <= AMOUNT_LIMIT,
    ensures
        r == numeric_value(s@) % (modulus as nat),
{
    let n = s.unicode_len();
    let mut acc: u64 = 0;
    let mut i: usize = 0;
    proof {
        assert(s@.take(0) =~= Seq::<char>::empty());
        lemma_small_mod(0, modulus as nat);
    }
    while i < n
        invariant
            i <= n,
            n == s@.len(),
            0 < modulus <= AMOUNT_LIMIT,
            acc == numeric_value(s@.take(i as int)) % (modulus as nat),
        decreases n - i,
    {
        let c = s.get_char(i);
        let ghost before = numeric_value(s@.take(i as int));
        proof {
            assert(s@.take(i + 1).drop_last() =~= s@.take(i as int));
            assert(s@.take(i + 1).last() == c);
        }
        if '0' <= c && c <= '9' {
            let d = (c as u32 - 48) as u64;
            proof {
                lemma_mul_mod_noop_left(before as int, 10, modulus as int);
                lemma_add_mod_noop((before * 10) as int, d as int, modulus as int);
                lemma_add_mod_noop(((before % (modulus as nat)) * 10) as int, d as int, modulus as int);
            }
            acc = (acc * 10 + d) % modulus;
        }
        i += 1;
    }
    assert(s@.take(n as int) =~= s@);
    acc
}

/// The numeric value of `s`, or `cap` where the value is not below it.
pub(crate) fn numeric_capped(s: &str, cap: u64) -> (r: u64)
    requires
        cap <= AMOUNT_LIMIT,
    ensures
        r == capped(numeric_value(s@), cap as nat),
{
    let n = s.unicode_len();
    let mut acc: u64 = 0;
    let mut i: usize = 0;
    assert(s@.take(0) =~= Seq::<char>::empty());
    while i < n
        invariant
            i <= n,
            n == s@.len(),
            cap <= AMOUNT_LIMIT,
            acc == capped(numeric_value(s@.take(i as int)), cap as nat),
        decreases n - i,
    {
        let c = s.get_char(i);
        proof {
            assert(s@.take(i + 1).drop_last() =~= s@.take(i as int));
            assert(s@.take(i + 1).last() == c);
        }
        if '0' <= c && c <= '9' {
            let d = (c as u32 - 48) as u64;
            let next = acc * 10 + d;
            acc = if next < cap {
                next
            } else {
                cap
            };
        }
        i += 1;
    }
    assert(s@.take(n as int) =~= s@);
    acc
}

/// The sum of two capped values, capped again.
fn add_capped(a: u64, b: u64, cap: u64) -> (r: u64)
    requires
        a <= cap,
        b <= cap,
        cap <= AMOUNT_LIMIT,
    ensures
        r == capped((a + b) as nat, cap as nat),
{
    let sum = a + b;
    if sum < cap {
        sum
    } else {
        cap
    }
}

/// A length as a capped value.
fn len_capped(len: usize, cap: u64) -> (r: u64)
    ensures
        r == capped(len as nat, cap as nat),
{
    if (len as u64) < cap {
        len as u64
    } else {
        cap
    }
}

/// Running sums over entries: the hash cut to its modulus, the others
/// capped at the limits of the file trailer.
struct Sums {
    count: u64,
    hash: u64,
    debit: u64,
    credit: u64,
}

impl Sums {
    spec fn stands_for(self, count: nat, routing: nat, debit: nat, credit: nat) -> bool {
        &&& self.count == capped(count, FILE_ENTRY_LIMIT as nat)
        &&& self.hash == routing % (HASH_MODULUS as nat)
        &&& self.debit == capped(debit, AMOUNT_LIMIT as nat)
        &&& self.credit == capped(credit, AMOUNT_LIMIT as nat)
    }

    /// The report on the first of these sums that does not fit its field
    /// of a batch trailer.
    spec fn batch_overflow(self) -> Option<OverflowView> {
        if self.count >= BATCH_ENTRY_LIMIT {
            Some(no_room(AchRecordType::CompanyBatchTrailer, BATCH_ENTRY_COUNT as int))
        } else if self.debit >= AMOUNT_LIMIT {
            Some(no_room(AchRecordType::CompanyBatchTrailer, BATCH_TOTAL_DEBIT as int))
        } else if self.credit >= AMOUNT_LIMIT {
            Some(no_room(AchRecordType::CompanyBatchTrailer, BATCH_TOTAL_CREDIT as int))
        } else {
            None
        }
    }

    /// The failure of the first of these sums that does not fit its field
    /// of a batch trailer.
    fn check_batch(&self) -> (r: Result<(), TransformError>)
        ensures
            match self.batch_overflow() {
                Some(o) => overflows_with(r, o),
                None => r is Ok,
            },
    {
        if self.count >= BATCH_ENTRY_LIMIT {
            Err(no_room_in(AchRecordType::CompanyBatchTrailer, BATCH_ENTRY_COUNT))
        } else if self.debit >= AMOUNT_LIMIT {
            Err(no_room_in(AchRecordType::CompanyBatchTrailer, BATCH_TOTAL_DEBIT))
        } else if self.credit >= AMOUNT_LIMIT {
            Err(no_room_in(AchRecordType::CompanyBatchTrailer, BATCH_TOTAL_CREDIT))
        } else {
            Ok(())
        }
    }
}

/// The error that field `index` of a trailer cannot hold its aggregate.
fn no_room_in(kind: AchRecordType, index: usize) -> (e: TransformError)
    requires
        index < layout(kind).len(),
    ensures
        overflows_with(Err::<(), TransformError>(e), no_room(kind, index as int)),
{
    proof {
        reveal_strlit("");
    }
    assert(""@ =~= Seq::<char>::empty());
    overflow(kind, index, "")
}

impl EntryDetail {
    /// What the entry adds to the sums of its batch.
    fn sums(&self) -> (s: Sums)
        ensures
            s.stands_for(
                self@.line_count(),
                self@.routing_value(),
                self@.debit(),
                self@.credit(),
            ),
    {
        let count = add_capped(1, len_capped(self.addenda.len(), FILE_ENTRY_LIMIT), FILE_ENTRY_LIMIT);
        let hash = numeric_mod(self.receiving_dfi_id.content.as_str(), HASH_MODULUS);
        let amount = numeric_capped(self.amount.content.as_str(), AMOUNT_LIMIT);
        let p = polarity(self.transactions_code.content.as_str());
        let debit = if p == Polarity::Debit {
            amount
        } else {
            0
        };
        let credit = if p == Polarity::Credit {
            amount
        } else {
            0
        };
        Sums { count, hash, debit, credit }
    }
}

impl CompanyBatch {
    fn sums(&self) -> (s: Sums)
        ensures
            s.stands_for(
                self@.entry_and_addenda_count(),
                self@.routing_total(),
                self@.total_debit(),
                self@.total_credit(),
            ),
            s.batch_overflow() == self@.overflow(),
    {
        let ghost entries = self@.entries;
        let mut s = Sums { count: 0, hash: 0, debit: 0, credit: 0 };
        let mut i: usize = 0;
        while i < self.batch_records.len()
            invariant
                i <= self.batch_records.len(),
                entries == self@.entries,
                entries.len() == self.batch_records.len(),
                s.stands_for(
                    entries_line_count(entries, i as int),
                    hash_sum(entries, i as int),
                    debit_sum(entries, i as int),
                    credit_sum(entries, i as int),
                ),
            decreases self.batch_records.len() - i,
        {
            let e = self.batch_records[i].sums();
            proof {
                assert(entries[i as int] == self.batch_records@[i as int]@);
                lemma_add_mod_noop(
                    hash_sum(entries, i as int) as int,
                    entries[i as int].routing_value() as int,
                    HASH_MODULUS as int,
                );
            }
            s = Sums {
                count: add_capped(s.count, e.count, FILE_ENTRY_LIMIT),
                hash: (s.hash + e.hash) % HASH_MODULUS,
                debit: add_capped(s.debit, e.debit, AMOUNT_LIMIT),
                credit: add_capped(s.credit, e.credit, AMOUNT_LIMIT),
            };
            i += 1;
        }
        s
    }

    /// The aggregates of the batch.  Where one of them does not fit its
    /// field of the batch trailer this fails with `FieldOverflow`, and
    /// reports the first such field.
    pub fn totals(&self) -> (r: Result<BatchTotals, TransformError>)
        ensures
            match self@.overflow() {
                None => r == Ok::<BatchTotals, TransformError>(self@.totals()),
                Some(o) => overflows_with(r, o),
            },
    {
        let s = self.sums();
        match s.check_batch() {
            Ok(()) => Ok(
                BatchTotals {
                    entry_and_addenda_count: s.count,
                    entry_hash: s.hash,
                    total_debit_amount: s.debit,
                    total_credit_amount: s.credit,
                },
            ),
            Err(e) => Err(e),
        }
    }
}

impl AchFile {
    /// The aggregates of the file.  Where one of them, or an aggregate of
    /// one of the batches, does not fit its field this fails with
    /// `FieldOverflow`, and reports the first such field: of the first batch
    /// trailer that has one, else of the file trailer.
    pub fn totals(&self) -> (r: Result<FileTotals, TransformError>)
        ensures
            match self@.overflow() {
                None => r == Ok::<FileTotals, TransformError>(self@.totals()),
                Some(o) => overflows_with(r, o),
            },
    {
        let ghost batches = self@.batches;
        let mut s = Sums { count: 0, hash: 0, debit: 0, credit: 0 };
        let mut lines: u64 = 2;
        let mut i: usize = 0;
        while i < self.records.len()
            invariant
                i <= self.records.len(),
                batches == self@.batches,
                batches.len() == self.records.len(),
                first_batch_overflow(batches, i as int) is None,
                s.stands_for(
                    file_entry_count(batches, i as int),
                    file_routing_total(batches, i as int),
                    file_debit_sum(batches, i as int),
                    file_credit_sum(batches, i as int),
                ),
                lines == capped(2 + batches_line_count(batches, i as int), FILE_ENTRY_LIMIT as nat),
            decreases self.records.len() - i,
        {
            let b = self.records[i].sums();
            proof {
                assert(batches[i as int] == self.records@[i as int]@);
                lemma_add_mod_noop(
                    file_routing_total(batches, i as int) as int,
                    batches[i as int].routing_total() as int,
                    HASH_MODULUS as int,
                );
            }
            match b.check_batch() {
                Ok(()) => {},
                Err(e) => {
                    proof {
                        lemma_first_batch_overflow_stays(batches, i + 1, batches.len() as int);
                    }
                    return Err(e);
                },
            }
            lines = add_capped(lines, b.count + 2, FILE_ENTRY_LIMIT);
            s = Sums {
                count: add_capped(s.count, b.count, FILE_ENTRY_LIMIT),
                hash: (s.hash + b.hash) % HASH_MODULUS,
                debit: add_capped(s.debit, b.debit, AMOUNT_LIMIT),
                credit: add_capped(s.credit, b.credit, AMOUNT_LIMIT),
            };
            i += 1;
        }
        let batch_count = len_capped(self.records.len(), BATCH_COUNT_LIMIT);
        let block_count = (lines + 9) / BLOCKING_FACTOR;
        if batch_count >= BATCH_COUNT_LIMIT {
            Err(no_room_in(AchRecordType::Trailer, FILE_BATCH_COUNT))
        } else if block_count >= BLOCK_COUNT_LIMIT {
            Err(no_room_in(AchRecordType::Trailer, FILE_BLOCK_COUNT))
        } else if s.count >= FILE_ENTRY_LIMIT {
            Err(no_room_in(AchRecordType::Trailer, FILE_ENTRY_COUNT))
        } else if s.debit >= AMOUNT_LIMIT {
            Err(no_room_in(AchRecordType::Trailer, FILE_TOTAL_DEBITS))
        } else if s.credit >= AMOUNT_LIMIT {
            Err(no_room_in(AchRecordType::Trailer, FILE_TOTAL_CREDITS))
        } else {
            Ok(
                FileTotals {
                    batch_count,
                    block_count,
                    entry_and_addenda_count: s.count,
                    entry_hash: s.hash,
                    total_debits: s.debit,
                    total_credits: s.credit,
                },
            )
        }
    }
}

/// The character of the decimal digit `d`.
pub open spec fn digit_char(d: nat) -> char {
    if d == 0 {
        '0'
    } else if d == 1 {
        '1'
    } else if d == 2 {
        '2'
    } else if d == 3 {
        '3'
    } else if d == 4 {
        '4'
    } else if d == 5 {
        '5'
    } else if d == 6 {
        '6'
    } else if d == 7 {
        '7'
    } else if d == 8 {
        '8'
    } else {
        '9'
    }
}

/// The last `width` decimal digits of `value`, zeros in front where the
/// value has fewer.
pub open spec fn zero_padded(value: nat, width: nat) -> Seq<char>
    decreases width,
{
    if width == 0 {
        Seq::empty()
    } else {
        zero_padded(value / 10, (width - 1) as nat).push(digit_char(value % 10))
    }
}

/// The field that holds a derived value at the given width.
pub open spec fn derived(value: nat, width: nat, left: bool) -> FieldView {
    FieldView { content: zero_padded(value, width), width, left }
}

/// Ten to the power of `n`.
pub open spec fn pow10(n: nat) -> nat
    decreases n,
{
    if n == 0 {
        1
    } else {
        10 * pow10((n - 1) as nat)
    }
}

/// A power of ten is positive.
pub proof fn lemma_pow10_positive(n: nat)
    ensures
        pow10(n) > 0,
    decreases n,
{
    if n > 0 {
        lemma_pow10_positive((n - 1) as nat);
    }
}

/// A string with one more digit at its end spells ten times the number,
/// and the digit.
pub proof fn lemma_numeric_value_push(s: Seq<char>, d: nat)
    requires
        d < 10,
    ensures
        numeric_value(s.push(digit_char(d))) == numeric_value(s) * 10 + d,
{
    let t = s.push(digit_char(d));
    assert(t.drop_last() =~= s);
    assert(t.last() == digit_char(d));
}

/// Reading back: the digits that stand for a value spell the value again,
/// cut to as many digits as there are; and the value itself, if it takes no
/// more digits than that.
pub proof fn lemma_numeric_value_of_zero_padded(value: nat, width: nat)
    ensures
        numeric_value(zero_padded(value, width)) == value % pow10(width),
        value < pow10(width) ==> numeric_value(zero_padded(value, width)) == value,
    decreases width,
{
    lemma_pow10_positive(width);
    if width > 0 {
        let rest = (width - 1) as nat;
        lemma_pow10_positive(rest);
        lemma_numeric_value_of_zero_padded(value / 10, rest);
        lemma_numeric_value_push(zero_padded(value / 10, rest), value % 10);
        lemma_mod_breakdown(value as int, 10, pow10(rest) as int);
    } else {
        assert(value % 1 == 0);
    }
    if value < pow10(width) {
        lemma_small_mod(value, pow10(width));
    }
}

/// Zero-padded digits are as many as the width asks for.
pub proof fn lemma_zero_padded_len(value: nat, width: nat)
    ensures
        zero_padded(value, width).len() == width,
    decreases width,
{
    if width > 0 {
        lemma_zero_padded_len(value / 10, (width - 1) as nat);
    }
}

fn digit_str(d: u64) -> (s: &'static str)
    requires
        d < 10,
    ensures
        s@ == seq![digit_char(d as nat)],
{
    proof {
        reveal_strlit("0");
        reveal_strlit("1");
        reveal_strlit("2");
        reveal_strlit("3");
        reveal_strlit("4");
        reveal_strlit("5");
        reveal_strlit("6");
        reveal_strlit("7");
        reveal_strlit("8");
        reveal_strlit("9");
    }
    let s = if d == 0 {
        "0"
    } else if d == 1 {
        "1"
    } else if d == 2 {
        "2"
    } else if d == 3 {
        "3"
    } else if d == 4 {
        "4"
    } else if d == 5 {
        "5"
    } else if d == 6 {
        "6"
    } else if d == 7 {
        "7"
    } else if d == 8 {
        "8"
    } else {
        "9"
    };
    assert(s@ =~= seq![digit_char(d as nat)]);
    s
}

/// The last `width` decimal digits of `value`, padded with zeros.
pub fn format_number(value: u64, width: usize) -> (s: String)
    ensures
        s@ == zero_padded(value as nat, width as nat),
    decreases width,
{
    if width == 0 {
        String::new()
    } else {
        let mut s = format_number(value / 10, width - 1);
        s.append(digit_str(value % 10));
        assert(s@ =~= zero_padded(value as nat, width as nat));
        s
    }
}

fn derived_field(value: u64, width: usize, left: bool) -> (f: Field)
    ensures
        f@ == derived(value as nat, width as nat, left),
{
    Field { content: format_number(value, width), size: width, left_justified: left }
}

impl BatchView {
    /// The trailer with its derived fields brought up to date.
    pub open spec fn refreshed_trailer(self) -> Seq<FieldView> {
        self.trailer.update(
            BATCH_ENTRY_COUNT as int,
            derived(self.entry_and_addenda_count(), 6, false),
        ).update(BATCH_ENTRY_HASH as int, derived(self.entry_hash(), 10, true)).update(
            BATCH_TOTAL_DEBIT as int,
            derived(self.total_debit(), 12, false),
        ).update(BATCH_TOTAL_CREDIT as int, derived(self.total_credit(), 12, false))
    }

    /// The batch with the derived fields of its trailer brought up to date.
    pub open spec fn refreshed(self) -> BatchView {
        BatchView { trailer: self.refreshed_trailer(), ..self }
    }
}

/// Each of the batches with its trailer brought up to date.
pub open spec fn refreshed_batches(batches: Seq<BatchView>) -> Seq<BatchView> {
    Seq::new(batches.len(), |i: int| batches[i].refreshed())
}

impl FileView {
    /// The file trailer with its derived fields brought up to date.
    pub open spec fn refreshed_trailer(self) -> Seq<FieldView> {
        self.trailer.update(FILE_BATCH_COUNT as int, derived(self.batch_count(), 6, false)).update(
            FILE_BLOCK_COUNT as int,
            derived(self.block_count(), 6, false),
        ).update(
            FILE_ENTRY_COUNT as int,
            derived(self.entry_and_addenda_count(), 8, false),
        ).update(FILE_ENTRY_HASH as int, derived(self.entry_hash(), 10, false)).update(
            FILE_TOTAL_DEBITS as int,
            derived(self.total_debits(), 12, false),
        ).update(FILE_TOTAL_CREDITS as int, derived(self.total_credits(), 12, false))
    }

    /// The file with the derived fields of all its trailers brought up to
    /// date.
    pub open spec fn refreshed(self) -> FileView {
        FileView {
            header: self.header,
            batches: refreshed_batches(self.batches),
            trailer: self.refreshed_trailer(),
        }
    }
}

impl CompanyBatch {
    /// Brings the derived fields of the trailer up to date.  Where an
    /// aggregate does not fit its field this fails with `FieldOverflow`,
    /// reports the first such field, and changes nothing.
    pub fn refresh(&mut self) -> (r: Result<(), TransformError>)
        ensures
            match old(self)@.overflow() {
                None => r is Ok && final(self)@ == old(self)@.refreshed(),
                Some(o) => overflows_with(r, o) && final(self)@ == old(self)@,
            },
    {
        let t = match self.totals() {
            Ok(t) => t,
            Err(e) => {
                return Err(e);
            },
        };
        self.batch_trailer.entry_and_addenda_count = derived_field(
            t.entry_and_addenda_count,
            6,
            false,
        );
        self.batch_trailer.entry_hash = derived_field(t.entry_hash, 10, true);
        self.batch_trailer.total_debit_amount = derived_field(t.total_debit_amount, 12, false);
        self.batch_trailer.total_credit_amount = derived_field(t.total_credit_amount, 12, false);
        assert(self@.trailer =~= old(self)@.refreshed_trailer());
        Ok(())
    }
}

impl AchFile {
    /// Brings the derived fields of the file trailer and of every batch
    /// trailer up to date.  Where an aggregate does not fit its field this
    /// fails with `FieldOverflow`, reports the first such field, and changes
    /// nothing.
    pub fn refresh(&mut self) -> (r: Result<(), TransformError>)
        ensures
            match old(self)@.overflow() {
                None => r is Ok && final(self)@ == old(self)@.refreshed(),
                Some(o) => overflows_with(r, o) && final(self)@ == old(self)@,
            },
    {
        let t = match self.totals() {
            Ok(t) => t,
            Err(e) => {
                return Err(e);
            },
        };
        let ghost before = self@;
        let mut i: usize = 0;
        while i < self.records.len()
            invariant
                i <= self.records.len(),
                before == old(self)@,
                before.aggregates_fit(),
                self.records.len() == before.batches.len(),
                self@.header == before.header,
                self@.trailer == before.trailer,
                forall|j: int| 0 <= j < i ==> (#[trigger] self.records@[j])@ == before.batches[j].refreshed(),
                forall|j: int|
                    i <= j < self.records.len() ==> (#[trigger] self.records@[j])@
                        == before.batches[j],
            decreases self.records.len() - i,
        {
            proof {
                lemma_first_batch_overflow(before.batches, before.batches.len() as int);
                assert(before.batches[i as int].aggregates_fit());
            }
            let _ = self.records[i].refresh();
            i += 1;
        }
        self.trailer.batch_count = derived_field(t.batch_count, 6, false);
        self.trailer.block_count = derived_field(t.block_count, 6, false);
        self.trailer.entry_and_addenda_count = derived_field(t.entry_and_addenda_count, 8, false);
        self.trailer.entry_hash = derived_field(t.entry_hash, 10, false);
        self.trailer.total_debits = derived_field(t.total_debits, 12, false);
        self.trailer.total_credits = derived_field(t.total_credits, 12, false);
        assert(self@.trailer =~= before.refreshed_trailer());
        assert(self@.batches =~= refreshed_batches(before.batches));
        Ok(())
    }
}

/// What is summed over the first `n` batches depends on their entries alone.
pub proof fn lemma_sums_depend_on_entries(a: Seq<BatchView>, b: Seq<BatchView>, n: int)
    requires
        n <= a.len(),
        n <= b.len(),
        forall|i: int| 0 <= i < n ==> (#[trigger] a[i]).entries == b[i].entries,
    ensures
        batches_line_count(a, n) == batches_line_count(b, n),
        file_entry_count(a, n) == file_entry_count(b, n),
        file_routing_total(a, n) == file_routing_total(b, n),
        file_debit_sum(a, n) == file_debit_sum(b, n),
        file_credit_sum(a, n) == file_credit_sum(b, n),
        first_batch_overflow(a, n) == first_batch_overflow(b, n),
    decreases n,
{
    if n > 0 {
        lemma_sums_depend_on_entries(a, b, n - 1);
        assert(a[n - 1].entries == b[n - 1].entries);
    }
}

/// Bringing the trailers up to date changes no aggregate: a file that was
/// brought up to date has the line count and the totals of the file it was.
pub proof fn lemma_refreshed_keeps_aggregates(file: FileView)
    ensures
        file.refreshed().line_count() == file.line_count(),
        file.refreshed().totals() == file.totals(),
        file.refreshed().padding() == file.padding(),
        file.refreshed().overflow() == file.overflow(),
{
    let fresh = file.refreshed();
    lemma_sums_depend_on_entries(fresh.batches, file.batches, file.batches.len() as int);
}

} // verus!
