//! The record hierarchy of an ACH file: a file owns a header, batches and a
//! trailer; a batch owns a header, entries and a trailer; an entry owns its
//! addenda.  Each record is a row of named fixed-width fields.

use crate::error::{overflows_with, TransformError};
use crate::field::{Field, FieldView};
use crate::layout::{
    decoded, def_views, field_views, layout, overflow, overflow_of, read_fields, record_line,
    ref_views, render_record, AchRecordType,
};
use crate::string_reader::StringReader;
use vstd::prelude::*;
use vstd::std_specs::convert::FromSpecImpl;

verus! {

/// `fields` with the content of the field at `index` replaced by `value`.
pub open spec fn with_content(fields: Seq<FieldView>, index: int, value: Seq<char>) -> Seq<
    FieldView,
> {
    fields.update(index, FieldView { content: value, ..fields[index] })
}

/// What the six kinds of record have in common: a kind, and as many fields
/// as the layout of that kind declares, in its order.
pub trait AchRecord {
    /// The kind of the record.
    spec fn kind(&self) -> AchRecordType;

    /// The values of the record's fields, in layout order.
    spec fn fields(&self) -> Seq<FieldView>;

    /// The kind of the record.
    fn record_type(&self) -> (k: AchRecordType)
        ensures
            k == self.kind(),
    ;

    /// The record's fields, in layout order.
    fn field_refs(&self) -> (v: Vec<&Field>)
        ensures
            ref_views(v@) == self.fields(),
            self.fields().len() == layout(self.kind()).len(),
    ;

    /// Replaces the content of the field at `index` by `value` if `value`
    /// fits that field; fails, changing nothing, if it does not, and reports
    /// the kind of record, the name of the field and the value.  An index
    /// beyond the last field names no field, and nothing changes.
    fn set_at(&mut self, index: usize, value: &str) -> (r: Result<(), TransformError>)
        ensures
            final(self).kind() == old(self).kind(),
            final(self).fields().len() == old(self).fields().len(),
            index < old(self).fields().len() && value@.len() <= old(self).fields()[index as int].width
                ==> r is Ok && final(self).fields() == with_content(
                old(self).fields(),
                index as int,
                value@,
            ),
            index < old(self).fields().len() && value@.len() > old(self).fields()[index as int].width
                ==> overflows_with(r, overflow_of(old(self).kind(), index as int, value@))
                && final(self).fields() == old(self).fields(),
            index >= old(self).fields().len() ==> r is Ok && final(self).fields() == old(
                self,
            ).fields(),
    ;
}

/// The line of a record: its tag, then each field at its width.
pub fn render<R: AchRecord>(record: &R) -> (line: String)
    ensures
        line@ == record_line(record.kind(), record.fields()),
{
    let refs = record.field_refs();
    render_record(record.record_type(), &refs)
}

fn take_last(fields: &mut Vec<Field>) -> (f: Field)
    requires
        old(fields)@.len() > 0,
    ensures
        f == old(fields)@.last(),
        final(fields)@ == old(fields)@.drop_last(),
{
    fields.pop().unwrap()
}

/// The value of an entry: its own fields and those of its addenda.
pub ghost struct EntryView {
    pub fields: Seq<FieldView>,
    pub addenda: Seq<Seq<FieldView>>,
}

/// The value of a batch.
pub ghost struct BatchView {
    pub header: Seq<FieldView>,
    pub entries: Seq<EntryView>,
    pub trailer: Seq<FieldView>,
}

/// The value of a file.
pub ghost struct FileView {
    pub header: Seq<FieldView>,
    pub batches: Seq<BatchView>,
    pub trailer: Seq<FieldView>,
}

/// The values of a sequence of addenda.
pub open spec fn addenda_views(addenda: Seq<Addenda>) -> Seq<Seq<FieldView>> {
    Seq::new(addenda.len(), |i: int| addenda[i]@)
}

/// The values of a sequence of entries.
pub open spec fn entry_views(entries: Seq<EntryDetail>) -> Seq<EntryView> {
    Seq::new(entries.len(), |i: int| entries[i]@)
}

/// The values of a sequence of batches.
pub open spec fn batch_views(batches: Seq<CompanyBatch>) -> Seq<BatchView> {
    Seq::new(batches.len(), |i: int| batches[i]@)
}

/// Where an entry keeps its transaction code.
pub const TRANSACTIONS_CODE: usize = 0;

/// Where an entry keeps the routing number of the receiving institution.
pub const RECEIVING_DFI_ID: usize = 1;

/// Where an entry keeps its amount.
pub const AMOUNT: usize = 4;

/// Where an entry says whether addenda follow it.
pub const ADDENDA_INDICATOR: usize = 8;

/// Where a batch header keeps the originating company's identification.
pub const COMPANY_ID: usize = 3;

impl EntryView {
    /// The entry says that addenda follow it.
    pub open spec fn indicator_set(self) -> bool {
        self.fields[ADDENDA_INDICATOR as int].content == seq!['1']
    }

    /// The entry says that addenda follow it exactly if it owns some.
    pub open spec fn indicator_consistent(self) -> bool {
        self.indicator_set() <==> self.addenda.len() > 0
    }

    /// The number of lines that the entry and its addenda take.
    pub open spec fn line_count(self) -> nat {
        1 + self.addenda.len()
    }
}

/// The number of lines that the first `n` entries take.
pub open spec fn entries_line_count(entries: Seq<EntryView>, n: int) -> nat
    decreases n,
{
    if n <= 0 {
        0
    } else {
        entries_line_count(entries, n - 1) + entries[n - 1].line_count()
    }
}

impl BatchView {
    /// The number of lines that the batch takes, header and trailer included.
    pub open spec fn line_count(self) -> nat {
        2 + entries_line_count(self.entries, self.entries.len() as int)
    }
}

/// The number of lines that the first `n` batches take.
pub open spec fn batches_line_count(batches: Seq<BatchView>, n: int) -> nat
    decreases n,
{
    if n <= 0 {
        0
    } else {
        batches_line_count(batches, n - 1) + batches[n - 1].line_count()
    }
}

impl FileView {
    /// The number of lines that the file takes, header and trailer included,
    /// filler lines not counted.
    pub open spec fn line_count(self) -> nat {
        2 + batches_line_count(self.batches, self.batches.len() as int)
    }
}

/// `n` as a machine number: the greatest there is where `n` is beyond it.
pub open spec fn saturated(n: nat) -> usize {
    if n <= usize::MAX {
        n as usize
    } else {
        usize::MAX
    }
}

/// The file header: who sends the file to whom, and when.
#[derive(Debug)]
pub struct Header {
    pub priority_code: Field,
    pub immediate_dest: Field,
    pub immediate_orig: Field,
    pub file_creation_date: Field,
    pub file_creation_time: Field,
    pub file_id_modifier: Field,
    pub record_size: Field,
    pub blocking_factor: Field,
    pub format_code: Field,
    pub immediate_dest_name: Field,
    pub immediate_orig_name: Field,
    pub reference_code: Field,
}

impl View for Header {
    type V = Seq<FieldView>;

    open spec fn view(&self) -> Seq<FieldView> {
        seq![
            self.priority_code@,
            self.immediate_dest@,
            self.immediate_orig@,
            self.file_creation_date@,
            self.file_creation_time@,
            self.file_id_modifier@,
            self.record_size@,
            self.blocking_factor@,
            self.format_code@,
            self.immediate_dest_name@,
            self.immediate_orig_name@,
            self.reference_code@,
        ]
    }
}

impl AchRecord for Header {
    open spec fn kind(&self) -> AchRecordType {
        AchRecordType::Header
    }

    open spec fn fields(&self) -> Seq<FieldView> {
        self@
    }

    fn record_type(&self) -> (k: AchRecordType) {
        AchRecordType::Header
    }

    fn field_refs(&self) -> (v: Vec<&Field>) {
        let mut v: Vec<&Field> = Vec::new();
        v.push(&self.priority_code);
        v.push(&self.immediate_dest);
        v.push(&self.immediate_orig);
        v.push(&self.file_creation_date);
        v.push(&self.file_creation_time);
        v.push(&self.file_id_modifier);
        v.push(&self.record_size);
        v.push(&self.blocking_factor);
        v.push(&self.format_code);
        v.push(&self.immediate_dest_name);
        v.push(&self.immediate_orig_name);
        v.push(&self.reference_code);
        assert(ref_views(v@) =~= self.fields());
        v
    }

    fn set_at(&mut self, index: usize, value: &str) -> (r: Result<(), TransformError>) {
        let done = match index {
            0 => self.priority_code.set_content(value),
            1 => self.immediate_dest.set_content(value),
            2 => self.immediate_orig.set_content(value),
            3 => self.file_creation_date.set_content(value),
            4 => self.file_creation_time.set_content(value),
            5 => self.file_id_modifier.set_content(value),
            6 => self.record_size.set_content(value),
            7 => self.blocking_factor.set_content(value),
            8 => self.format_code.set_content(value),
            9 => self.immediate_dest_name.set_content(value),
            10 => self.immediate_orig_name.set_content(value),
            11 => self.reference_code.set_content(value),
            _ => true,
        };
        proof {
            if index < 12 && done {
                assert(self.fields() =~= with_content(old(self).fields(), index as int, value@));
            } else {
                assert(self.fields() =~= old(self).fields());
            }
        }
        if done {
            Ok(())
        } else {
            Err(overflow(AchRecordType::Header, index, value))
        }
    }
}

impl From<StringReader> for Header {
    /// Decodes the record from what the reader has left of a line, the tag
    /// already taken.
    fn from(reader: StringReader) -> (r: Header)
        ensures
            r.fields() == decoded(reader.remaining(), layout(AchRecordType::Header)),
    {
        let mut reader = reader;
        let defs = AchRecordType::Header.layout();
        let mut fields = read_fields(&mut reader, &defs);
        let ghost all = field_views(fields@);
        assert(fields@.len() == 12) by {
            assert(def_views(defs@).len() == defs@.len());
        }
        assert(forall|i: int| 0 <= i < 12 ==> all[i] == (#[trigger] fields@[i])@);
        let reference_code = take_last(&mut fields);
        let immediate_orig_name = take_last(&mut fields);
        let immediate_dest_name = take_last(&mut fields);
        let format_code = take_last(&mut fields);
        let blocking_factor = take_last(&mut fields);
        let record_size = take_last(&mut fields);
        let file_id_modifier = take_last(&mut fields);
        let file_creation_time = take_last(&mut fields);
        let file_creation_date = take_last(&mut fields);
        let immediate_orig = take_last(&mut fields);
        let immediate_dest = take_last(&mut fields);
        let priority_code = take_last(&mut fields);
        let r = Header {
            priority_code,
            immediate_dest,
            immediate_orig,
            file_creation_date,
            file_creation_time,
            file_id_modifier,
            record_size,
            blocking_factor,
            format_code,
            immediate_dest_name,
            immediate_orig_name,
            reference_code,
        };
        assert(r.fields() =~= all);
        r
    }
}

impl FromSpecImpl<StringReader> for Header {
    open spec fn obeys_from_spec() -> bool {
        false
    }

    open spec fn from_spec(v: StringReader) -> Header {
        arbitrary()
    }
}

impl Default for Header {
    /// The blank record: every field empty, at its declared width.
    fn default() -> (r: Header)
        ensures
            r.fields() == decoded(Seq::empty(), layout(AchRecordType::Header)),
    {
        let reader = StringReader::new(String::new());
        assert(reader.remaining() =~= Seq::<char>::empty());
        Header::from(reader)
    }
}

impl Clone for Header {
    fn clone(&self) -> (r: Header)
        ensures
            r@ == self@,
    {
        let r = Header {
            priority_code: self.priority_code.clone(),
            immediate_dest: self.immediate_dest.clone(),
            immediate_orig: self.immediate_orig.clone(),
            file_creation_date: self.file_creation_date.clone(),
            file_creation_time: self.file_creation_time.clone(),
            file_id_modifier: self.file_id_modifier.clone(),
            record_size: self.record_size.clone(),
            blocking_factor: self.blocking_factor.clone(),
            format_code: self.format_code.clone(),
            immediate_dest_name: self.immediate_dest_name.clone(),
            immediate_orig_name: self.immediate_orig_name.clone(),
            reference_code: self.reference_code.clone(),
        };
        assert(r@ =~= self@);
        r
    }
}

impl Header {
    /// The record as a line.
    pub fn to_string(&self) -> (line: String)
        ensures
            line@ == record_line(AchRecordType::Header, self@),
    {
        render(self)
    }
}

/// The header of a batch: the originating company and its entries' class.
#[derive(Debug)]
pub struct CompanyBatchHeader {
    pub service_class_code: Field,
    pub company_name: Field,
    pub company_discretionary_data: Field,
    pub company_id: Field,
    pub sec: Field,
    pub entry_desc: Field,
    pub company_descriptive_date: Field,
    pub effective_entry_date: Field,
    pub settlement_date: Field,
    pub originator_status_code: Field,
    pub odfi_id: Field,
    pub batch_number: Field,
}

impl View for CompanyBatchHeader {
    type V = Seq<FieldView>;

    open spec fn view(&self) -> Seq<FieldView> {
        seq![
            self.service_class_code@,
            self.company_name@,
            self.company_discretionary_data@,
            self.company_id@,
            self.sec@,
            self.entry_desc@,
            self.company_descriptive_date@,
            self.effective_entry_date@,
            self.settlement_date@,
            self.originator_status_code@,
            self.odfi_id@,
            self.batch_number@,
        ]
    }
}

impl AchRecord for CompanyBatchHeader {
    open spec fn kind(&self) -> AchRecordType {
        AchRecordType::CompanyBatchHeader
    }

    open spec fn fields(&self) -> Seq<FieldView> {
        self@
    }

    fn record_type(&self) -> (k: AchRecordType) {
        AchRecordType::CompanyBatchHeader
    }

    fn field_refs(&self) -> (v: Vec<&Field>) {
        let mut v: Vec<&Field> = Vec::new();
        v.push(&self.service_class_code);
        v.push(&self.company_name);
        v.push(&self.company_discretionary_data);
        v.push(&self.company_id);
        v.push(&self.sec);
        v.push(&self.entry_desc);
        v.push(&self.company_descriptive_date);
        v.push(&self.effective_entry_date);
        v.push(&self.settlement_date);
        v.push(&self.originator_status_code);
        v.push(&self.odfi_id);
        v.push(&self.batch_number);
        assert(ref_views(v@) =~= self.fields());
        v
    }

    fn set_at(&mut self, index: usize, value: &str) -> (r: Result<(), TransformError>) {
        let done = match index {
            0 => self.service_class_code.set_content(value),
            1 => self.company_name.set_content(value),
            2 => self.company_discretionary_data.set_content(value),
            3 => self.company_id.set_content(value),
            4 => self.sec.set_content(value),
            5 => self.entry_desc.set_content(value),
            6 => self.company_descriptive_date.set_content(value),
            7 => self.effective_entry_date.set_content(value),
            8 => self.settlement_date.set_content(value),
            9 => self.originator_status_code.set_content(value),
            10 => self.odfi_id.set_content(value),
            11 => self.batch_number.set_content(value),
            _ => true,
        };
        proof {
            if index < 12 && done {
                assert(self.fields() =~= with_content(old(self).fields(), index as int, value@));
            } else {
                assert(self.fields() =~= old(self).fields());
            }
        }
        if done {
            Ok(())
        } else {
            Err(overflow(AchRecordType::CompanyBatchHeader, index, value))
        }
    }
}

impl From<StringReader> for CompanyBatchHeader {
    /// Decodes the record from what the reader has left of a line, the tag
    /// already taken.
    fn from(reader: StringReader) -> (r: CompanyBatchHeader)
        ensures
            r.fields() == decoded(reader.remaining(), layout(AchRecordType::CompanyBatchHeader)),
    {
        let mut reader = reader;
        let defs = AchRecordType::CompanyBatchHeader.layout();
        let mut fields = read_fields(&mut reader, &defs);
        let ghost all = field_views(fields@);
        assert(fields@.len() == 12) by {
            assert(def_views(defs@).len() == defs@.len());
        }
        assert(forall|i: int| 0 <= i < 12 ==> all[i] == (#[trigger] fields@[i])@);
        let batch_number = take_last(&mut fields);
        let odfi_id = take_last(&mut fields);
        let originator_status_code = take_last(&mut fields);
        let settlement_date = take_last(&mut fields);
        let effective_entry_date = take_last(&mut fields);
        let company_descriptive_date = take_last(&mut fields);
        let entry_desc = take_last(&mut fields);
        let sec = take_last(&mut fields);
        let company_id = take_last(&mut fields);
        let company_discretionary_data = take_last(&mut fields);
        let company_name = take_last(&mut fields);
        let service_class_code = take_last(&mut fields);
        let r = CompanyBatchHeader {
            service_class_code,
            company_name,
            company_discretionary_data,
            company_id,
            sec,
            entry_desc,
            company_descriptive_date,
            effective_entry_date,
            settlement_date,
            originator_status_code,
            odfi_id,
            batch_number,
        };
        assert(r.fields() =~= all);
        r
    }
}

impl FromSpecImpl<StringReader> for CompanyBatchHeader {
    open spec fn obeys_from_spec() -> bool {
        false
    }

    open spec fn from_spec(v: StringReader) -> CompanyBatchHeader {
        arbitrary()
    }
}

impl Default for CompanyBatchHeader {
    /// The blank record: every field empty, at its declared width.
    fn default() -> (r: CompanyBatchHeader)
        ensures
            r.fields() == decoded(Seq::empty(), layout(AchRecordType::CompanyBatchHeader)),
    {
        let reader = StringReader::new(String::new());
        assert(reader.remaining() =~= Seq::<char>::empty());
        CompanyBatchHeader::from(reader)
    }
}

impl Clone for CompanyBatchHeader {
    fn clone(&self) -> (r: CompanyBatchHeader)
        ensures
            r@ == self@,
    {
        let r = CompanyBatchHeader {
            service_class_code: self.service_class_code.clone(),
            company_name: self.company_name.clone(),
            company_discretionary_data: self.company_discretionary_data.clone(),
            company_id: self.company_id.clone(),
            sec: self.sec.clone(),
            entry_desc: self.entry_desc.clone(),
            company_descriptive_date: self.company_descriptive_date.clone(),
            effective_entry_date: self.effective_entry_date.clone(),
            settlement_date: self.settlement_date.clone(),
            originator_status_code: self.originator_status_code.clone(),
            odfi_id: self.odfi_id.clone(),
            batch_number: self.batch_number.clone(),
        };
        assert(r@ =~= self@);
        r
    }
}

impl CompanyBatchHeader {
    /// The record as a line.
    pub fn to_string(&self) -> (line: String)
        ensures
            line@ == record_line(AchRecordType::CompanyBatchHeader, self@),
    {
        render(self)
    }
}

/// One payment instruction, with the addenda that follow it.
#[derive(Debug)]
pub struct EntryDetail {
    pub transactions_code: Field,
    pub receiving_dfi_id: Field,
    pub check_digit: Field,
    pub dfi_account: Field,
    pub amount: Field,
    pub individual_id: Field,
    pub individual_name: Field,
    pub discretionary_data: Field,
    pub addenda_indicator: Field,
    pub trace: Field,
    pub addenda: Vec<Addenda>,
}

impl View for EntryDetail {
    type V = EntryView;

    open spec fn view(&self) -> EntryView {
        EntryView { fields: self.fields(), addenda: addenda_views(self.addenda@) }
    }
}

impl AchRecord for EntryDetail {
    open spec fn kind(&self) -> AchRecordType {
        AchRecordType::EntryDetail
    }

    open spec fn fields(&self) -> Seq<FieldView> {
        seq![
            self.transactions_code@,
            self.receiving_dfi_id@,
            self.check_digit@,
            self.dfi_account@,
            self.amount@,
            self.individual_id@,
            self.individual_name@,
            self.discretionary_data@,
            self.addenda_indicator@,
            self.trace@,
        ]
    }

    fn record_type(&self) -> (k: AchRecordType) {
        AchRecordType::EntryDetail
    }

    fn field_refs(&self) -> (v: Vec<&Field>) {
        let mut v: Vec<&Field> = Vec::new();
        v.push(&self.transactions_code);
        v.push(&self.receiving_dfi_id);
        v.push(&self.check_digit);
        v.push(&self.dfi_account);
        v.push(&self.amount);
        v.push(&self.individual_id);
        v.push(&self.individual_name);
        v.push(&self.discretionary_data);
        v.push(&self.addenda_indicator);
        v.push(&self.trace);
        assert(ref_views(v@) =~= self.fields());
        v
    }

    fn set_at(&mut self, index: usize, value: &str) -> (r: Result<(), TransformError>) {
        let done = match index {
            0 => self.transactions_code.set_content(value),
            1 => self.receiving_dfi_id.set_content(value),
            2 => self.check_digit.set_content(value),
            3 => self.dfi_account.set_content(value),
            4 => self.amount.set_content(value),
            5 => self.individual_id.set_content(value),
            6 => self.individual_name.set_content(value),
            7 => self.discretionary_data.set_content(value),
            8 => self.addenda_indicator.set_content(value),
            9 => self.trace.set_content(value),
            _ => true,
        };
        proof {
            if index < 10 && done {
                assert(self.fields() =~= with_content(old(self).fields(), index as int, value@));
            } else {
                assert(self.fields() =~= old(self).fields());
            }
        }
        if done {
            Ok(())
        } else {
            Err(overflow(AchRecordType::EntryDetail, index, value))
        }
    }
}

impl From<StringReader> for EntryDetail {
    /// Decodes the record from what the reader has left of a line, the tag
    /// already taken.
    fn from(reader: StringReader) -> (r: EntryDetail)
        ensures
            r.fields() == decoded(reader.remaining(), layout(AchRecordType::EntryDetail)),
            r.addenda@.len() == 0,
    {
        let mut reader = reader;
        let defs = AchRecordType::EntryDetail.layout();
        let mut fields = read_fields(&mut reader, &defs);
        let ghost all = field_views(fields@);
        assert(fields@.len() == 10) by {
            assert(def_views(defs@).len() == defs@.len());
        }
        assert(forall|i: int| 0 <= i < 10 ==> all[i] == (#[trigger] fields@[i])@);
        let trace = take_last(&mut fields);
        let addenda_indicator = take_last(&mut fields);
        let discretionary_data = take_last(&mut fields);
        let individual_name = take_last(&mut fields);
        let individual_id = take_last(&mut fields);
        let amount = take_last(&mut fields);
        let dfi_account = take_last(&mut fields);
        let check_digit = take_last(&mut fields);
        let receiving_dfi_id = take_last(&mut fields);
        let transactions_code = take_last(&mut fields);
        let r = EntryDetail {
            transactions_code,
            receiving_dfi_id,
            check_digit,
            dfi_account,
            amount,
            individual_id,
            individual_name,
            discretionary_data,
            addenda_indicator,
            trace,
            addenda: Vec::new(),
        };
        assert(r.fields() =~= all);
        r
    }
}

impl FromSpecImpl<StringReader> for EntryDetail {
    open spec fn obeys_from_spec() -> bool {
        false
    }

    open spec fn from_spec(v: StringReader) -> EntryDetail {
        arbitrary()
    }
}

impl Default for EntryDetail {
    /// The blank record: every field empty, at its declared width.
    fn default() -> (r: EntryDetail)
        ensures
            r.fields() == decoded(Seq::empty(), layout(AchRecordType::EntryDetail)),
            r.addenda@.len() == 0,
    {
        let reader = StringReader::new(String::new());
        assert(reader.remaining() =~= Seq::<char>::empty());
        EntryDetail::from(reader)
    }
}

impl Clone for EntryDetail {
    fn clone(&self) -> (r: EntryDetail)
        ensures
            r@ == self@,
    {
        let r = EntryDetail {
            transactions_code: self.transactions_code.clone(),
            receiving_dfi_id: self.receiving_dfi_id.clone(),
            check_digit: self.check_digit.clone(),
            dfi_account: self.dfi_account.clone(),
            amount: self.amount.clone(),
            individual_id: self.individual_id.clone(),
            individual_name: self.individual_name.clone(),
            discretionary_data: self.discretionary_data.clone(),
            addenda_indicator: self.addenda_indicator.clone(),
            trace: self.trace.clone(),
            addenda: clone_addenda(&self.addenda),
        };
        assert(r.fields() =~= self.fields());
        r
    }
}

/// Supplementary information attached to an entry.
#[derive(Debug)]
pub struct Addenda {
    pub addenda_type: Field,
    pub payment_related_info: Field,
    pub addenda_sequence: Field,
    pub batch: Field,
}

impl View for Addenda {
    type V = Seq<FieldView>;

    open spec fn view(&self) -> Seq<FieldView> {
        seq![
            self.addenda_type@,
            self.payment_related_info@,
            self.addenda_sequence@,
            self.batch@,
        ]
    }
}

impl AchRecord for Addenda {
    open spec fn kind(&self) -> AchRecordType {
        AchRecordType::Addenda
    }

    open spec fn fields(&self) -> Seq<FieldView> {
        self@
    }

    fn record_type(&self) -> (k: AchRecordType) {
        AchRecordType::Addenda
    }

    fn field_refs(&self) -> (v: Vec<&Field>) {
        let mut v: Vec<&Field> = Vec::new();
        v.push(&self.addenda_type);
        v.push(&self.payment_related_info);
        v.push(&self.addenda_sequence);
        v.push(&self.batch);
        assert(ref_views(v@) =~= self.fields());
        v
    }

    fn set_at(&mut self, index: usize, value: &str) -> (r: Result<(), TransformError>) {
        let done = match index {
            0 => self.addenda_type.set_content(value),
            1 => self.payment_related_info.set_content(value),
            2 => self.addenda_sequence.set_content(value),
            3 => self.batch.set_content(value),
            _ => true,
        };
        proof {
            if index < 4 && done {
                assert(self.fields() =~= with_content(old(self).fields(), index as int, value@));
            } else {
                assert(self.fields() =~= old(self).fields());
            }
        }
        if done {
            Ok(())
        } else {
            Err(overflow(AchRecordType::Addenda, index, value))
        }
    }
}

impl From<StringReader> for Addenda {
    /// Decodes the record from what the reader has left of a line, the tag
    /// already taken.
    fn from(reader: StringReader) -> (r: Addenda)
        ensures
            r.fields() == decoded(reader.remaining(), layout(AchRecordType::Addenda)),
    {
        let mut reader = reader;
        let defs = AchRecordType::Addenda.layout();
        let mut fields = read_fields(&mut reader, &defs);
        let ghost all = field_views(fields@);
        assert(fields@.len() == 4) by {
            assert(def_views(defs@).len() == defs@.len());
        }
        assert(forall|i: int| 0 <= i < 4 ==> all[i] == (#[trigger] fields@[i])@);
        let batch = take_last(&mut fields);
        let addenda_sequence = take_last(&mut fields);
        let payment_related_info = take_last(&mut fields);
        let addenda_type = take_last(&mut fields);
        let r = Addenda {
            addenda_type,
            payment_related_info,
            addenda_sequence,
            batch,
        };
        assert(r.fields() =~= all);
        r
    }
}

impl FromSpecImpl<StringReader> for Addenda {
    open spec fn obeys_from_spec() -> bool {
        false
    }

    open spec fn from_spec(v: StringReader) -> Addenda {
        arbitrary()
    }
}

impl Default for Addenda {
    /// The blank record: every field empty, at its declared width.
    fn default() -> (r: Addenda)
        ensures
            r.fields() == decoded(Seq::empty(), layout(AchRecordType::Addenda)),
    {
        let reader = StringReader::new(String::new());
        assert(reader.remaining() =~= Seq::<char>::empty());
        Addenda::from(reader)
    }
}

impl Clone for Addenda {
    fn clone(&self) -> (r: Addenda)
        ensures
            r@ == self@,
    {
        let r = Addenda {
            addenda_type: self.addenda_type.clone(),
            payment_related_info: self.payment_related_info.clone(),
            addenda_sequence: self.addenda_sequence.clone(),
            batch: self.batch.clone(),
        };
        assert(r@ =~= self@);
        r
    }
}

impl Addenda {
    /// The record as a line.
    pub fn to_string(&self) -> (line: String)
        ensures
            line@ == record_line(AchRecordType::Addenda, self@),
    {
        render(self)
    }
}

/// The trailer of a batch: the aggregates over its entries.
#[derive(Debug)]
pub struct CompanyBatchTrailer {
    pub service_class_code: Field,
    pub entry_and_addenda_count: Field,
    pub entry_hash: Field,
    pub total_debit_amount: Field,
    pub total_credit_amount: Field,
    pub company_id: Field,
    pub message_auth_code: Field,
    pub reserved: Field,
    pub originating_dfi_id_num: Field,
    pub batch_num: Field,
}

impl View for CompanyBatchTrailer {
    type V = Seq<FieldView>;

    open spec fn view(&self) -> Seq<FieldView> {
        seq![
            self.service_class_code@,
            self.entry_and_addenda_count@,
            self.entry_hash@,
            self.total_debit_amount@,
            self.total_credit_amount@,
            self.company_id@,
            self.message_auth_code@,
            self.reserved@,
            self.originating_dfi_id_num@,
            self.batch_num@,
        ]
    }
}

impl AchRecord for CompanyBatchTrailer {
    open spec fn kind(&self) -> AchRecordType {
        AchRecordType::CompanyBatchTrailer
    }

    open spec fn fields(&self) -> Seq<FieldView> {
        self@
    }

    fn record_type(&self) -> (k: AchRecordType) {
        AchRecordType::CompanyBatchTrailer
    }

    fn field_refs(&self) -> (v: Vec<&Field>) {
        let mut v: Vec<&Field> = Vec::new();
        v.push(&self.service_class_code);
        v.push(&self.entry_and_addenda_count);
        v.push(&self.entry_hash);
        v.push(&self.total_debit_amount);
        v.push(&self.total_credit_amount);
        v.push(&self.company_id);
        v.push(&self.message_auth_code);
        v.push(&self.reserved);
        v.push(&self.originating_dfi_id_num);
        v.push(&self.batch_num);
        assert(ref_views(v@) =~= self.fields());
        v
    }

    fn set_at(&mut self, index: usize, value: &str) -> (r: Result<(), TransformError>) {
        let done = match index {
            0 => self.service_class_code.set_content(value),
            1 => self.entry_and_addenda_count.set_content(value),
            2 => self.entry_hash.set_content(value),
            3 => self.total_debit_amount.set_content(value),
            4 => self.total_credit_amount.set_content(value),
            5 => self.company_id.set_content(value),
            6 => self.message_auth_code.set_content(value),
            7 => self.reserved.set_content(value),
            8 => self.originating_dfi_id_num.set_content(value),
            9 => self.batch_num.set_content(value),
            _ => true,
        };
        proof {
            if index < 10 && done {
                assert(self.fields() =~= with_content(old(self).fields(), index as int, value@));
            } else {
                assert(self.fields() =~= old(self).fields());
            }
        }
        if done {
            Ok(())
        } else {
            Err(overflow(AchRecordType::CompanyBatchTrailer, index, value))
        }
    }
}

impl From<StringReader> for CompanyBatchTrailer {
    /// Decodes the record from what the reader has left of a line, the tag
    /// already taken.
    fn from(reader: StringReader) -> (r: CompanyBatchTrailer)
        ensures
            r.fields() == decoded(reader.remaining(), layout(AchRecordType::CompanyBatchTrailer)),
    {
        let mut reader = reader;
        let defs = AchRecordType::CompanyBatchTrailer.layout();
        let mut fields = read_fields(&mut reader, &defs);
        let ghost all = field_views(fields@);
        assert(fields@.len() == 10) by {
            assert(def_views(defs@).len() == defs@.len());
        }
        assert(forall|i: int| 0 <= i < 10 ==> all[i] == (#[trigger] fields@[i])@);
        let batch_num = take_last(&mut fields);
        let originating_dfi_id_num = take_last(&mut fields);
        let reserved = take_last(&mut fields);
        let message_auth_code = take_last(&mut fields);
        let company_id = take_last(&mut fields);
        let total_credit_amount = take_last(&mut fields);
        let total_debit_amount = take_last(&mut fields);
        let entry_hash = take_last(&mut fields);
        let entry_and_addenda_count = take_last(&mut fields);
        let service_class_code = take_last(&mut fields);
        let r = CompanyBatchTrailer {
            service_class_code,
            entry_and_addenda_count,
            entry_hash,
            total_debit_amount,
            total_credit_amount,
            company_id,
            message_auth_code,
            reserved,
            originating_dfi_id_num,
            batch_num,
        };
        assert(r.fields() =~= all);
        r
    }
}

impl FromSpecImpl<StringReader> for CompanyBatchTrailer {
    open spec fn obeys_from_spec() -> bool {
        false
    }

    open spec fn from_spec(v: StringReader) -> CompanyBatchTrailer {
        arbitrary()
    }
}

impl Default for CompanyBatchTrailer {
    /// The blank record: every field empty, at its declared width.
    fn default() -> (r: CompanyBatchTrailer)
        ensures
            r.fields() == decoded(Seq::empty(), layout(AchRecordType::CompanyBatchTrailer)),
    {
        let reader = StringReader::new(String::new());
        assert(reader.remaining() =~= Seq::<char>::empty());
        CompanyBatchTrailer::from(reader)
    }
}

impl Clone for CompanyBatchTrailer {
    fn clone(&self) -> (r: CompanyBatchTrailer)
        ensures
            r@ == self@,
    {
        let r = CompanyBatchTrailer {
            service_class_code: self.service_class_code.clone(),
            entry_and_addenda_count: self.entry_and_addenda_count.clone(),
            entry_hash: self.entry_hash.clone(),
            total_debit_amount: self.total_debit_amount.clone(),
            total_credit_amount: self.total_credit_amount.clone(),
            company_id: self.company_id.clone(),
            message_auth_code: self.message_auth_code.clone(),
            reserved: self.reserved.clone(),
            originating_dfi_id_num: self.originating_dfi_id_num.clone(),
            batch_num: self.batch_num.clone(),
        };
        assert(r@ =~= self@);
        r
    }
}

impl CompanyBatchTrailer {
    /// The record as a line.
    pub fn to_string(&self) -> (line: String)
        ensures
            line@ == record_line(AchRecordType::CompanyBatchTrailer, self@),
    {
        render(self)
    }
}

/// The file trailer: the aggregates over all batches.
#[derive(Debug)]
pub struct Trailer {
    pub batch_count: Field,
    pub block_count: Field,
    pub entry_and_addenda_count: Field,
    pub entry_hash: Field,
    pub total_debits: Field,
    pub total_credits: Field,
    pub reserved: Field,
}

impl View for Trailer {
    type V = Seq<FieldView>;

    open spec fn view(&self) -> Seq<FieldView> {
        seq![
            self.batch_count@,
            self.block_count@,
            self.entry_and_addenda_count@,
            self.entry_hash@,
            self.total_debits@,
            self.total_credits@,
            self.reserved@,
        ]
    }
}

impl AchRecord for Trailer {
    open spec fn kind(&self) -> AchRecordType {
        AchRecordType::Trailer
    }

    open spec fn fields(&self) -> Seq<FieldView> {
        self@
    }

    fn record_type(&self) -> (k: AchRecordType) {
        AchRecordType::Trailer
    }

    fn field_refs(&self) -> (v: Vec<&Field>) {
        let mut v: Vec<&Field> = Vec::new();
        v.push(&self.batch_count);
        v.push(&self.block_count);
        v.push(&self.entry_and_addenda_count);
        v.push(&self.entry_hash);
        v.push(&self.total_debits);
        v.push(&self.total_credits);
        v.push(&self.reserved);
        assert(ref_views(v@) =~= self.fields());
        v
    }

    fn set_at(&mut self, index: usize, value: &str) -> (r: Result<(), TransformError>) {
        let done = match index {
            0 => self.batch_count.set_content(value),
            1 => self.block_count.set_content(value),
            2 => self.entry_and_addenda_count.set_content(value),
            3 => self.entry_hash.set_content(value),
            4 => self.total_debits.set_content(value),
            5 => self.total_credits.set_content(value),
            6 => self.reserved.set_content(value),
            _ => true,
        };
        proof {
            if index < 7 && done {
                assert(self.fields() =~= with_content(old(self).fields(), index as int, value@));
            } else {
                assert(self.fields() =~= old(self).fields());
            }
        }
        if done {
            Ok(())
        } else {
            Err(overflow(AchRecordType::Trailer, index, value))
        }
    }
}

impl From<StringReader> for Trailer {
    /// Decodes the record from what the reader has left of a line, the tag
    /// already taken.
    fn from(reader: StringReader) -> (r: Trailer)
        ensures
            r.fields() == decoded(reader.remaining(), layout(AchRecordType::Trailer)),
    {
        let mut reader = reader;
        let defs = AchRecordType::Trailer.layout();
        let mut fields = read_fields(&mut reader, &defs);
        let ghost all = field_views(fields@);
        assert(fields@.len() == 7) by {
            assert(def_views(defs@).len() == defs@.len());
        }
        assert(forall|i: int| 0 <= i < 7 ==> all[i] == (#[trigger] fields@[i])@);
        let reserved = take_last(&mut fields);
        let total_credits = take_last(&mut fields);
        let total_debits = take_last(&mut fields);
        let entry_hash = take_last(&mut fields);
        let entry_and_addenda_count = take_last(&mut fields);
        let block_count = take_last(&mut fields);
        let batch_count = take_last(&mut fields);
        let r = Trailer {
            batch_count,
            block_count,
            entry_and_addenda_count,
            entry_hash,
            total_debits,
            total_credits,
            reserved,
        };
        assert(r.fields() =~= all);
        r
    }
}

impl FromSpecImpl<StringReader> for Trailer {
    open spec fn obeys_from_spec() -> bool {
        false
    }

    open spec fn from_spec(v: StringReader) -> Trailer {
        arbitrary()
    }
}

impl Default for Trailer {
    /// The blank record: every field empty, at its declared width.
    fn default() -> (r: Trailer)
        ensures
            r.fields() == decoded(Seq::empty(), layout(AchRecordType::Trailer)),
    {
        let reader = StringReader::new(String::new());
        assert(reader.remaining() =~= Seq::<char>::empty());
        Trailer::from(reader)
    }
}

impl Clone for Trailer {
    fn clone(&self) -> (r: Trailer)
        ensures
            r@ == self@,
    {
        let r = Trailer {
            batch_count: self.batch_count.clone(),
            block_count: self.block_count.clone(),
            entry_and_addenda_count: self.entry_and_addenda_count.clone(),
            entry_hash: self.entry_hash.clone(),
            total_debits: self.total_debits.clone(),
            total_credits: self.total_credits.clone(),
            reserved: self.reserved.clone(),
        };
        assert(r@ =~= self@);
        r
    }
}

impl Trailer {
    /// The record as a line.
    pub fn to_string(&self) -> (line: String)
        ensures
            line@ == record_line(AchRecordType::Trailer, self@),
    {
        render(self)
    }
}
fn clone_addenda(addenda: &Vec<Addenda>) -> (r: Vec<Addenda>)
    ensures
        addenda_views(r@) == addenda_views(addenda@),
{
    let mut r: Vec<Addenda> = Vec::new();
    let mut i: usize = 0;
    while i < addenda.len()
        invariant
            i <= addenda.len(),
            r@.len() == i,
            forall|j: int| 0 <= j < i ==> (#[trigger] r@[j])@ == addenda@[j]@,
        decreases addenda.len() - i,
    {
        r.push(addenda[i].clone());
        i += 1;
    }
    assert(addenda_views(r@) =~= addenda_views(addenda@));
    r
}

fn clone_entries(entries: &Vec<EntryDetail>) -> (r: Vec<EntryDetail>)
    ensures
        entry_views(r@) == entry_views(entries@),
{
    let mut r: Vec<EntryDetail> = Vec::new();
    let mut i: usize = 0;
    while i < entries.len()
        invariant
            i <= entries.len(),
            r@.len() == i,
            forall|j: int| 0 <= j < i ==> (#[trigger] r@[j])@ == entries@[j]@,
        decreases entries.len() - i,
    {
        r.push(entries[i].clone());
        i += 1;
    }
    assert(entry_views(r@) =~= entry_views(entries@));
    r
}

fn clone_batches(batches: &Vec<CompanyBatch>) -> (r: Vec<CompanyBatch>)
    ensures
        batch_views(r@) == batch_views(batches@),
{
    let mut r: Vec<CompanyBatch> = Vec::new();
    let mut i: usize = 0;
    while i < batches.len()
        invariant
            i <= batches.len(),
            r@.len() == i,
            forall|j: int| 0 <= j < i ==> (#[trigger] r@[j])@ == batches@[j]@,
        decreases batches.len() - i,
    {
        r.push(batches[i].clone());
        i += 1;
    }
    assert(batch_views(r@) =~= batch_views(batches@));
    r
}

impl EntryDetail {
    /// The number of lines that the entry and its addenda take; the
    /// greatest number there is where the count is beyond it.
    pub fn len(&self) -> (n: usize)
        ensures
            n == saturated(self@.line_count()),
    {
        let mut len: usize = 1;  // the entry itself
        let mut i: usize = 0;
        while i < self.addenda.len()
            invariant
                i <= self.addenda.len(),
                len == saturated((1 + i) as nat),
            decreases self.addenda.len() - i,
        {
            len = len.saturating_add(1);
            i += 1;
        }
        len
    }

    /// Appends an addenda record to the entry.
    pub fn push(&mut self, addenda: Addenda)
        ensures
            final(self)@ == (EntryView {
                addenda: old(self)@.addenda.push(addenda@),
                ..old(self)@
            }),
    {
        self.addenda.push(addenda);
        assert(addenda_views(self.addenda@) =~= addenda_views(old(self).addenda@).push(addenda@));
        assert(self.fields() =~= old(self).fields());
    }

    /// Whether the entry says that addenda follow it.
    pub fn indicator_set(&self) -> (r: bool)
        ensures
            r == self@.indicator_set(),
    {
        proof {
            reveal_strlit("1");
        }
        let r = self.addenda_indicator.content_is("1");
        assert("1"@ =~= seq!['1']);
        r
    }
}

/// A batch: a header, the entries in the order of their arrival, a trailer.
#[derive(Debug)]
pub struct CompanyBatch {
    pub batch_header: CompanyBatchHeader,
    pub batch_records: Vec<EntryDetail>,
    pub batch_trailer: CompanyBatchTrailer,
}

impl View for CompanyBatch {
    type V = BatchView;

    open spec fn view(&self) -> BatchView {
        BatchView {
            header: self.batch_header@,
            entries: entry_views(self.batch_records@),
            trailer: self.batch_trailer@,
        }
    }
}

impl CompanyBatch {
    /// The number of lines that the batch takes, header and trailer
    /// included; the greatest number there is where the count is beyond it.
    pub fn len(&self) -> (n: usize)
        ensures
            n == saturated(self@.line_count()),
    {
        let ghost entries = self@.entries;
        let mut len: usize = 2;  // header and trailer
        let mut i: usize = 0;
        while i < self.batch_records.len()
            invariant
                i <= self.batch_records.len(),
                entries == entry_views(self.batch_records@),
                len == saturated(2 + entries_line_count(entries, i as int)),
            decreases self.batch_records.len() - i,
        {
            len = len.saturating_add(self.batch_records[i].len());
            i += 1;
        }
        len
    }

    /// Appends an entry to the batch.
    pub fn push(&mut self, entry: EntryDetail)
        ensures
            final(self)@ == (BatchView {
                entries: old(self)@.entries.push(entry@),
                ..old(self)@
            }),
    {
        self.batch_records.push(entry);
        assert(entry_views(self.batch_records@) =~= entry_views(old(self).batch_records@).push(
            entry@,
        ));
    }
}

impl Default for CompanyBatch {
    /// A batch without entries, between a blank header and a blank trailer.
    fn default() -> (r: CompanyBatch)
        ensures
            r@.header == decoded(Seq::empty(), layout(AchRecordType::CompanyBatchHeader)),
            r@.entries.len() == 0,
            r@.trailer == decoded(Seq::empty(), layout(AchRecordType::CompanyBatchTrailer)),
    {
        CompanyBatch {
            batch_header: CompanyBatchHeader::default(),
            batch_records: Vec::new(),
            batch_trailer: CompanyBatchTrailer::default(),
        }
    }
}

impl Clone for CompanyBatch {
    fn clone(&self) -> (r: CompanyBatch)
        ensures
            r@ == self@,
    {
        CompanyBatch {
            batch_header: self.batch_header.clone(),
            batch_records: clone_entries(&self.batch_records),
            batch_trailer: self.batch_trailer.clone(),
        }
    }
}

/// A file: a header, the batches in the order of their arrival, a trailer.
#[derive(Debug)]
pub struct AchFile {
    pub header: Header,
    pub records: Vec<CompanyBatch>,
    pub trailer: Trailer,
}

impl View for AchFile {
    type V = FileView;

    open spec fn view(&self) -> FileView {
        FileView {
            header: self.header@,
            batches: batch_views(self.records@),
            trailer: self.trailer@,
        }
    }
}

impl AchFile {
    /// The number of lines that the file takes, header and trailer included,
    /// filler lines not counted; the greatest number there is where the
    /// count is beyond it.
    pub fn len(&self) -> (n: usize)
        ensures
            n == saturated(self@.line_count()),
    {
        let ghost batches = self@.batches;
        let mut len: usize = 2;  // header and trailer
        let mut i: usize = 0;
        while i < self.records.len()
            invariant
                i <= self.records.len(),
                batches == batch_views(self.records@),
                len == saturated(2 + batches_line_count(batches, i as int)),
            decreases self.records.len() - i,
        {
            len = len.saturating_add(self.records[i].len());
            i += 1;
        }
        len
    }

    /// Appends a batch to the file.
    pub fn push(&mut self, batch: CompanyBatch)
        ensures
            final(self)@ == (FileView {
                batches: old(self)@.batches.push(batch@),
                ..old(self)@
            }),
    {
        self.records.push(batch);
        assert(batch_views(self.records@) =~= batch_views(old(self).records@).push(batch@));
    }
}

impl Default for AchFile {
    /// A file without batches, between a blank header and a blank trailer.
    fn default() -> (r: AchFile)
        ensures
            r@.header == decoded(Seq::empty(), layout(AchRecordType::Header)),
            r@.batches.len() == 0,
            r@.trailer == decoded(Seq::empty(), layout(AchRecordType::Trailer)),
    {
        AchFile { header: Header::default(), records: Vec::new(), trailer: Trailer::default() }
    }
}

impl Clone for AchFile {
    fn clone(&self) -> (r: AchFile)
        ensures
            r@ == self@,
    {
        AchFile {
            header: self.header.clone(),
            records: clone_batches(&self.records),
            trailer: self.trailer.clone(),
        }
    }
}

} // verus!
