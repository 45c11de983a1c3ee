//! The record layouts: for each kind of record its tag and, in order, the
//! name, width and justification of its fields.  Decoding and rendering of
//! every kind of record go by these tables.

use crate::error::{reports, Overflow, OverflowView, TransformError, TransformErrorView};
use crate::field::{Field, FieldView};
use crate::string_reader::{window, StringReader};
use crate::text::str_eq;
use vstd::prelude::*;
use vstd::string::*;

verus! {

/// The six kinds of record.
#[derive(Debug, Clone, Copy, PartialEq, Eq, Structural)]
pub enum AchRecordType {
    Header,
    CompanyBatchHeader,
    EntryDetail,
    Addenda,
    CompanyBatchTrailer,
    Trailer,
}

/// The width of every line of a file, tag included.
pub const LINE_WIDTH: usize = 94;

/// What a layout says of one field.
pub ghost struct FieldDefView {
    pub name: Seq<char>,
    pub width: nat,
    pub left: bool,
}

/// A right-justified field of a layout.
pub open spec fn right(name: Seq<char>, width: nat) -> FieldDefView {
    FieldDefView { name, width, left: false }
}

/// A left-justified field of a layout.
pub open spec fn left(name: Seq<char>, width: nat) -> FieldDefView {
    FieldDefView { name, width, left: true }
}

/// One row of a layout table.
#[derive(Debug, Clone, Copy)]
pub struct FieldDef {
    pub name: &'static str,
    pub width: usize,
    pub left: bool,
}

impl View for FieldDef {
    type V = FieldDefView;

    open spec fn view(&self) -> FieldDefView {
        FieldDefView { name: self.name@, width: self.width as nat, left: self.left }
    }
}

/// The rows of a table as the layout they stand for.
pub open spec fn def_views(defs: Seq<FieldDef>) -> Seq<FieldDefView> {
    Seq::new(defs.len(), |i: int| defs[i]@)
}

/// The character that opens a line of the given kind.
pub open spec fn tag(kind: AchRecordType) -> char {
    match kind {
        AchRecordType::Header => '1',
        AchRecordType::CompanyBatchHeader => '5',
        AchRecordType::EntryDetail => '6',
        AchRecordType::Addenda => '7',
        AchRecordType::CompanyBatchTrailer => '8',
        AchRecordType::Trailer => '9',
    }
}

/// The fields that follow the tag in a line of the given kind.
pub open spec fn layout(kind: AchRecordType) -> Seq<FieldDefView> {
    match kind {
        AchRecordType::Header => seq![
            right("priority_code"@, 2),
            right("immediate_dest"@, 10),
            right("immediate_orig"@, 10),
            right("file_creation_date"@, 6),
            right("file_creation_time"@, 4),
            right("file_id_modifier"@, 1),
            right("record_size"@, 3),
            right("blocking_factor"@, 2),
            right("format_code"@, 1),
            right("immediate_dest_name"@, 23),
            right("immediate_orig_name"@, 23),
            right("reference_code"@, 8),
        ],
        AchRecordType::CompanyBatchHeader => seq![
            right("service_class_code"@, 3),
            right("company_name"@, 16),
            right("company_discretionary_data"@, 20),
            right("company_id"@, 10),
            right("sec"@, 3),
            right("entry_desc"@, 10),
            right("company_descriptive_date"@, 6),
            right("effective_entry_date"@, 6),
            right("settlement_date"@, 3),
            right("originator_status_code"@, 1),
            right("odfi_id"@, 8),
            right("batch_number"@, 7),
        ],
        AchRecordType::EntryDetail => seq![
            right("transactions_code"@, 2),
            right("receiving_dfi_id"@, 8),
            right("check_digit"@, 1),
            right("dfi_account"@, 17),
            right("amount"@, 10),
            right("individual_id"@, 15),
            right("individual_name"@, 22),
            right("discretionary_data"@, 2),
            right("addenda_indicator"@, 1),
            right("trace"@, 15),
        ],
        AchRecordType::Addenda => seq![
            right("addenda_type"@, 2),
            right("payment_related_info"@, 80),
            right("addenda_sequence"@, 4),
            right("batch"@, 7),
        ],
        AchRecordType::CompanyBatchTrailer => seq![
            right("service_class_code"@, 3),
            right("entry_and_addenda_count"@, 6),
            left("entry_hash"@, 10),
            right("total_debit_amount"@, 12),
            right("total_credit_amount"@, 12),
            right("company_id"@, 10),
            right("message_auth_code"@, 19),
            right("reserved"@, 6),
            right("originating_dfi_id_num"@, 8),
            right("batch_num"@, 7),
        ],
        AchRecordType::Trailer => seq![
            right("batch_count"@, 6),
            right("block_count"@, 6),
            right("entry_and_addenda_count"@, 8),
            right("entry_hash"@, 10),
            right("total_debits"@, 12),
            right("total_credits"@, 12),
            right("reserved"@, 39),
        ],
    }
}

/// Where field `i` of a layout starts, counted from the character after the
/// tag: the sum of the widths of the fields before it.
pub open spec fn offset(layout: Seq<FieldDefView>, i: int) -> int
    decreases i,
{
    if i <= 0 {
        0
    } else {
        offset(layout, i - 1) + layout[i - 1].width
    }
}

/// Field `i` of a layout as decoded from `rest`, the part of a line after
/// its tag: the characters that the layout gives to the field, or as many of
/// them as a short line holds.
pub open spec fn decoded_field(rest: Seq<char>, layout: Seq<FieldDefView>, i: int) -> FieldView {
    FieldView {
        content: window(rest, offset(layout, i), layout[i].width as int),
        width: layout[i].width,
        left: layout[i].left,
    }
}

/// All the fields of a layout as decoded from `rest`.
pub open spec fn decoded(rest: Seq<char>, layout: Seq<FieldDefView>) -> Seq<FieldView> {
    Seq::new(layout.len(), |i: int| decoded_field(rest, layout, i))
}

/// The first `n` of `fields`, each rendered to its width, one after the other.
pub open spec fn concat_rendered(fields: Seq<FieldView>, n: int) -> Seq<char>
    decreases n,
{
    if n <= 0 {
        Seq::empty()
    } else {
        concat_rendered(fields, n - 1) + fields[n - 1].rendered()
    }
}

/// The line of a record: its tag, then its fields.
pub open spec fn record_line(kind: AchRecordType, fields: Seq<FieldView>) -> Seq<char> {
    seq![tag(kind)] + concat_rendered(fields, fields.len() as int)
}

/// Every field's content is no wider than the field.
pub open spec fn all_fit(fields: Seq<FieldView>) -> bool {
    forall|i: int| 0 <= i < fields.len() ==> (#[trigger] fields[i]).fits()
}

/// The fields have the widths that the layout of `kind` declares, so that
/// the record's line is [`LINE_WIDTH`] wide.
pub open spec fn conforms(kind: AchRecordType, fields: Seq<FieldView>) -> bool {
    &&& fields.len() == layout(kind).len()
    &&& forall|i: int| 0 <= i < fields.len() ==> (#[trigger] fields[i]).width == layout(kind)[i].width
}

/// `i` is the first place in the layout of a field called `name`.
pub open spec fn is_position(layout: Seq<FieldDefView>, name: Seq<char>, i: int) -> bool {
    &&& 0 <= i < layout.len()
    &&& layout[i].name == name
    &&& forall|j: int| 0 <= j < i ==> (#[trigger] layout[j]).name != name
}

/// The first place in the layout of a field called `name`, if there is one.
pub open spec fn position_of(layout: Seq<FieldDefView>, name: Seq<char>) -> Option<int> {
    if exists|i: int| is_position(layout, name, i) {
        Some(choose|i: int| is_position(layout, name, i))
    } else {
        None
    }
}

/// The first place of a name in a layout is the only first place.
pub proof fn lemma_position_unique(layout: Seq<FieldDefView>, name: Seq<char>, i: int, j: int)
    requires
        is_position(layout, name, i),
        is_position(layout, name, j),
    ensures
        i == j,
{
    if i < j {
        assert(layout[i].name != name);
    } else if j < i {
        assert(layout[j].name != name);
    }
}

/// A place that is the first of a name is what [`position_of`] yields.
pub proof fn lemma_position_of(layout: Seq<FieldDefView>, name: Seq<char>, i: int)
    requires
        is_position(layout, name, i),
    ensures
        position_of(layout, name) == Some(i),
{
    lemma_position_unique(layout, name, i, choose|j: int| is_position(layout, name, j));
}

/// The values of a sequence of fields.
pub open spec fn field_views(fields: Seq<Field>) -> Seq<FieldView> {
    Seq::new(fields.len(), |i: int| fields[i]@)
}

/// The values of a sequence of borrowed fields.
pub open spec fn ref_views(fields: Seq<&Field>) -> Seq<FieldView> {
    Seq::new(fields.len(), |i: int| fields[i]@)
}

fn row(name: &'static str, width: usize) -> (d: FieldDef)
    ensures
        d@ == right(name@, width as nat),
{
    FieldDef { name, width, left: false }
}

fn row_left(name: &'static str, width: usize) -> (d: FieldDef)
    ensures
        d@ == left(name@, width as nat),
{
    FieldDef { name, width, left: true }
}

impl AchRecordType {
    /// The kind of record that a rule file calls `name`, if any.
    pub fn from_name(name: &str) -> (r: Option<AchRecordType>)
        ensures
            r == kind_named(name@),
    {
        if str_eq(name, "Header") {
            Some(AchRecordType::Header)
        } else if str_eq(name, "CompanyBatchHeader") {
            Some(AchRecordType::CompanyBatchHeader)
        } else if str_eq(name, "EntryDetail") {
            Some(AchRecordType::EntryDetail)
        } else if str_eq(name, "Addenda") {
            Some(AchRecordType::Addenda)
        } else if str_eq(name, "CompanyBatchTrailer") {
            Some(AchRecordType::CompanyBatchTrailer)
        } else if str_eq(name, "Trailer") {
            Some(AchRecordType::Trailer)
        } else {
            None
        }
    }

    /// The kind of record that a line with this first character holds.
    pub fn from_tag(c: char) -> (r: Option<AchRecordType>)
        ensures
            r == kind_tagged(c),
    {
        if c == '1' {
            Some(AchRecordType::Header)
        } else if c == '5' {
            Some(AchRecordType::CompanyBatchHeader)
        } else if c == '6' {
            Some(AchRecordType::EntryDetail)
        } else if c == '7' {
            Some(AchRecordType::Addenda)
        } else if c == '8' {
            Some(AchRecordType::CompanyBatchTrailer)
        } else if c == '9' {
            Some(AchRecordType::Trailer)
        } else {
            None
        }
    }

    /// The tag of this kind of record, as a string of one character.
    pub fn tag_str(&self) -> (s: &'static str)
        ensures
            s@ == seq![tag(*self)],
    {
        proof {
            reveal_strlit("1");
            reveal_strlit("5");
            reveal_strlit("6");
            reveal_strlit("7");
            reveal_strlit("8");
            reveal_strlit("9");
        }
        let s = match self {
            AchRecordType::Header => "1",
            AchRecordType::CompanyBatchHeader => "5",
            AchRecordType::EntryDetail => "6",
            AchRecordType::Addenda => "7",
            AchRecordType::CompanyBatchTrailer => "8",
            AchRecordType::Trailer => "9",
        };
        assert(s@ =~= seq![tag(*self)]);
        s
    }

    /// The layout table of this kind of record.
    pub fn layout(&self) -> (v: Vec<FieldDef>)
        ensures
            def_views(v@) == layout(*self),
    {
        let mut v: Vec<FieldDef> = Vec::new();
        match self {
            AchRecordType::Header => {
                v.push(row("priority_code", 2));
                v.push(row("immediate_dest", 10));
                v.push(row("immediate_orig", 10));
                v.push(row("file_creation_date", 6));
                v.push(row("file_creation_time", 4));
                v.push(row("file_id_modifier", 1));
                v.push(row("record_size", 3));
                v.push(row("blocking_factor", 2));
                v.push(row("format_code", 1));
                v.push(row("immediate_dest_name", 23));
                v.push(row("immediate_orig_name", 23));
                v.push(row("reference_code", 8));
            },
            AchRecordType::CompanyBatchHeader => {
                v.push(row("service_class_code", 3));
                v.push(row("company_name", 16));
                v.push(row("company_discretionary_data", 20));
                v.push(row("company_id", 10));
                v.push(row("sec", 3));
                v.push(row("entry_desc", 10));
                v.push(row("company_descriptive_date", 6));
                v.push(row("effective_entry_date", 6));
                v.push(row("settlement_date", 3));
                v.push(row("originator_status_code", 1));
                v.push(row("odfi_id", 8));
                v.push(row("batch_number", 7));
            },
            AchRecordType::EntryDetail => {
                v.push(row("transactions_code", 2));
                v.push(row("receiving_dfi_id", 8));
                v.push(row("check_digit", 1));
                v.push(row("dfi_account", 17));
                v.push(row("amount", 10));
                v.push(row("individual_id", 15));
                v.push(row("individual_name", 22));
                v.push(row("discretionary_data", 2));
                v.push(row("addenda_indicator", 1));
                v.push(row("trace", 15));
            },
            AchRecordType::Addenda => {
                v.push(row("addenda_type", 2));
                v.push(row("payment_related_info", 80));
                v.push(row("addenda_sequence", 4));
                v.push(row("batch", 7));
            },
            AchRecordType::CompanyBatchTrailer => {
                v.push(row("service_class_code", 3));
                v.push(row("entry_and_addenda_count", 6));
                v.push(row_left("entry_hash", 10));
                v.push(row("total_debit_amount", 12));
                v.push(row("total_credit_amount", 12));
                v.push(row("company_id", 10));
                v.push(row("message_auth_code", 19));
                v.push(row("reserved", 6));
                v.push(row("originating_dfi_id_num", 8));
                v.push(row("batch_num", 7));
            },
            AchRecordType::Trailer => {
                v.push(row("batch_count", 6));
                v.push(row("block_count", 6));
                v.push(row("entry_and_addenda_count", 8));
                v.push(row("entry_hash", 10));
                v.push(row("total_debits", 12));
                v.push(row("total_credits", 12));
                v.push(row("reserved", 39));
            },
        }
        assert(def_views(v@) =~= layout(*self));
        v
    }

    /// Where the layout of this kind of record has a field called `name`.
    pub fn position(&self, name: &str) -> (r: Option<usize>)
        ensures
            match r {
                Some(i) => position_of(layout(*self), name@) == Some(i as int) && i < layout(
                    *self,
                ).len(),
                None => position_of(layout(*self), name@) is None,
            },
    {
        let defs = self.layout();
        let mut i: usize = 0;
        while i < defs.len()
            invariant
                i <= defs.len(),
                def_views(defs@) == layout(*self),
                forall|j: int| 0 <= j < i ==> (#[trigger] layout(*self)[j]).name != name@,
            decreases defs.len() - i,
        {
            assert(def_views(defs@)[i as int] == defs@[i as int]@);
            if str_eq(defs[i].name, name) {
                proof {
                    lemma_position_of(layout(*self), name@, i as int);
                }
                return Some(i);
            }
            i += 1;
        }
        assert forall|j: int| !is_position(layout(*self), name@, j) by {
            if 0 <= j < layout(*self).len() {
                assert(layout(*self)[j].name != name@);
            }
        }
        None
    }
}

/// The kind of record that a rule file calls `name`.
pub open spec fn kind_named(name: Seq<char>) -> Option<AchRecordType> {
    if name == "Header"@ {
        Some(AchRecordType::Header)
    } else if name == "CompanyBatchHeader"@ {
        Some(AchRecordType::CompanyBatchHeader)
    } else if name == "EntryDetail"@ {
        Some(AchRecordType::EntryDetail)
    } else if name == "Addenda"@ {
        Some(AchRecordType::Addenda)
    } else if name == "CompanyBatchTrailer"@ {
        Some(AchRecordType::CompanyBatchTrailer)
    } else if name == "Trailer"@ {
        Some(AchRecordType::Trailer)
    } else {
        None
    }
}

/// The kind of record whose tag is `c`.
pub open spec fn kind_tagged(c: char) -> Option<AchRecordType> {
    if c == '1' {
        Some(AchRecordType::Header)
    } else if c == '5' {
        Some(AchRecordType::CompanyBatchHeader)
    } else if c == '6' {
        Some(AchRecordType::EntryDetail)
    } else if c == '7' {
        Some(AchRecordType::Addenda)
    } else if c == '8' {
        Some(AchRecordType::CompanyBatchTrailer)
    } else if c == '9' {
        Some(AchRecordType::Trailer)
    } else {
        None
    }
}

/// Decodes the fields of a layout from what the reader has left, in order.
/// A line that is too short yields short, and then empty, contents.
pub fn read_fields(reader: &mut StringReader, defs: &Vec<FieldDef>) -> (fields: Vec<Field>)
    ensures
        field_views(fields@) == decoded(old(reader).remaining(), def_views(defs@)),
        fields@.len() == defs@.len(),
        final(reader).inner@ == old(reader).inner@,
{
    let ghost rest = reader.remaining();
    let ghost lay = def_views(defs@);
    let ghost start = reader.pos as int;
    let mut fields: Vec<Field> = Vec::new();
    let mut i: usize = 0;
    while i < defs.len()
        invariant
            i <= defs.len(),
            lay == def_views(defs@),
            reader.inner@ == old(reader).inner@,
            rest == old(reader).remaining(),
            start == old(reader).pos,
            0 <= offset(lay, i as int),
            reader.pos == start + if offset(lay, i as int) <= rest.len() {
                offset(lay, i as int)
            } else {
                rest.len() as int
            },
            fields@.len() == i,
            forall|j: int| 0 <= j < i ==> (#[trigger] fields@[j])@ == decoded_field(rest, lay, j),
        decreases defs.len() - i,
    {
        let def = defs[i];
        let content = reader.read(def.width);
        let field = Field { content, size: def.width, left_justified: def.left };
        proof {
            assert(lay[i as int] == defs@[i as int]@);
            assert(offset(lay, i + 1) == offset(lay, i as int) + lay[i as int].width);
            assert(field@.content =~= decoded_field(rest, lay, i as int).content);
        }
        fields.push(field);
        i += 1;
    }
    assert(field_views(fields@) =~= decoded(rest, lay));
    fields
}

/// Renders a record of the given kind: its tag, then each field to its width.
pub fn render_record(kind: AchRecordType, fields: &Vec<&Field>) -> (line: String)
    ensures
        line@ == record_line(kind, ref_views(fields@)),
{
    let ghost views = ref_views(fields@);
    let mut line = kind.tag_str().to_owned();
    let mut i: usize = 0;
    while i < fields.len()
        invariant
            i <= fields.len(),
            views == ref_views(fields@),
            line@ == seq![tag(kind)] + concat_rendered(views, i as int),
        decreases fields.len() - i,
    {
        let piece = fields[i].to_string();
        line.append(piece.as_str());
        i += 1;
        assert(line@ =~= seq![tag(kind)] + concat_rendered(views, i as int));
    }
    line
}

/// Whether every one of the fields holds content no wider than itself.
pub fn fields_fit(fields: &Vec<&Field>) -> (r: bool)
    ensures
        r == all_fit(ref_views(fields@)),
{
    let mut i: usize = 0;
    while i < fields.len()
        invariant
            i <= fields.len(),
            forall|j: int| 0 <= j < i ==> (#[trigger] ref_views(fields@)[j]).fits(),
        decreases fields.len() - i,
    {
        if !fields[i].fits() {
            assert(!ref_views(fields@)[i as int].fits());
            return false;
        }
        i += 1;
    }
    true
}

/// The report that field `index` of a record of the given kind cannot hold
/// `value`.
pub open spec fn overflow_of(kind: AchRecordType, index: int, value: Seq<char>) -> OverflowView {
    OverflowView { record: kind, field: layout(kind)[index].name, value }
}

/// The first of the first `n` fields whose content is wider than the field.
pub open spec fn first_unfit(fields: Seq<FieldView>, n: int) -> Option<int>
    decreases n,
{
    if n <= 0 {
        None
    } else {
        match first_unfit(fields, n - 1) {
            Some(i) => Some(i),
            None => if fields[n - 1].fits() {
                None
            } else {
                Some(n - 1)
            },
        }
    }
}

/// The report on the first field of a record of the given kind whose
/// content is wider than the field, if there is one.
pub open spec fn unfit_in(kind: AchRecordType, fields: Seq<FieldView>) -> Option<OverflowView> {
    match first_unfit(fields, fields.len() as int) {
        Some(i) => Some(overflow_of(kind, i, fields[i].content)),
        None => None,
    }
}

/// No field is found too narrow exactly if the content of every field fits.
pub proof fn lemma_first_unfit(fields: Seq<FieldView>, n: int)
    requires
        0 <= n <= fields.len(),
    ensures
        first_unfit(fields, n) is None <==> forall|i: int|
            0 <= i < n ==> (#[trigger] fields[i]).fits(),
        first_unfit(fields, n) matches Some(i) ==> 0 <= i < n && !fields[i].fits(),
    decreases n,
{
    if n > 0 {
        lemma_first_unfit(fields, n - 1);
    }
}

/// No field is reported exactly if the content of every field fits.
pub proof fn lemma_unfit_in(kind: AchRecordType, fields: Seq<FieldView>)
    ensures
        unfit_in(kind, fields) is None <==> all_fit(fields),
{
    lemma_first_unfit(fields, fields.len() as int);
}

/// The error that field `index` of a record of the given kind cannot hold
/// `value`.
pub(crate) fn overflow(kind: AchRecordType, index: usize, value: &str) -> (e: TransformError)
    requires
        index < layout(kind).len(),
    ensures
        e@ == TransformErrorView::FieldOverflow(overflow_of(kind, index as int, value@)),
{
    let defs = kind.layout();
    assert(def_views(defs@)[index as int] == defs@[index as int]@);
    TransformError::FieldOverflow(
        Overflow { record: kind, field: defs[index].name.to_owned(), value: value.to_owned() },
    )
}

/// Checks that the content of each of the fields of a record of the given
/// kind fits its field; fails with `FieldOverflow` on the first that does
/// not, and reports it.
pub(crate) fn check_fields(kind: AchRecordType, fields: &Vec<&Field>) -> (r: Result<(), TransformError>)
    requires
        fields@.len() == layout(kind).len(),
    ensures
        reports(r, unfit_in(kind, ref_views(fields@))),
{
    let mut i: usize = 0;
    while i < fields.len()
        invariant
            i <= fields.len(),
            fields@.len() == layout(kind).len(),
            first_unfit(ref_views(fields@), i as int) is None,
        decreases fields.len() - i,
    {
        if !fields[i].fits() {
            proof {
                lemma_first_unfit_stays(ref_views(fields@), i + 1, fields@.len() as int);
            }
            return Err(overflow(kind, i, fields[i].content.as_str()));
        }
        i += 1;
    }
    Ok(())
}

/// A field once found too narrow stays the first that is.
pub proof fn lemma_first_unfit_stays(fields: Seq<FieldView>, n: int, m: int)
    requires
        n <= m,
        first_unfit(fields, n) is Some,
    ensures
        first_unfit(fields, m) == first_unfit(fields, n),
    decreases m - n,
{
    if n < m {
        lemma_first_unfit_stays(fields, n, m - 1);
    }
}

} // verus!
