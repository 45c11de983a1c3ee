//! The steps of a rule file, and how they are read from its lines.
//!
//! A step has a label, the operations to perform, the kinds of record that
//! they apply to, the conditions that a record must meet, and, for a
//! replacement, the values to write.
//!
//! A rule file is a text whose indentation shows its structure.  Every line
//! is of the form `key: value`.  A first line `---` is passed over.  A line
//! that is indented no deeper than the first line opens a step and gives its
//! label; the lines below it that are indented deeper are the settings of the
//! step:
//!
//! ```text
//! move the ledger company:
//!     operation: [replace, split]
//!     on: [CompanyBatchHeader, EntryDetail]
//!     conditions:
//!         or:
//!             company_id: [1234567890, 0987654321]
//!             not:
//!                 sec: PPD
//!     replacements:
//!         CompanyBatchHeader.company_name: NEW NAME
//! ```
//!
//! A value is a single word or phrase, or a list in square brackets whose
//! items commas separate.  Under `conditions` a line compares a field with a
//! value, or with the items of a list; `and`, `or` and `not` take the
//! conditions indented below them, `not` denying that all of them hold.
//! Under `replacements` the key names a kind of record and, after a dot, one
//! of its fields.  A step names at least one operation; a step without `on`
//! targets the file header.

use crate::condition::{condition_views, Condition, ConditionView};
use crate::error::ConfigError;
use crate::layout::{kind_named, layout, position_of, AchRecordType};
use crate::text::{
    blank_run, find, find_char, indent, lemma_blank_run_bounds, lemma_find_bounds, line_views,
    str_eq, substring, trim, trimmed,
};
use vstd::prelude::*;
use vstd::string::*;

verus! {

/// What a step does to a file.
#[derive(Debug, Clone, Copy, PartialEq, Eq, Structural)]
pub enum OperationType {
    /// Divide the batches of the file over two files.
    Split,
    /// Overwrite the content of fields.
    Replace,
}

/// A value to write to the named field of the records of one kind.
#[derive(Debug)]
pub struct Replacement {
    pub record: AchRecordType,
    pub field: String,
    pub replace_with: String,
}

/// The mathematical value of a [`Replacement`].
pub ghost struct ReplacementView {
    pub record: AchRecordType,
    pub field: Seq<char>,
    pub replace_with: Seq<char>,
}

impl View for Replacement {
    type V = ReplacementView;

    open spec fn view(&self) -> ReplacementView {
        ReplacementView {
            record: self.record,
            field: self.field@,
            replace_with: self.replace_with@,
        }
    }
}

/// The values of a sequence of replacements.
pub open spec fn replacement_views(rs: Seq<Replacement>) -> Seq<ReplacementView> {
    Seq::new(rs.len(), |i: int| rs[i]@)
}

/// One labelled step of a rule file.  The conditions of a step must all
/// hold of a record for the step to touch it.  A split tries them on the
/// header of each batch; a replacement tries them on each record of the
/// kinds that the step targets.
#[derive(Debug)]
pub struct Steps {
    pub label: String,
    pub operation: Vec<OperationType>,
    pub on: Vec<AchRecordType>,
    pub conditions: Vec<Condition>,
    pub replacements: Vec<Replacement>,
}

/// The mathematical value of a step.
pub ghost struct StepView {
    pub label: Seq<char>,
    pub operation: Seq<OperationType>,
    pub on: Seq<AchRecordType>,
    pub conditions: Seq<ConditionView>,
    pub replacements: Seq<ReplacementView>,
}

impl View for Steps {
    type V = StepView;

    open spec fn view(&self) -> StepView {
        StepView {
            label: self.label@,
            operation: self.operation@,
            on: self.on@,
            conditions: condition_views(self.conditions@),
            replacements: replacement_views(self.replacements@),
        }
    }
}

/// The values of a sequence of steps.
pub open spec fn step_views(steps: Seq<Steps>) -> Seq<StepView> {
    Seq::new(steps.len(), |i: int| steps[i]@)
}

/// One line of a rule file, taken apart.
#[derive(Debug)]
pub struct RuleLine {
    pub indent: usize,
    pub key: String,
    pub value: String,
}

/// The mathematical value of a [`RuleLine`].
pub ghost struct RuleLineView {
    pub indent: nat,
    pub key: Seq<char>,
    pub value: Seq<char>,
}

impl View for RuleLine {
    type V = RuleLineView;

    open spec fn view(&self) -> RuleLineView {
        RuleLineView { indent: self.indent as nat, key: self.key@, value: self.value@ }
    }
}

/// The values of a sequence of lines.
pub open spec fn rule_views(lines: Seq<RuleLine>) -> Seq<RuleLineView> {
    Seq::new(lines.len(), |i: int| lines[i]@)
}

/// A line taken apart at its colon: the indentation, and the key and the
/// value without the white space around them.  A line without a colon, or
/// with more than one, is malformed.
pub open spec fn tokenized(line: Seq<char>) -> Result<RuleLineView, ConfigError> {
    let colon = find(line, ':', 0);
    if colon >= line.len() || find(line, ':', colon + 1) < line.len() {
        Err(ConfigError::MalformedLine)
    } else {
        Ok(
            RuleLineView {
                indent: blank_run(line, 0) as nat,
                key: trimmed(line.subrange(0, colon)),
                value: trimmed(line.subrange(colon + 1, line.len() as int)),
            },
        )
    }
}

impl RuleLine {
    /// Takes a line apart at its colon.
    pub fn parse(line: &str) -> (r: Result<RuleLine, ConfigError>)
        ensures
            match r {
                Ok(l) => tokenized(line@) == Ok::<RuleLineView, ConfigError>(l@),
                Err(e) => tokenized(line@) == Err::<RuleLineView, ConfigError>(e),
            },
    {
        let len = line.unicode_len();
        let colon = find_char(line, ':', 0);
        if colon >= len {
            return Err(ConfigError::MalformedLine);
        }
        if find_char(line, ':', colon + 1) < len {
            return Err(ConfigError::MalformedLine);
        }
        proof {
            lemma_blank_run_bounds(line@, 0);
        }
        let key = trim(substring(line, 0, colon).as_str());
        let value = trim(substring(line, colon + 1, len).as_str());
        Ok(RuleLine { indent: indent(line), key, value })
    }
}

/// The value is a list in square brackets.
pub open spec fn is_list(value: Seq<char>) -> bool {
    value.len() >= 2 && value.first() == '[' && value.last() == ']'
}

/// The pieces of `s` from `from` on that commas separate, each without the
/// white space around it, after those of `acc`.
pub open spec fn split_items(s: Seq<char>, from: int, acc: Seq<Seq<char>>) -> Seq<Seq<char>>
    decreases s.len() - from,
{
    if from < 0 || from > s.len() {
        acc
    } else {
        proof {
            lemma_find_bounds(s, ',', from);
        }
        let end = find(s, ',', from);
        if end >= s.len() {
            acc.push(trimmed(s.subrange(from, s.len() as int)))
        } else {
            split_items(s, end + 1, acc.push(trimmed(s.subrange(from, end))))
        }
    }
}

/// The items of a value: those of a list in square brackets, none if there
/// is nothing between the brackets; else the value itself, if it is not
/// empty.
pub open spec fn items(value: Seq<char>) -> Seq<Seq<char>> {
    if is_list(value) {
        if trimmed(value.subrange(1, value.len() - 1)).len() == 0 {
            Seq::empty()
        } else {
            split_items(value.subrange(1, value.len() - 1), 0, Seq::empty())
        }
    } else if value.len() == 0 {
        Seq::empty()
    } else {
        seq![value]
    }
}

/// Whether the value is a list in square brackets.
pub fn value_is_list(value: &str) -> (r: bool)
    ensures
        r == is_list(value@),
{
    let len = value.unicode_len();
    len >= 2 && value.get_char(0) == '[' && value.get_char(len - 1) == ']'
}

/// The items of a value.
pub fn list_items(value: &str) -> (r: Vec<String>)
    ensures
        line_views(r@) == items(value@),
{
    let mut out: Vec<String> = Vec::new();
    let len = value.unicode_len();
    if !value_is_list(value) {
        if len > 0 {
            out.push(value.to_owned());
            assert(line_views(out@) =~= seq![value@]);
        } else {
            assert(line_views(out@) =~= Seq::<Seq<char>>::empty());
        }
        return out;
    }
    let inner = substring(value, 1, len - 1);
    if trim(inner.as_str()).as_str().unicode_len() == 0 {
        assert(line_views(out@) =~= Seq::<Seq<char>>::empty());
        return out;
    }
    let n = inner.as_str().unicode_len();
    let mut from: usize = 0;
    assert(line_views(out@) =~= Seq::<Seq<char>>::empty());
    loop
        invariant_except_break
            split_items(inner@, 0, Seq::empty()) == split_items(
                inner@,
                from as int,
                line_views(out@),
            ),
        invariant
            from <= n,
            n == inner@.len(),
        ensures
            line_views(out@) == split_items(inner@, 0, Seq::empty()),
        decreases n - from,
    {
        let ghost before = line_views(out@);
        let end = find_char(inner.as_str(), ',', from);
        let piece = trim(substring(inner.as_str(), from, end).as_str());
        out.push(piece);
        assert(line_views(out@) =~= before.push(piece@));
        if end >= n {
            break ;
        }
        from = end + 1;
    }
    out
}

/// The operation that a rule file calls `name`.
pub open spec fn operation_named(name: Seq<char>) -> Option<OperationType> {
    if name == "split"@ {
        Some(OperationType::Split)
    } else if name == "replace"@ {
        Some(OperationType::Replace)
    } else {
        None
    }
}

/// The operations that the first `n` names stand for; `UnknownOperation`
/// where one of them stands for none.
pub open spec fn operations_of(names: Seq<Seq<char>>, n: int) -> Result<
    Seq<OperationType>,
    ConfigError,
>
    decreases n,
{
    if n <= 0 {
        Ok(Seq::empty())
    } else {
        match operations_of(names, n - 1) {
            Err(e) => Err(e),
            Ok(done) => match operation_named(names[n - 1]) {
                None => Err(ConfigError::UnknownOperation),
                Some(op) => Ok(done.push(op)),
            },
        }
    }
}

/// The kinds of record that the first `n` names stand for;
/// `UnknownRecordType` where one of them stands for none.
pub open spec fn kinds_of(names: Seq<Seq<char>>, n: int) -> Result<Seq<AchRecordType>, ConfigError>
    decreases n,
{
    if n <= 0 {
        Ok(Seq::empty())
    } else {
        match kinds_of(names, n - 1) {
            Err(e) => Err(e),
            Ok(done) => match kind_named(names[n - 1]) {
                None => Err(ConfigError::UnknownRecordType),
                Some(kind) => Ok(done.push(kind)),
            },
        }
    }
}

/// Names that fail to stand for operations fail whatever follows.
pub proof fn lemma_operations_of_fails(names: Seq<Seq<char>>, n: int, m: int)
    requires
        n <= m,
        operations_of(names, n) is Err,
    ensures
        operations_of(names, m) == operations_of(names, n),
    decreases m - n,
{
    if n < m {
        lemma_operations_of_fails(names, n, m - 1);
    }
}

/// Names that fail to stand for kinds of record fail whatever follows.
pub proof fn lemma_kinds_of_fails(names: Seq<Seq<char>>, n: int, m: int)
    requires
        n <= m,
        kinds_of(names, n) is Err,
    ensures
        kinds_of(names, m) == kinds_of(names, n),
    decreases m - n,
{
    if n < m {
        lemma_kinds_of_fails(names, n, m - 1);
    }
}

impl OperationType {
    /// The operation that a rule file calls `name`, if any.
    pub fn from_name(name: &str) -> (r: Option<OperationType>)
        ensures
            r == operation_named(name@),
    {
        if str_eq(name, "split") {
            Some(OperationType::Split)
        } else if str_eq(name, "replace") {
            Some(OperationType::Replace)
        } else {
            None
        }
    }

    /// The operations that a value names: one, or the items of a list.
    pub fn new_vec(s: &str) -> (r: Result<Vec<OperationType>, ConfigError>)
        ensures
            match r {
                Ok(ops) => operations_of(items(s@), items(s@).len() as int) == Ok::<
                    Seq<OperationType>,
                    ConfigError,
                >(ops@),
                Err(e) => operations_of(items(s@), items(s@).len() as int) == Err::<
                    Seq<OperationType>,
                    ConfigError,
                >(e),
            },
    {
        let names = list_items(s);
        let mut ops: Vec<OperationType> = Vec::new();
        let mut i: usize = 0;
        while i < names.len()
            invariant
                i <= names.len(),
                line_views(names@) == items(s@),
                operations_of(items(s@), i as int) == Ok::<Seq<OperationType>, ConfigError>(ops@),
            decreases names.len() - i,
        {
            assert(line_views(names@)[i as int] == names@[i as int]@);
            match OperationType::from_name(names[i].as_str()) {
                None => {
                    proof {
                        lemma_operations_of_fails(items(s@), i + 1, items(s@).len() as int);
                    }
                    return Err(ConfigError::UnknownOperation);
                },
                Some(op) => {
                    ops.push(op);
                },
            }
            i += 1;
        }
        Ok(ops)
    }
}

/// The kinds of record that a value names: one, or the items of a list.
pub fn record_types(s: &str) -> (r: Result<Vec<AchRecordType>, ConfigError>)
    ensures
        match r {
            Ok(kinds) => kinds_of(items(s@), items(s@).len() as int) == Ok::<
                Seq<AchRecordType>,
                ConfigError,
            >(kinds@),
            Err(e) => kinds_of(items(s@), items(s@).len() as int) == Err::<
                Seq<AchRecordType>,
                ConfigError,
            >(e),
        },
{
    let names = list_items(s);
    let mut kinds: Vec<AchRecordType> = Vec::new();
    let mut i: usize = 0;
    while i < names.len()
        invariant
            i <= names.len(),
            line_views(names@) == items(s@),
            kinds_of(items(s@), i as int) == Ok::<Seq<AchRecordType>, ConfigError>(kinds@),
        decreases names.len() - i,
    {
        assert(line_views(names@)[i as int] == names@[i as int]@);
        match AchRecordType::from_name(names[i].as_str()) {
            None => {
                proof {
                    lemma_kinds_of_fails(items(s@), i + 1, items(s@).len() as int);
                }
                return Err(ConfigError::UnknownRecordType);
            },
            Some(kind) => {
                kinds.push(kind);
            },
        }
        i += 1;
    }
    Ok(kinds)
}

/// Where the lines from `from` on that are indented deeper than `indent`
/// end.
pub open spec fn block_end(lines: Seq<RuleLineView>, from: int, indent: nat) -> int
    decreases lines.len() - from,
{
    if 0 <= from < lines.len() && lines[from].indent > indent {
        block_end(lines, from + 1, indent)
    } else {
        from
    }
}

/// A block ends within the lines, at or after its start.
pub proof fn lemma_block_end_bounds(lines: Seq<RuleLineView>, from: int, indent: nat)
    requires
        0 <= from <= lines.len(),
    ensures
        from <= block_end(lines, from, indent) <= lines.len(),
    decreases lines.len() - from,
{
    if from < lines.len() && lines[from].indent > indent {
        lemma_block_end_bounds(lines, from + 1, indent);
    }
}

/// Where the item that the line at `pos` opens ends: with the lines below
/// it that are indented deeper than it, and before `end` at the latest.
pub open spec fn item_end(lines: Seq<RuleLineView>, pos: int, end: int) -> int {
    if block_end(lines, pos + 1, lines[pos].indent) < end {
        block_end(lines, pos + 1, lines[pos].indent)
    } else {
        end
    }
}

/// The key is one of `and`, `or`, `not`.
pub open spec fn is_connective(key: Seq<char>) -> bool {
    key == "and"@ || key == "or"@ || key == "not"@
}

/// The condition that a connective makes of the conditions below it.
pub open spec fn connective(key: Seq<char>, children: Seq<ConditionView>) -> ConditionView {
    if key == "and"@ {
        ConditionView::And(children)
    } else if key == "or"@ {
        ConditionView::Or(children)
    } else {
        ConditionView::Not(Box::new(ConditionView::And(children)))
    }
}

/// The conditions that the lines from `pos` up to `end` hold, after those of
/// `acc`.
pub open spec fn conditions_in(
    lines: Seq<RuleLineView>,
    pos: int,
    end: int,
    acc: Seq<ConditionView>,
) -> Result<Seq<ConditionView>, ConfigError>
    decreases end - pos, 1nat,
{
    if pos < 0 || pos >= end || end > lines.len() {
        Ok(acc)
    } else {
        proof {
            lemma_block_end_bounds(lines, pos + 1, lines[pos].indent);
        }
        match condition_at(lines, pos, item_end(lines, pos, end)) {
            Err(e) => Err(e),
            Ok(c) => conditions_in(lines, item_end(lines, pos, end), end, acc.push(c)),
        }
    }
}

/// The condition that the line at `pos` opens and that ends at `stop`.  A
/// connective takes no value, and a comparison no lines below it.
pub open spec fn condition_at(lines: Seq<RuleLineView>, pos: int, stop: int) -> Result<
    ConditionView,
    ConfigError,
>
    decreases stop - pos, 0nat,
{
    if pos < 0 || stop <= pos || stop > lines.len() {
        Err(ConfigError::MalformedLine)
    } else if is_connective(lines[pos].key) {
        if lines[pos].value.len() > 0 {
            Err(ConfigError::MalformedLine)
        } else {
            match conditions_in(lines, pos + 1, stop, Seq::empty()) {
                Err(e) => Err(e),
                Ok(children) => Ok(connective(lines[pos].key, children)),
            }
        }
    } else if stop > pos + 1 {
        Err(ConfigError::MalformedLine)
    } else if is_list(lines[pos].value) {
        Ok(ConditionView::FieldIn { field: lines[pos].key, values: items(lines[pos].value) })
    } else {
        Ok(ConditionView::FieldEquals { field: lines[pos].key, value: lines[pos].value })
    }
}

/// The replacement that a line holds: its key names a kind of record and,
/// after a dot, a field of that kind.
pub open spec fn replacement_at(line: RuleLineView) -> Result<ReplacementView, ConfigError> {
    let dot = find(line.key, '.', 0);
    if dot >= line.key.len() {
        Err(ConfigError::MalformedLine)
    } else {
        match kind_named(line.key.subrange(0, dot)) {
            None => Err(ConfigError::UnknownRecordType),
            Some(kind) => if position_of(
                layout(kind),
                line.key.subrange(dot + 1, line.key.len() as int),
            ) is None {
                Err(ConfigError::UnknownKey)
            } else {
                Ok(
                    ReplacementView {
                        record: kind,
                        field: line.key.subrange(dot + 1, line.key.len() as int),
                        replace_with: line.value,
                    },
                )
            },
        }
    }
}

/// The replacements that the lines from `pos` up to `end` hold, after those
/// of `acc`.
pub open spec fn replacements_in(
    lines: Seq<RuleLineView>,
    pos: int,
    end: int,
    acc: Seq<ReplacementView>,
) -> Result<Seq<ReplacementView>, ConfigError>
    decreases end - pos,
{
    if pos < 0 || pos >= end || end > lines.len() {
        Ok(acc)
    } else {
        match replacement_at(lines[pos]) {
            Err(e) => Err(e),
            Ok(r) => replacements_in(lines, pos + 1, end, acc.push(r)),
        }
    }
}

/// The step `acc` with the setting that the line at `pos` opens and that
/// ends at `stop`.
pub open spec fn with_setting(lines: Seq<RuleLineView>, pos: int, stop: int, acc: StepView) -> Result<
    StepView,
    ConfigError,
> {
    if lines[pos].key == "operation"@ {
        if stop > pos + 1 {
            Err(ConfigError::MalformedLine)
        } else {
            match operations_of(items(lines[pos].value), items(lines[pos].value).len() as int) {
                Err(e) => Err(e),
                Ok(ops) => Ok(StepView { operation: acc.operation + ops, ..acc }),
            }
        }
    } else if lines[pos].key == "on"@ {
        if stop > pos + 1 {
            Err(ConfigError::MalformedLine)
        } else {
            match kinds_of(items(lines[pos].value), items(lines[pos].value).len() as int) {
                Err(e) => Err(e),
                Ok(kinds) => Ok(StepView { on: acc.on + kinds, ..acc }),
            }
        }
    } else if lines[pos].key == "conditions"@ {
        if lines[pos].value.len() > 0 {
            Err(ConfigError::MalformedLine)
        } else {
            match conditions_in(lines, pos + 1, stop, Seq::empty()) {
                Err(e) => Err(e),
                Ok(cs) => Ok(StepView { conditions: acc.conditions + cs, ..acc }),
            }
        }
    } else if lines[pos].key == "replacements"@ {
        if lines[pos].value.len() > 0 {
            Err(ConfigError::MalformedLine)
        } else {
            match replacements_in(lines, pos + 1, stop, Seq::empty()) {
                Err(e) => Err(e),
                Ok(rs) => Ok(StepView { replacements: acc.replacements + rs, ..acc }),
            }
        }
    } else {
        Err(ConfigError::UnknownKey)
    }
}

/// The step `acc` with the settings that the lines from `pos` up to `end`
/// hold.
pub open spec fn step_body(lines: Seq<RuleLineView>, pos: int, end: int, acc: StepView) -> Result<
    StepView,
    ConfigError,
>
    decreases end - pos,
{
    if pos < 0 || pos >= end || end > lines.len() {
        Ok(acc)
    } else {
        proof {
            lemma_block_end_bounds(lines, pos + 1, lines[pos].indent);
        }
        match with_setting(lines, pos, item_end(lines, pos, end), acc) {
            Err(e) => Err(e),
            Ok(next) => step_body(lines, item_end(lines, pos, end), end, next),
        }
    }
}

/// A step with the given label and nothing else yet.
pub open spec fn bare_step(label: Seq<char>) -> StepView {
    StepView {
        label,
        operation: Seq::empty(),
        on: Seq::empty(),
        conditions: Seq::empty(),
        replacements: Seq::empty(),
    }
}

/// The step with its targets settled: the file header where none is named.
pub open spec fn settled(step: StepView) -> StepView {
    if step.on.len() == 0 {
        StepView { on: seq![AchRecordType::Header], ..step }
    } else {
        step
    }
}

/// The step that the line at `pos` opens and that ends at `end`.  The line
/// gives the label and takes no value.  A step must name an operation: one
/// that names none has no known operation.
pub open spec fn step_at(lines: Seq<RuleLineView>, pos: int, end: int) -> Result<
    StepView,
    ConfigError,
> {
    if lines[pos].value.len() > 0 {
        Err(ConfigError::MalformedLine)
    } else {
        match step_body(lines, pos + 1, end, bare_step(lines[pos].key)) {
            Err(e) => Err(e),
            Ok(step) => if step.operation.len() == 0 {
                Err(ConfigError::UnknownOperation)
            } else {
                Ok(settled(step))
            },
        }
    }
}

/// The steps that the lines from `pos` on hold, after those of `acc`.  A
/// step ends before the next line that is indented no deeper than `base`.
pub open spec fn steps_from(
    lines: Seq<RuleLineView>,
    pos: int,
    base: nat,
    acc: Seq<StepView>,
) -> Result<Seq<StepView>, ConfigError>
    decreases lines.len() - pos,
{
    if pos < 0 || pos >= lines.len() {
        Ok(acc)
    } else {
        proof {
            lemma_block_end_bounds(lines, pos + 1, base);
        }
        match step_at(lines, pos, block_end(lines, pos + 1, base)) {
            Err(e) => Err(e),
            Ok(step) => steps_from(lines, block_end(lines, pos + 1, base), base, acc.push(step)),
        }
    }
}

/// The line is the marker that may open a rule file.
pub open spec fn is_marker(line: Seq<char>) -> bool {
    trimmed(line) == "---"@
}

/// The lines of the text from `from` on, each taken apart, after those of
/// `acc`.
pub open spec fn tokenized_all(text: Seq<Seq<char>>, from: int, acc: Seq<RuleLineView>) -> Result<
    Seq<RuleLineView>,
    ConfigError,
>
    decreases text.len() - from,
{
    if from < 0 || from >= text.len() {
        Ok(acc)
    } else {
        match tokenized(text[from]) {
            Err(e) => Err(e),
            Ok(line) => tokenized_all(text, from + 1, acc.push(line)),
        }
    }
}

/// The steps that the lines of a rule file hold; or why they hold none.
/// Every line must be well formed before any step is made of them.
pub open spec fn loaded(text: Seq<Seq<char>>) -> Result<Seq<StepView>, ConfigError> {
    match tokenized_all(
        text,
        if text.len() > 0 && is_marker(text[0]) {
            1
        } else {
            0
        },
        Seq::empty(),
    ) {
        Err(e) => Err(e),
        Ok(lines) => if lines.len() == 0 {
            Ok(Seq::empty())
        } else {
            steps_from(lines, 0, lines[0].indent, Seq::empty())
        },
    }
}

/// Where the lines from `from` on that are indented deeper than `indent`
/// end.
pub(crate) fn find_block_end(lines: &Vec<RuleLine>, from: usize, indent: usize) -> (r: usize)
    requires
        from <= lines@.len(),
    ensures
        r == block_end(rule_views(lines@), from as int, indent as nat),
        from <= r <= lines@.len(),
{
    let mut i: usize = from;
    while i < lines.len()
        invariant
            from <= i <= lines.len(),
            block_end(rule_views(lines@), i as int, indent as nat) == block_end(
                rule_views(lines@),
                from as int,
                indent as nat,
            ),
        decreases lines.len() - i,
    {
        assert(rule_views(lines@)[i as int] == lines@[i as int]@);
        if lines[i].indent <= indent {
            return i;
        }
        i += 1;
    }
    i
}

/// Where the item that the line at `pos` opens ends.
pub(crate) fn find_item_end(lines: &Vec<RuleLine>, pos: usize, end: usize) -> (r: usize)
    requires
        pos < end <= lines@.len(),
    ensures
        r == item_end(rule_views(lines@), pos as int, end as int),
        pos < r <= end,
{
    assert(rule_views(lines@)[pos as int] == lines@[pos as int]@);
    let stop = find_block_end(lines, pos + 1, lines[pos].indent);
    if stop < end {
        stop
    } else {
        end
    }
}

/// Whether the key is one of `and`, `or`, `not`.
fn key_is_connective(key: &str) -> (r: bool)
    ensures
        r == is_connective(key@),
{
    str_eq(key, "and") || str_eq(key, "or") || str_eq(key, "not")
}

/// The condition that a connective makes of the conditions below it.
fn make_connective(key: &str, children: Vec<Condition>) -> (c: Condition)
    ensures
        c@ == connective(key@, condition_views(children@)),
{
    let ghost views = condition_views(children@);
    if str_eq(key, "and") {
        let c = Condition::And(children);
        assert(c@->And_0 =~= views);
        c
    } else if str_eq(key, "or") {
        let c = Condition::Or(children);
        assert(c@->Or_0 =~= views);
        c
    } else {
        let all = Condition::And(children);
        assert(all@->And_0 =~= views);
        Condition::Not(Box::new(all))
    }
}

/// Reads the conditions that the lines from `pos` up to `end` hold.
pub(crate) fn parse_conditions(lines: &Vec<RuleLine>, pos: usize, end: usize) -> (r: Result<
    Vec<Condition>,
    ConfigError,
>)
    requires
        pos <= end <= lines@.len(),
    ensures
        match r {
            Ok(cs) => conditions_in(rule_views(lines@), pos as int, end as int, Seq::empty())
                == Ok::<Seq<ConditionView>, ConfigError>(condition_views(cs@)),
            Err(e) => conditions_in(rule_views(lines@), pos as int, end as int, Seq::empty())
                == Err::<Seq<ConditionView>, ConfigError>(e),
        },
    decreases end - pos,
{
    let ghost lv = rule_views(lines@);
    let mut out: Vec<Condition> = Vec::new();
    let mut cur: usize = pos;
    assert(condition_views(out@) =~= Seq::<ConditionView>::empty());
    while cur < end
        invariant
            pos <= cur <= end,
            end <= lines@.len(),
            lv == rule_views(lines@),
            conditions_in(lv, pos as int, end as int, Seq::empty()) == conditions_in(
                lv,
                cur as int,
                end as int,
                condition_views(out@),
            ),
        decreases end - cur,
    {
        let ghost before = condition_views(out@);
        let stop = find_item_end(lines, cur, end);
        let line = &lines[cur];
        assert(lv[cur as int] == line@);
        let c = if key_is_connective(line.key.as_str()) {
            if line.value.as_str().unicode_len() > 0 {
                return Err(ConfigError::MalformedLine);
            }
            match parse_conditions(lines, cur + 1, stop) {
                Err(e) => {
                    return Err(e);
                },
                Ok(children) => make_connective(line.key.as_str(), children),
            }
        } else if stop > cur + 1 {
            return Err(ConfigError::MalformedLine);
        } else if value_is_list(line.value.as_str()) {
            Condition::FieldIn { field: line.key.clone(), values: list_items(line.value.as_str()) }
        } else {
            Condition::FieldEquals { field: line.key.clone(), value: line.value.clone() }
        };
        assert(condition_at(lv, cur as int, stop as int) == Ok::<ConditionView, ConfigError>(c@));
        out.push(c);
        assert(condition_views(out@) =~= before.push(c@));
        cur = stop;
    }
    Ok(out)
}

impl Replacement {
    /// Reads the replacement that a line holds.
    pub fn parse(line: &RuleLine) -> (r: Result<Replacement, ConfigError>)
        ensures
            match r {
                Ok(rep) => replacement_at(line@) == Ok::<ReplacementView, ConfigError>(rep@),
                Err(e) => replacement_at(line@) == Err::<ReplacementView, ConfigError>(e),
            },
    {
        let key = line.key.as_str();
        let len = key.unicode_len();
        let dot = find_char(key, '.', 0);
        if dot >= len {
            return Err(ConfigError::MalformedLine);
        }
        let kind = match AchRecordType::from_name(substring(key, 0, dot).as_str()) {
            None => {
                return Err(ConfigError::UnknownRecordType);
            },
            Some(kind) => kind,
        };
        let field = substring(key, dot + 1, len);
        match kind.position(field.as_str()) {
            None => Err(ConfigError::UnknownKey),
            Some(_) => Ok(Replacement { record: kind, field, replace_with: line.value.clone() }),
        }
    }
}

/// Reads the replacements that the lines from `pos` up to `end` hold.
pub(crate) fn parse_replacements(lines: &Vec<RuleLine>, pos: usize, end: usize) -> (r: Result<
    Vec<Replacement>,
    ConfigError,
>)
    requires
        pos <= end <= lines@.len(),
    ensures
        match r {
            Ok(rs) => replacements_in(rule_views(lines@), pos as int, end as int, Seq::empty())
                == Ok::<Seq<ReplacementView>, ConfigError>(replacement_views(rs@)),
            Err(e) => replacements_in(rule_views(lines@), pos as int, end as int, Seq::empty())
                == Err::<Seq<ReplacementView>, ConfigError>(e),
        },
{
    let ghost lv = rule_views(lines@);
    let mut out: Vec<Replacement> = Vec::new();
    let mut cur: usize = pos;
    assert(replacement_views(out@) =~= Seq::<ReplacementView>::empty());
    while cur < end
        invariant
            pos <= cur <= end,
            end <= lines@.len(),
            lv == rule_views(lines@),
            replacements_in(lv, pos as int, end as int, Seq::empty()) == replacements_in(
                lv,
                cur as int,
                end as int,
                replacement_views(out@),
            ),
        decreases end - cur,
    {
        let ghost before = replacement_views(out@);
        assert(lv[cur as int] == lines@[cur as int]@);
        match Replacement::parse(&lines[cur]) {
            Err(e) => {
                return Err(e);
            },
            Ok(rep) => {
                out.push(rep);
                assert(replacement_views(out@) =~= before.push(rep@));
            },
        }
        cur += 1;
    }
    Ok(out)
}

impl Steps {
    /// Adds to the step the setting that the line at `pos` opens and that
    /// ends at `stop`.  After a failure the step is as it was.
    pub(crate) fn set(&mut self, lines: &Vec<RuleLine>, pos: usize, stop: usize) -> (r: Result<
        (),
        ConfigError,
    >)
        requires
            pos < stop <= lines@.len(),
        ensures
            match with_setting(rule_views(lines@), pos as int, stop as int, old(self)@) {
                Ok(step) => r is Ok && final(self)@ == step,
                Err(e) => r == Err::<(), ConfigError>(e) && final(self)@ == old(self)@,
            },
    {
        let line = &lines[pos];
        assert(rule_views(lines@)[pos as int] == line@);
        let key = line.key.as_str();
        let value = line.value.as_str();
        if str_eq(key, "operation") {
            if stop > pos + 1 {
                return Err(ConfigError::MalformedLine);
            }
            let mut ops = match OperationType::new_vec(value) {
                Err(e) => {
                    return Err(e);
                },
                Ok(ops) => ops,
            };
            self.operation.append(&mut ops);
            Ok(())
        } else if str_eq(key, "on") {
            if stop > pos + 1 {
                return Err(ConfigError::MalformedLine);
            }
            let mut kinds = match record_types(value) {
                Err(e) => {
                    return Err(e);
                },
                Ok(kinds) => kinds,
            };
            self.on.append(&mut kinds);
            Ok(())
        } else if str_eq(key, "conditions") {
            if value.unicode_len() > 0 {
                return Err(ConfigError::MalformedLine);
            }
            let mut cs = match parse_conditions(lines, pos + 1, stop) {
                Err(e) => {
                    return Err(e);
                },
                Ok(cs) => cs,
            };
            let ghost added = condition_views(cs@);
            self.conditions.append(&mut cs);
            assert(condition_views(self.conditions@) =~= old(self)@.conditions + added);
            Ok(())
        } else if str_eq(key, "replacements") {
            if value.unicode_len() > 0 {
                return Err(ConfigError::MalformedLine);
            }
            let mut rs = match parse_replacements(lines, pos + 1, stop) {
                Err(e) => {
                    return Err(e);
                },
                Ok(rs) => rs,
            };
            let ghost added = replacement_views(rs@);
            self.replacements.append(&mut rs);
            assert(replacement_views(self.replacements@) =~= old(self)@.replacements + added);
            Ok(())
        } else {
            Err(ConfigError::UnknownKey)
        }
    }

    /// Reads the step that the line at `pos` opens and that ends at `end`.
    pub(crate) fn parse(lines: &Vec<RuleLine>, pos: usize, end: usize) -> (r: Result<
        Steps,
        ConfigError,
    >)
        requires
            pos < end <= lines@.len(),
        ensures
            match r {
                Ok(step) => step_at(rule_views(lines@), pos as int, end as int) == Ok::<
                    StepView,
                    ConfigError,
                >(step@),
                Err(e) => step_at(rule_views(lines@), pos as int, end as int) == Err::<
                    StepView,
                    ConfigError,
                >(e),
            },
    {
        let ghost lv = rule_views(lines@);
        let first = &lines[pos];
        assert(lv[pos as int] == first@);
        if first.value.as_str().unicode_len() > 0 {
            return Err(ConfigError::MalformedLine);
        }
        let mut step = Steps {
            label: first.key.clone(),
            operation: Vec::new(),
            on: Vec::new(),
            conditions: Vec::new(),
            replacements: Vec::new(),
        };
        assert(step@ =~= bare_step(first@.key)) by {
            assert(step@.operation =~= Seq::<OperationType>::empty());
            assert(step@.on =~= Seq::<AchRecordType>::empty());
            assert(step@.conditions =~= Seq::<ConditionView>::empty());
            assert(step@.replacements =~= Seq::<ReplacementView>::empty());
        }
        let mut cur: usize = pos + 1;
        while cur < end
            invariant
                pos < cur <= end,
                end <= lines@.len(),
                lv == rule_views(lines@),
                lv[pos as int].value.len() == 0,
                step_body(lv, pos + 1, end as int, bare_step(lv[pos as int].key)) == step_body(
                    lv,
                    cur as int,
                    end as int,
                    step@,
                ),
            decreases end - cur,
        {
            let stop = find_item_end(lines, cur, end);
            match step.set(lines, cur, stop) {
                Err(e) => {
                    return Err(e);
                },
                Ok(()) => {},
            }
            cur = stop;
        }
        if step.operation.len() == 0 {
            return Err(ConfigError::UnknownOperation);
        }
        if step.on.len() == 0 {
            step.on.push(AchRecordType::Header);
            assert(step@.on =~= seq![AchRecordType::Header]);
        }
        Ok(step)
    }
}

/// Takes the lines of a rule file apart, the marker line passed over.
pub fn tokenize(text: &Vec<String>) -> (r: Result<Vec<RuleLine>, ConfigError>)
    ensures
        match r {
            Ok(lines) => tokenized_all(
                line_views(text@),
                if text@.len() > 0 && is_marker(text@[0]@) {
                    1
                } else {
                    0
                },
                Seq::empty(),
            ) == Ok::<Seq<RuleLineView>, ConfigError>(rule_views(lines@)),
            Err(e) => tokenized_all(
                line_views(text@),
                if text@.len() > 0 && is_marker(text@[0]@) {
                    1
                } else {
                    0
                },
                Seq::empty(),
            ) == Err::<Seq<RuleLineView>, ConfigError>(e),
        },
{
    let ghost tv = line_views(text@);
    let mut out: Vec<RuleLine> = Vec::new();
    let start: usize = if text.len() > 0 && str_eq(trim(text[0].as_str()).as_str(), "---") {
        1
    } else {
        0
    };
    let mut i: usize = start;
    assert(rule_views(out@) =~= Seq::<RuleLineView>::empty());
    while i < text.len()
        invariant
            start <= i <= text.len(),
            tv == line_views(text@),
            start == if text@.len() > 0 && is_marker(text@[0]@) {
                1int
            } else {
                0int
            },
            tokenized_all(tv, start as int, Seq::empty()) == tokenized_all(
                tv,
                i as int,
                rule_views(out@),
            ),
        decreases text.len() - i,
    {
        let ghost before = rule_views(out@);
        assert(tv[i as int] == text@[i as int]@);
        match RuleLine::parse(text[i].as_str()) {
            Err(e) => {
                return Err(e);
            },
            Ok(line) => {
                out.push(line);
                assert(rule_views(out@) =~= before.push(line@));
            },
        }
        i += 1;
    }
    Ok(out)
}

/// Reads the steps of a rule file from its lines.
pub fn load_steps(text: &Vec<String>) -> (r: Result<Vec<Steps>, ConfigError>)
    ensures
        match r {
            Ok(steps) => loaded(line_views(text@)) == Ok::<Seq<StepView>, ConfigError>(
                step_views(steps@),
            ),
            Err(e) => loaded(line_views(text@)) == Err::<Seq<StepView>, ConfigError>(e),
        },
{
    let lines = match tokenize(text) {
        Err(e) => {
            return Err(e);
        },
        Ok(lines) => lines,
    };
    let ghost lv = rule_views(lines@);
    let mut out: Vec<Steps> = Vec::new();
    assert(step_views(out@) =~= Seq::<StepView>::empty());
    if lines.len() == 0 {
        return Ok(out);
    }
    let base = lines[0].indent;
    assert(lv[0] == lines@[0]@);
    let mut cur: usize = 0;
    while cur < lines.len()
        invariant
            cur <= lines.len(),
            lv == rule_views(lines@),
            loaded(line_views(text@)) == steps_from(lv, 0, base as nat, Seq::empty()),
            steps_from(lv, 0, base as nat, Seq::empty()) == steps_from(
                lv,
                cur as int,
                base as nat,
                step_views(out@),
            ),
        decreases lines.len() - cur,
    {
        let ghost before = step_views(out@);
        let end = find_block_end(&lines, cur + 1, base);
        match Steps::parse(&lines, cur, end) {
            Err(e) => {
                return Err(e);
            },
            Ok(step) => {
                out.push(step);
                assert(step_views(out@) =~= before.push(step@));
            },
        }
        cur = end;
    }
    Ok(out)
}

} // verus!
