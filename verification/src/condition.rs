//! Conditions on the fields of a record.
//!
//! A condition is a tree.  Its leaves compare the content of a named field
//! with one value or with a list of values; its inner nodes are conjunction,
//! disjunction and negation.  Conjunctions and disjunctions are evaluated
//! from left to right and stop at the first operand that decides them.  A
//! leaf that names a field which the record does not have cannot be
//! evaluated.

use crate::ach_file::AchRecord;
use crate::error::{outcome, TransformError, TransformErrorView};
use crate::field::{Field, FieldView};
use crate::layout::{layout, position_of, ref_views, AchRecordType};
use crate::text::{line_views, str_eq};
use vstd::prelude::*;
use vstd::string::*;

verus! {

/// A condition on the fields of one record.
#[derive(Debug)]
pub enum Condition {
    /// The named field holds exactly the value.
    FieldEquals { field: String, value: String },
    /// The named field holds exactly one of the values.
    FieldIn { field: String, values: Vec<String> },
    /// Every one of the conditions holds.
    And(Vec<Condition>),
    /// At least one of the conditions holds.
    Or(Vec<Condition>),
    /// The condition does not hold.
    Not(Box<Condition>),
}

/// The mathematical value of a [`Condition`].
pub ghost enum ConditionView {
    FieldEquals { field: Seq<char>, value: Seq<char> },
    FieldIn { field: Seq<char>, values: Seq<Seq<char>> },
    And(Seq<ConditionView>),
    Or(Seq<ConditionView>),
    Not(Box<ConditionView>),
}

impl Condition {
    /// The mathematical value of the condition.
    pub open spec fn view(&self) -> ConditionView
        decreases self,
    {
        match self {
            Condition::FieldEquals { field, value } => ConditionView::FieldEquals {
                field: field@,
                value: value@,
            },
            Condition::FieldIn { field, values } => ConditionView::FieldIn {
                field: field@,
                values: line_views(values@),
            },
            Condition::And(cs) => ConditionView::And(
                Seq::new(
                    cs@.len(),
                    |i: int|
                        if 0 <= i < cs@.len() {
                            cs@[i].view()
                        } else {
                            arbitrary()
                        },
                ),
            ),
            Condition::Or(cs) => ConditionView::Or(
                Seq::new(
                    cs@.len(),
                    |i: int|
                        if 0 <= i < cs@.len() {
                            cs@[i].view()
                        } else {
                            arbitrary()
                        },
                ),
            ),
            Condition::Not(c) => ConditionView::Not(Box::new(c.view())),
        }
    }
}

/// The values of a sequence of conditions.
pub open spec fn condition_views(cs: Seq<Condition>) -> Seq<ConditionView> {
    Seq::new(cs.len(), |i: int| cs[i]@)
}

/// The content of the field called `name` in a record of the given kind, if
/// that kind of record has such a field.
pub open spec fn content_of(kind: AchRecordType, fields: Seq<FieldView>, name: Seq<char>) -> Option<
    Seq<char>,
> {
    match position_of(layout(kind), name) {
        Some(i) => Some(fields[i].content),
        None => None,
    }
}

/// What a condition comes to on a record of the given kind.
pub open spec fn eval(c: ConditionView, kind: AchRecordType, fields: Seq<FieldView>) -> Result<
    bool,
    TransformErrorView,
>
    decreases c, 0nat,
{
    match c {
        ConditionView::FieldEquals { field, value } => match content_of(kind, fields, field) {
            Some(content) => Ok(content == value),
            None => Err(TransformErrorView::ConditionEvalFailure),
        },
        ConditionView::FieldIn { field, values } => match content_of(kind, fields, field) {
            Some(content) => Ok(values.contains(content)),
            None => Err(TransformErrorView::ConditionEvalFailure),
        },
        ConditionView::And(cs) => eval_all(cs, 0, kind, fields),
        ConditionView::Or(cs) => eval_any(cs, 0, kind, fields),
        ConditionView::Not(inner) => match eval(*inner, kind, fields) {
            Ok(b) => Ok(!b),
            Err(e) => Err(e),
        },
    }
}

/// What the conjunction of the conditions from the `i`th on comes to: the
/// first that fails to hold, or cannot be evaluated, decides.
pub open spec fn eval_all(
    cs: Seq<ConditionView>,
    i: int,
    kind: AchRecordType,
    fields: Seq<FieldView>,
) -> Result<bool, TransformErrorView>
    decreases cs, cs.len() - i,
{
    if i < 0 || i >= cs.len() {
        Ok(true)
    } else {
        match eval(cs[i], kind, fields) {
            Ok(true) => eval_all(cs, i + 1, kind, fields),
            Ok(false) => Ok(false),
            Err(e) => Err(e),
        }
    }
}

/// What the disjunction of the conditions from the `i`th on comes to: the
/// first that holds, or cannot be evaluated, decides.
pub open spec fn eval_any(
    cs: Seq<ConditionView>,
    i: int,
    kind: AchRecordType,
    fields: Seq<FieldView>,
) -> Result<bool, TransformErrorView>
    decreases cs, cs.len() - i,
{
    if i < 0 || i >= cs.len() {
        Ok(false)
    } else {
        match eval(cs[i], kind, fields) {
            Ok(false) => eval_any(cs, i + 1, kind, fields),
            Ok(true) => Ok(true),
            Err(e) => Err(e),
        }
    }
}

/// The field called `name` of a record of the given kind, if that kind of
/// record has such a field.
pub(crate) fn field_named<'a>(kind: AchRecordType, fields: &Vec<&'a Field>, name: &str) -> (r: Option<
    &'a Field,
>)
    requires
        fields@.len() == layout(kind).len(),
    ensures
        match r {
            Some(f) => content_of(kind, ref_views(fields@), name@) == Some(f@.content),
            None => content_of(kind, ref_views(fields@), name@) is None,
        },
{
    match kind.position(name) {
        Some(i) => Some(fields[i]),
        None => None,
    }
}

/// Whether `value` is one of `values`.
pub fn is_one_of(value: &str, values: &Vec<String>) -> (r: bool)
    ensures
        r == line_views(values@).contains(value@),
{
    let mut i: usize = 0;
    while i < values.len()
        invariant
            i <= values.len(),
            forall|j: int| 0 <= j < i ==> line_views(values@)[j] != value@,
        decreases values.len() - i,
    {
        if str_eq(values[i].as_str(), value) {
            assert(line_views(values@)[i as int] == value@);
            return true;
        }
        i += 1;
    }
    false
}

impl Condition {
    /// Evaluates the condition on a record.  Conjunctions and disjunctions
    /// stop at the first operand that decides them; a comparison of a
    /// field that the record does not have fails with
    /// `ConditionEvalFailure`.
    pub fn holds<R: AchRecord>(&self, record: &R) -> (r: Result<bool, TransformError>)
        ensures
            outcome(r) == eval(self@, record.kind(), record.fields()),
    {
        let refs = record.field_refs();
        self.eval(record.record_type(), &refs)
    }

    /// Evaluates the condition on a record of the given kind, given by its
    /// fields in layout order.
    pub(crate) fn eval(&self, kind: AchRecordType, fields: &Vec<&Field>) -> (r: Result<
        bool,
        TransformError,
    >)
        requires
            fields@.len() == layout(kind).len(),
        ensures
            outcome(r) == eval(self@, kind, ref_views(fields@)),
        decreases self, 0nat,
    {
        match self {
            Condition::FieldEquals { field, value } => {
                match field_named(kind, fields, field.as_str()) {
                    Some(f) => Ok(f.content_is(value.as_str())),
                    None => Err(TransformError::ConditionEvalFailure),
                }
            },
            Condition::FieldIn { field, values } => {
                match field_named(kind, fields, field.as_str()) {
                    Some(f) => Ok(is_one_of(f.content.as_str(), values)),
                    None => Err(TransformError::ConditionEvalFailure),
                }
            },
            Condition::And(cs) => {
                assert(self@ == ConditionView::And(condition_views(cs@))) by {
                    assert(self@->And_0 =~= condition_views(cs@));
                }
                holds_all(cs, 0, kind, fields)
            },
            Condition::Or(cs) => {
                assert(self@ == ConditionView::Or(condition_views(cs@))) by {
                    assert(self@->Or_0 =~= condition_views(cs@));
                }
                holds_any(cs, 0, kind, fields)
            },
            Condition::Not(inner) => {
                match inner.eval(kind, fields) {
                    Ok(b) => Ok(!b),
                    Err(e) => Err(e),
                }
            },
        }
    }
}

/// Evaluates the conjunction of the conditions from the `i`th on.
pub(crate) fn holds_all(cs: &Vec<Condition>, i: usize, kind: AchRecordType, fields: &Vec<&Field>) -> (r:
    Result<bool, TransformError>)
    requires
        fields@.len() == layout(kind).len(),
    ensures
        outcome(r) == eval_all(condition_views(cs@), i as int, kind, ref_views(fields@)),
    decreases cs, cs.len() - i,
{
    if i >= cs.len() {
        Ok(true)
    } else {
        match cs[i].eval(kind, fields) {
            Ok(true) => holds_all(cs, i + 1, kind, fields),
            Ok(false) => Ok(false),
            Err(e) => Err(e),
        }
    }
}

/// Evaluates the disjunction of the conditions from the `i`th on.
pub(crate) fn holds_any(cs: &Vec<Condition>, i: usize, kind: AchRecordType, fields: &Vec<&Field>) -> (r:
    Result<bool, TransformError>)
    requires
        fields@.len() == layout(kind).len(),
    ensures
        outcome(r) == eval_any(condition_views(cs@), i as int, kind, ref_views(fields@)),
    decreases cs, cs.len() - i,
{
    if i >= cs.len() {
        Ok(false)
    } else {
        match cs[i].eval(kind, fields) {
            Ok(false) => holds_any(cs, i + 1, kind, fields),
            Ok(true) => Ok(true),
            Err(e) => Err(e),
        }
    }
}

} // verus!
