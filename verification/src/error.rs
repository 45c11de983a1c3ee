//! The errors that decoding, rule loading and transforming can end in.

use crate::layout::AchRecordType;
use vstd::prelude::*;

verus! {

/// Why a sequence of lines could not be decoded into a file.
#[derive(Debug, Clone, Copy, PartialEq, Eq, Structural)]
pub enum DecodeError {
    /// A line at file scope starts with a character that opens no record.
    UnrecognizedRecordType(char),
    /// The lines ran out before the file trailer was seen.
    UnexpectedEof,
    /// The source of the lines failed before the file trailer was seen.
    IoFailure,
    /// A batch was interrupted by a foreign record before its trailer.
    MalformedBatch,
}

/// Why a rule file could not be loaded.
#[derive(Debug, Clone, Copy, PartialEq, Eq, Structural)]
pub enum ConfigError {
    /// A line is not of the form `key: value`.
    MalformedLine,
    /// A key is not known where it stands.
    UnknownKey,
    /// An operation is neither `split` nor `replace`.
    UnknownOperation,
    /// A record type name is not one of the six record kinds.
    UnknownRecordType,
}

/// What did not fit: the kind of record, the name of the field, and the
/// content that is wider than the field.  Where a derived aggregate does not
/// fit its trailer field, the value is empty: the aggregate is the content
/// of no field.
#[derive(Debug, PartialEq, Eq)]
pub struct Overflow {
    pub record: AchRecordType,
    pub field: String,
    pub value: String,
}

impl Clone for Overflow {
    fn clone(&self) -> (r: Overflow)
        ensures
            r@ == self@,
    {
        Overflow { record: self.record, field: self.field.clone(), value: self.value.clone() }
    }
}

/// The mathematical value of an [`Overflow`].
pub ghost struct OverflowView {
    pub record: AchRecordType,
    pub field: Seq<char>,
    pub value: Seq<char>,
}

impl View for Overflow {
    type V = OverflowView;

    open spec fn view(&self) -> OverflowView {
        OverflowView { record: self.record, field: self.field@, value: self.value@ }
    }
}

/// Why a file could not be transformed or rendered.
#[derive(Debug, PartialEq, Eq)]
pub enum TransformError {
    /// A field's content, or a derived aggregate, is wider than its field.
    FieldOverflow(Overflow),
    /// A rule names a field that the record under its hand does not have.
    ConditionEvalFailure,
    /// An entry's addenda indicator disagrees with the addenda it owns.
    AddendaIndicatorMismatch,
}

impl Clone for TransformError {
    fn clone(&self) -> (r: TransformError)
        ensures
            r@ == self@,
    {
        match self {
            TransformError::FieldOverflow(o) => TransformError::FieldOverflow(o.clone()),
            TransformError::ConditionEvalFailure => TransformError::ConditionEvalFailure,
            TransformError::AddendaIndicatorMismatch => TransformError::AddendaIndicatorMismatch,
        }
    }
}

/// The mathematical value of a [`TransformError`].
pub ghost enum TransformErrorView {
    FieldOverflow(OverflowView),
    ConditionEvalFailure,
    AddendaIndicatorMismatch,
}

impl View for TransformError {
    type V = TransformErrorView;

    open spec fn view(&self) -> TransformErrorView {
        match self {
            TransformError::FieldOverflow(o) => TransformErrorView::FieldOverflow(o@),
            TransformError::ConditionEvalFailure => TransformErrorView::ConditionEvalFailure,
            TransformError::AddendaIndicatorMismatch => TransformErrorView::AddendaIndicatorMismatch,
        }
    }
}

/// The result with its failure, if it is one, as a mathematical value.
pub open spec fn outcome<T>(r: Result<T, TransformError>) -> Result<T, TransformErrorView> {
    match r {
        Ok(v) => Ok(v),
        Err(e) => Err(e@),
    }
}

/// The result `r` is the failure `e`.
pub open spec fn fails_with<T>(r: Result<T, TransformError>, e: TransformErrorView) -> bool {
    r matches Err(x) && x@ == e
}

/// The result `r` is the failure to fit that `o` reports.
pub open spec fn overflows_with<T>(r: Result<T, TransformError>, o: OverflowView) -> bool {
    fails_with(r, TransformErrorView::FieldOverflow(o))
}

/// The result `r` is a success where nothing is reported, and the failure
/// to fit that is reported otherwise.
pub open spec fn reports<T>(r: Result<T, TransformError>, o: Option<OverflowView>) -> bool {
    match o {
        None => r is Ok,
        Some(o) => overflows_with(r, o),
    }
}

/// The stage of the pipeline that failed, with its error.
#[derive(Debug, PartialEq, Eq)]
pub enum AchErrorKind {
    Decode(DecodeError),
    Config(ConfigError),
    Transform(TransformError),
}

/// Any failure of the decode, load, transform, encode pipeline.
#[derive(Debug, PartialEq, Eq)]
pub struct AchError {
    pub kind: AchErrorKind,
}

impl Clone for AchError {
    fn clone(&self) -> (r: AchError)
        ensures
            r@ == self@,
    {
        let kind = match &self.kind {
            AchErrorKind::Decode(e) => AchErrorKind::Decode(*e),
            AchErrorKind::Config(e) => AchErrorKind::Config(*e),
            AchErrorKind::Transform(e) => AchErrorKind::Transform(e.clone()),
        };
        AchError { kind }
    }
}

/// The mathematical value of an [`AchError`].
pub ghost enum AchErrorView {
    Decode(DecodeError),
    Config(ConfigError),
    Transform(TransformErrorView),
}

impl View for AchError {
    type V = AchErrorView;

    open spec fn view(&self) -> AchErrorView {
        match self.kind {
            AchErrorKind::Decode(e) => AchErrorView::Decode(e),
            AchErrorKind::Config(e) => AchErrorView::Config(e),
            AchErrorKind::Transform(e) => AchErrorView::Transform(e@),
        }
    }
}

impl AchError {
    /// The failure of decoding with `e`.
    pub fn from_decode(e: DecodeError) -> (r: AchError)
        ensures
            r@ == AchErrorView::Decode(e),
    {
        AchError { kind: AchErrorKind::Decode(e) }
    }

    /// The failure of loading rules with `e`.
    pub fn from_config(e: ConfigError) -> (r: AchError)
        ensures
            r@ == AchErrorView::Config(e),
    {
        AchError { kind: AchErrorKind::Config(e) }
    }

    /// The failure of transforming or encoding with `e`.
    pub fn from_transform(e: TransformError) -> (r: AchError)
        ensures
            r@ == AchErrorView::Transform(e@),
    {
        AchError { kind: AchErrorKind::Transform(e) }
    }

    /// The message of every failure, whatever its kind.
    pub fn to_string(&self) -> (s: String)
        ensures
            s@ == "ach error"@,
    {
        "ach error".to_string()
    }
}

} // verus!
