//! The closed cell-value union every tabular source is normalized into, its
//! mathematical model, and the two text-to-value coercions: one for CSV
//! cells, one for command-line globals.
//!
//! Floating-point cells keep the numeric literal itself (commas already
//! normalized to dots): the library never computes with the number, it only
//! classifies and carries it, so the literal is the faithful representation.

use vstd::prelude::*;

use crate::numbers::{
    is_float_literal_chars, parse_bool_chars, parse_i64_chars, spec_is_float_literal,
    spec_parse_bool, spec_parse_i64,
};
use crate::text::{commas_to_dots, spec_commas_to_dots};

verus! {

/// Spreadsheet error codes, mirrored one to one.
#[derive(Clone, Copy, Debug, PartialEq, Eq, Structural)]
pub enum CtxErrorType {
    /// Division by 0 error
    Div0,
    /// Unavailable value error
    NA,
    /// Invalid name error
    Name,
    /// Null value error
    Null,
    /// Number error
    Num,
    /// Invalid cell reference error
    Ref,
    /// Value error
    Value,
    /// Getting data
    GettingData,
}

/// A source cell or template-bound value. The variant set is closed: no
/// other cell shape may appear in a row.
#[derive(Debug, PartialEq, Eq)]
pub enum CtxValue {
    Int(i64),
    /// A floating-point number, kept as its decimal literal.
    Float(String),
    Text(String),
    Bool(bool),
    /// A spreadsheet date, kept as the decimal literal of its serial number.
    DateTime(String),
    ErrorCell(CtxErrorType),
    Empty,
}

/// The model of a cell value: strings become character sequences.
pub enum CellModel {
    Int(i64),
    Float(Seq<char>),
    Text(Seq<char>),
    Bool(bool),
    DateTime(Seq<char>),
    ErrorCell(CtxErrorType),
    Empty,
}

impl Clone for CtxValue {
    fn clone(&self) -> (res: Self)
        ensures
            res@ == self@,
    {
        match self {
            CtxValue::Int(v) => CtxValue::Int(*v),
            CtxValue::Float(t) => CtxValue::Float(t.clone()),
            CtxValue::Text(t) => CtxValue::Text(t.clone()),
            CtxValue::Bool(b) => CtxValue::Bool(*b),
            CtxValue::DateTime(t) => CtxValue::DateTime(t.clone()),
            CtxValue::ErrorCell(e) => CtxValue::ErrorCell(*e),
            CtxValue::Empty => CtxValue::Empty,
        }
    }
}

impl View for CtxValue {
    type V = CellModel;

    open spec fn view(&self) -> CellModel {
        match self {
            CtxValue::Int(v) => CellModel::Int(*v),
            CtxValue::Float(t) => CellModel::Float(t@),
            CtxValue::Text(t) => CellModel::Text(t@),
            CtxValue::Bool(b) => CellModel::Bool(*b),
            CtxValue::DateTime(t) => CellModel::DateTime(t@),
            CtxValue::ErrorCell(e) => CellModel::ErrorCell(*e),
            CtxValue::Empty => CellModel::Empty,
        }
    }
}

/// The fixed spelling each error code serializes to.
pub open spec fn spec_error_text(e: CtxErrorType) -> Seq<char> {
    match e {
        CtxErrorType::Div0 => "#DIV/0!"@,
        CtxErrorType::NA => "#N/A"@,
        CtxErrorType::Name => "#NAME?"@,
        CtxErrorType::Null => "#NULL!"@,
        CtxErrorType::Num => "#NUM!"@,
        CtxErrorType::Ref => "#REF!"@,
        CtxErrorType::Value => "#VALUE!"@,
        CtxErrorType::GettingData => "#UNKNOWN!"@,
    }
}

/// The string an error cell serializes to.
pub fn error_text(e: &CtxErrorType) -> (r: String)
    ensures
        r@ == spec_error_text(*e),
{
    match e {
        CtxErrorType::Div0 => "#DIV/0!".to_owned(),
        CtxErrorType::NA => "#N/A".to_owned(),
        CtxErrorType::Name => "#NAME?".to_owned(),
        CtxErrorType::Null => "#NULL!".to_owned(),
        CtxErrorType::Num => "#NUM!".to_owned(),
        CtxErrorType::Ref => "#REF!".to_owned(),
        CtxErrorType::Value => "#VALUE!".to_owned(),
        CtxErrorType::GettingData => "#UNKNOWN!".to_owned(),
    }
}

/// The characters of `s` as a vector.
pub fn chars_of(s: &str) -> (r: Vec<char>)
    ensures
        r@ == s@,
{
    let len = s.unicode_len();
    let mut out: Vec<char> = Vec::new();
    let mut i: usize = 0;
    while i < len
        invariant
            i <= len,
            len == s@.len(),
            out@ =~= s@.subrange(0, i as int),
        decreases len - i,
    {
        out.push(s.get_char(i));
        i = i + 1;
        proof {
            assert(s@.subrange(0, i as int) =~= s@.subrange(0, i - 1).push(s@[i - 1]));
        }
    }
    proof {
        assert(s@.subrange(0, len as int) =~= s@);
    }
    out
}

/// What a trimmed CSV cell coerces to. In order: empty, integer (a
/// zero-padded nonzero spelling stays text so leading zeros survive), float,
/// float after `,` to `.`, boolean, text.
pub open spec fn spec_coerce(s: Seq<char>) -> CellModel {
    if s.len() == 0 {
        CellModel::Empty
    } else if spec_parse_i64(s) is Some {
        if s[0] == '0' && s != seq!['0'] {
            CellModel::Text(s)
        } else {
            CellModel::Int(spec_parse_i64(s)->Some_0)
        }
    } else if spec_is_float_literal(s) {
        CellModel::Float(s)
    } else if spec_is_float_literal(spec_commas_to_dots(s)) {
        CellModel::Float(spec_commas_to_dots(s))
    } else if spec_parse_bool(s) is Some {
        CellModel::Bool(spec_parse_bool(s)->Some_0)
    } else {
        CellModel::Text(s)
    }
}

/// Coerces one trimmed CSV cell.
pub fn coerce_cell(s: &str) -> (r: CtxValue)
    ensures
        r@ == spec_coerce(s@),
{
    let chars = chars_of(s);
    if chars.len() == 0 {
        return CtxValue::Empty;
    }
    if let Some(v) = parse_i64_chars(&chars) {
        if chars[0] == '0' && chars.len() > 1 {
            return CtxValue::Text(s.to_owned());
        } else {
            proof {
                if chars@[0] == '0' && chars@.len() == 1 {
                    assert(chars@ =~= seq!['0']);
                }
            }
            return CtxValue::Int(v);
        }
    }
    if is_float_literal_chars(&chars) {
        return CtxValue::Float(s.to_owned());
    }
    let normalized = commas_to_dots(s);
    let norm_chars = chars_of(normalized.as_str());
    if is_float_literal_chars(&norm_chars) {
        return CtxValue::Float(normalized);
    }
    if let Some(b) = parse_bool_chars(&chars) {
        return CtxValue::Bool(b);
    }
    CtxValue::Text(s.to_owned())
}

/// What a command-line global coerces to: `true`/`false`, else integer, else
/// float, else text. No zero-padding exception and no comma normalization
/// here.
pub open spec fn spec_coerce_global(s: Seq<char>) -> CellModel {
    if spec_parse_bool(s) is Some {
        CellModel::Bool(spec_parse_bool(s)->Some_0)
    } else if spec_parse_i64(s) is Some {
        CellModel::Int(spec_parse_i64(s)->Some_0)
    } else if spec_is_float_literal(s) {
        CellModel::Float(s)
    } else {
        CellModel::Text(s)
    }
}

/// Coerces one `name value` command-line global.
pub fn coerce_global(s: &str) -> (r: CtxValue)
    ensures
        r@ == spec_coerce_global(s@),
{
    let chars = chars_of(s);
    if let Some(b) = parse_bool_chars(&chars) {
        return CtxValue::Bool(b);
    }
    if let Some(v) = parse_i64_chars(&chars) {
        return CtxValue::Int(v);
    }
    if is_float_literal_chars(&chars) {
        return CtxValue::Float(s.to_owned());
    }
    CtxValue::Text(s.to_owned())
}

/// Coercion loses nothing a template could show: text cells keep the exact
/// source spelling, integer cells hold the number the source spelled, float
/// cells keep the literal (at most with `,` turned into `.`), booleans and
/// empties come only from their own spellings.
pub proof fn lemma_coerce_round_trip(s: Seq<char>)
    ensures
        spec_coerce(s) matches CellModel::Text(t) ==> t == s,
        spec_coerce(s) matches CellModel::Int(v) ==> spec_parse_i64(s) == Some(v),
        spec_coerce(s) matches CellModel::Float(t) ==> (t == s || t == spec_commas_to_dots(s))
            && spec_is_float_literal(t),
        spec_coerce(s) matches CellModel::Bool(b) ==> spec_parse_bool(s) == Some(b),
        spec_coerce(s) is Empty <==> s.len() == 0,
{
}

} // verus!
