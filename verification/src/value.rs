//! The value coercer and validator: turning one raw string into a typed
//! value according to a declared value type, then applying the declared
//! validator.  Coercion is pure: it reads neither the environment nor the
//! filesystem.

use vstd::prelude::*;

use crate::diag::{ErrV, ErrorKind, ValidationError};
use crate::digits::{int_canon, int_of, parse_i64, render_i64, valid_int_str};
use crate::schema::{ValueType, Validator};
use crate::strutil::{contains_char, join_names, joined, str_eq};
use vstd::utf8::encode_utf8;

verus! {

/// A typed result for one argument value.
#[derive(Debug, PartialEq, Eq)]
pub enum TypedValue {
    Text(String),
    Number(i64),
    Truth(bool),
    PathText(String),
    /// The matched variant name of a `Selection` argument.
    Selection(String),
}

/// The mathematical shadow of a `TypedValue`.
pub ghost enum TypedValueV {
    Text(Seq<char>),
    Number(i64),
    Truth(bool),
    PathText(Seq<char>),
    Selection(Seq<char>),
}

impl View for TypedValue {
    type V = TypedValueV;

    open spec fn view(&self) -> TypedValueV {
        match self {
            TypedValue::Text(s) => TypedValueV::Text(s@),
            TypedValue::Number(n) => TypedValueV::Number(*n),
            TypedValue::Truth(b) => TypedValueV::Truth(*b),
            TypedValue::PathText(s) => TypedValueV::PathText(s@),
            TypedValue::Selection(s) => TypedValueV::Selection(s@),
        }
    }
}

/// A coercion outcome, seen mathematically.
pub open spec fn coerce_view(r: Result<TypedValue, ValidationError>) -> Result<TypedValueV, ErrV> {
    match r {
        Ok(v) => Ok(v@),
        Err(e) => Err(e@),
    }
}

/// The basic well-formedness a string must show to pass as an email
/// address: it mentions `@` and `.` and its UTF-8 form is longer than five
/// bytes.
pub open spec fn email_ok(s: Seq<char>) -> bool {
    s.contains('@') && s.contains('.') && encode_utf8(s).len() > 5
}

/// What type coercion alone returns for a raw string, before any validator.
pub open spec fn spec_coerce_type(raw: Seq<char>, vt: ValueType) -> Result<TypedValueV, ErrV> {
    match vt {
        ValueType::Text => Ok(TypedValueV::Text(raw)),
        ValueType::PathText => Ok(TypedValueV::PathText(raw)),
        ValueType::Number => if valid_int_str(raw) {
            Ok(TypedValueV::Number(int_of(raw) as i64))
        } else {
            Err(
                ErrV {
                    kind: ErrorKind::TypeMismatch,
                    arg: None,
                    raw: Some(raw),
                    msg: "is not a base-ten integer"@,
                },
            )
        },
        ValueType::Truth => if raw == "true"@ || raw == "1"@ {
            Ok(TypedValueV::Truth(true))
        } else if raw == "false"@ || raw == "0"@ {
            Ok(TypedValueV::Truth(false))
        } else {
            Err(
                ErrV {
                    kind: ErrorKind::TypeMismatch,
                    arg: None,
                    raw: Some(raw),
                    msg: "is not one of true, false, 1, 0"@,
                },
            )
        },
        ValueType::Selection(cs) => if exists|k: int| 0 <= k < cs@.len() && (#[trigger] cs@[k])@
            == raw {
            Ok(TypedValueV::Selection(raw))
        } else {
            Err(
                ErrV {
                    kind: ErrorKind::TypeMismatch,
                    arg: None,
                    raw: Some(raw),
                    msg: "is not one of: "@ + joined(cs.deep_view()),
                },
            )
        },
    }
}

/// What the declared validator returns for an already-typed value.
pub open spec fn spec_validate_value(raw: Seq<char>, v: TypedValueV, va: Validator) -> Result<
    TypedValueV,
    ErrV,
> {
    match va {
        Validator::IntRange(lo, hi) => if v matches TypedValueV::Number(n) && lo <= n && n <= hi {
            Ok(v)
        } else {
            Err(
                ErrV {
                    kind: ErrorKind::OutOfRange,
                    arg: None,
                    raw: Some(raw),
                    msg: "must be between "@ + int_canon(lo as int) + " and "@ + int_canon(
                        hi as int,
                    ),
                },
            )
        },
        Validator::EmailFormat => if v matches TypedValueV::Text(t) && email_ok(t) {
            Ok(v)
        } else {
            Err(
                ErrV {
                    kind: ErrorKind::CustomRejected,
                    arg: None,
                    raw: Some(raw),
                    msg: "is not a valid email address"@,
                },
            )
        },
    }
}

/// The full coercion contract: type coercion first, then the validator, and
/// the first failure wins.
pub open spec fn spec_coerce(raw: Seq<char>, vt: ValueType, va: Option<Validator>) -> Result<
    TypedValueV,
    ErrV,
> {
    match spec_coerce_type(raw, vt) {
        Ok(v) => match va {
            None => Ok(v),
            Some(va) => spec_validate_value(raw, v, va),
        },
        Err(e) => Err(e),
    }
}

/// Whether `raw` equals one of the declared choice names.
fn is_choice(raw: &str, cs: &Vec<String>) -> (r: bool)
    ensures
        r == exists|k: int| 0 <= k < cs@.len() && (#[trigger] cs@[k])@ == raw@,
{
    let n = cs.len();
    let mut k: usize = 0;
    while k < n
        invariant
            0 <= k <= n,
            n == cs@.len(),
            forall|j: int| 0 <= j < k ==> (#[trigger] cs@[j])@ != raw@,
        decreases n - k,
    {
        if str_eq(raw, cs[k].as_str()) {
            return true;
        }
        k = k + 1;
    }
    false
}

/// Coerce one raw string to the declared type and run the declared
/// validator over it.  The result is exactly `spec_coerce`: `Ok` precisely
/// when the raw text is well typed and within the validator's bounds.
pub fn coerce(raw: &str, vt: &ValueType, va: Option<Validator>) -> (r: Result<
    TypedValue,
    ValidationError,
>)
    ensures
        coerce_view(r) == spec_coerce(raw@, *vt, va),
{
    let typed: TypedValue = match vt {
        ValueType::Text => TypedValue::Text(raw.to_owned()),
        ValueType::PathText => TypedValue::PathText(raw.to_owned()),
        ValueType::Number => {
            match parse_i64(raw) {
                Some(n) => TypedValue::Number(n),
                None => {
                    return Err(
                        ValidationError {
                            kind: ErrorKind::TypeMismatch,
                            arg_id: None,
                            raw: Some(raw.to_owned()),
                            message: "is not a base-ten integer".to_owned(),
                        },
                    );
                },
            }
        },
        ValueType::Truth => {
            if str_eq(raw, "true") || str_eq(raw, "1") {
                TypedValue::Truth(true)
            } else if str_eq(raw, "false") || str_eq(raw, "0") {
                TypedValue::Truth(false)
            } else {
                return Err(
                    ValidationError {
                        kind: ErrorKind::TypeMismatch,
                        arg_id: None,
                        raw: Some(raw.to_owned()),
                        message: "is not one of true, false, 1, 0".to_owned(),
                    },
                );
            }
        },
        ValueType::Selection(cs) => {
            if is_choice(raw, cs) {
                TypedValue::Selection(raw.to_owned())
            } else {
                let mut message = "is not one of: ".to_owned();
                let listed = join_names(cs);
                message.append(listed.as_str());
                return Err(
                    ValidationError {
                        kind: ErrorKind::TypeMismatch,
                        arg_id: None,
                        raw: Some(raw.to_owned()),
                        message,
                    },
                );
            }
        },
    };
    match va {
        None => Ok(typed),
        Some(Validator::IntRange(lo, hi)) => {
            let n = match &typed {
                TypedValue::Number(n) => Some(*n),
                _ => None,
            };
            let in_range = match n {
                Some(n) => lo <= n && n <= hi,
                None => false,
            };
            match in_range {
                true => Ok(typed),
                false => {
                    let mut message = "must be between ".to_owned();
                    let lo_s = render_i64(lo);
                    message.append(lo_s.as_str());
                    message.append(" and ");
                    let hi_s = render_i64(hi);
                    message.append(hi_s.as_str());
                    Err(
                        ValidationError {
                            kind: ErrorKind::OutOfRange,
                            arg_id: None,
                            raw: Some(raw.to_owned()),
                            message,
                        },
                    )
                },
            }
        },
        Some(Validator::EmailFormat) => {
            let t_ok = match &typed {
                TypedValue::Text(t) => {
                    contains_char(t.as_str(), '@') && contains_char(t.as_str(), '.')
                        && t.as_str().as_bytes().len() > 5
                },
                _ => false,
            };
            if t_ok {
                Ok(typed)
            } else {
                Err(
                    ValidationError {
                        kind: ErrorKind::CustomRejected,
                        arg_id: None,
                        raw: Some(raw.to_owned()),
                        message: "is not a valid email address".to_owned(),
                    },
                )
            }
        },
    }
}

/// The canonical string form of a typed value: numbers render in base ten,
/// booleans as `true`/`false`, text-like values as themselves.
pub open spec fn canonical_text(v: TypedValueV) -> Seq<char> {
    match v {
        TypedValueV::Text(s) => s,
        TypedValueV::Number(n) => int_canon(n as int),
        TypedValueV::Truth(b) => if b {
            "true"@
        } else {
            "false"@
        },
        TypedValueV::PathText(s) => s,
        TypedValueV::Selection(s) => s,
    }
}

/// Render a typed value in its canonical string form.
pub fn canonical_string(v: &TypedValue) -> (r: String)
    ensures
        r@ == canonical_text(v@),
{
    match v {
        TypedValue::Text(s) => s.clone(),
        TypedValue::Number(n) => render_i64(*n),
        TypedValue::Truth(b) => if *b {
            "true".to_owned()
        } else {
            "false".to_owned()
        },
        TypedValue::PathText(s) => s.clone(),
        TypedValue::Selection(s) => s.clone(),
    }
}

/// Idempotent re-coercion of numbers: coercing the canonical string of an
/// already-typed number, under the same declared range if any, yields the
/// same number again.
pub proof fn lemma_recoerce_number(n: i64, va: Option<Validator>)
    requires
        match va {
            None => true,
            Some(Validator::IntRange(lo, hi)) => lo <= n <= hi,
            Some(Validator::EmailFormat) => false,
        },
    ensures
        spec_coerce(canonical_text(TypedValueV::Number(n)), ValueType::Number, va) == Ok::<
            TypedValueV,
            ErrV,
        >(TypedValueV::Number(n)),
{
    crate::digits::lemma_int_canon_round_trip(n);
}

/// Idempotent re-coercion of booleans: the canonical `true`/`false` text
/// coerces back to the same boolean.
pub proof fn lemma_recoerce_truth(b: bool)
    ensures
        spec_coerce(canonical_text(TypedValueV::Truth(b)), ValueType::Truth, None) == Ok::<
            TypedValueV,
            ErrV,
        >(TypedValueV::Truth(b)),
{
    reveal_strlit("true");
    reveal_strlit("false");
    reveal_strlit("1");
    reveal_strlit("0");
    if !b {
        assert("false"@.len() == 5);
        assert("true"@.len() == 4);
        assert("1"@.len() == 1);
        assert("false"@ != "true"@);
        assert("false"@ != "1"@);
    }
}

/// Idempotent re-coercion of choices: a variant name taken from the
/// declared set coerces back to the same selection.
pub proof fn lemma_recoerce_selection(cs: Vec<String>, k: int)
    requires
        0 <= k < cs@.len(),
    ensures
        spec_coerce(canonical_text(TypedValueV::Selection(cs@[k]@)), ValueType::Selection(cs), None)
            == Ok::<TypedValueV, ErrV>(TypedValueV::Selection(cs@[k]@)),
{
    assert((cs@[k])@ == canonical_text(TypedValueV::Selection(cs@[k]@)));
}

/// Range enforcement: coercing under a declared inclusive range succeeds
/// exactly for the in-range integers, and rejects the rest as out of range.
pub proof fn lemma_range_enforcement(raw: Seq<char>, lo: i64, hi: i64)
    ensures
        (spec_coerce(raw, ValueType::Number, Some(Validator::IntRange(lo, hi))) is Ok) <==> (
        valid_int_str(raw) && lo <= int_of(raw) <= hi),
        valid_int_str(raw) && lo <= int_of(raw) <= hi ==> spec_coerce(
            raw,
            ValueType::Number,
            Some(Validator::IntRange(lo, hi)),
        ) == Ok::<TypedValueV, ErrV>(TypedValueV::Number(int_of(raw) as i64)),
        !valid_int_str(raw) ==> (spec_coerce(raw, ValueType::Number, Some(Validator::IntRange(lo, hi)))
            matches Err(e) && e.kind == ErrorKind::TypeMismatch),
        valid_int_str(raw) && !(lo <= int_of(raw) <= hi) ==> (spec_coerce(
            raw,
            ValueType::Number,
            Some(Validator::IntRange(lo, hi)),
        ) matches Err(e) && e.kind == ErrorKind::OutOfRange),
{
    if valid_int_str(raw) {
        crate::digits::lemma_dec_value_nonneg(crate::digits::signed_body(raw));
        assert(i64::MIN <= int_of(raw) <= i64::MAX);
    }
}


} // verus!
