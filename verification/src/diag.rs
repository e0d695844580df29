//! User-input errors and the diagnostic reporter: a uniform error value and
//! a pure, deterministic rendering of it.

use vstd::prelude::*;

verus! {

/// The kind of a user-input failure.
#[derive(Clone, Copy, PartialEq, Eq, Structural, Debug)]
pub enum ErrorKind {
    UnknownArgument,
    MissingRequired,
    TypeMismatch,
    OutOfRange,
    CustomRejected,
    DuplicateExclusive,
    AmbiguousSubcommand,
}

/// A user-input failure: its kind, the argument it concerns (when one is
/// known), the offending raw text (when there is one), and a short
/// human-readable message fragment.
#[derive(Debug)]
pub struct ValidationError {
    pub kind: ErrorKind,
    pub arg_id: Option<String>,
    pub raw: Option<String>,
    pub message: String,
}

/// The mathematical shadow of a `ValidationError`.
pub ghost struct ErrV {
    pub kind: ErrorKind,
    pub arg: Option<Seq<char>>,
    pub raw: Option<Seq<char>>,
    pub msg: Seq<char>,
}

impl View for ValidationError {
    type V = ErrV;

    open spec fn view(&self) -> ErrV {
        ErrV {
            kind: self.kind,
            arg: match self.arg_id {
                Some(s) => Some(s@),
                None => None,
            },
            raw: match self.raw {
                Some(s) => Some(s@),
                None => None,
            },
            msg: self.message@,
        }
    }
}

/// The fixed wording of each error kind.
pub open spec fn kind_text(k: ErrorKind) -> Seq<char> {
    match k {
        ErrorKind::UnknownArgument => "unknown argument"@,
        ErrorKind::MissingRequired => "missing required argument"@,
        ErrorKind::TypeMismatch => "type mismatch"@,
        ErrorKind::OutOfRange => "value out of range"@,
        ErrorKind::CustomRejected => "value rejected"@,
        ErrorKind::DuplicateExclusive => "argument given more than once"@,
        ErrorKind::AmbiguousSubcommand => "unknown subcommand"@,
    }
}

/// The exact diagnostic line an error renders to.
pub open spec fn spec_describe(e: ErrV) -> Seq<char> {
    kind_text(e.kind) + (match e.arg {
        Some(a) => " for `"@ + a + "`"@,
        None => Seq::empty(),
    }) + (match e.raw {
        Some(r) => ", given `"@ + r + "`"@,
        None => Seq::empty(),
    }) + (if e.msg.len() > 0 {
        ": "@ + e.msg
    } else {
        Seq::empty()
    })
}

fn kind_str(k: ErrorKind) -> (r: &'static str)
    ensures
        r@ == kind_text(k),
{
    match k {
        ErrorKind::UnknownArgument => "unknown argument",
        ErrorKind::MissingRequired => "missing required argument",
        ErrorKind::TypeMismatch => "type mismatch",
        ErrorKind::OutOfRange => "value out of range",
        ErrorKind::CustomRejected => "value rejected",
        ErrorKind::DuplicateExclusive => "argument given more than once",
        ErrorKind::AmbiguousSubcommand => "unknown subcommand",
    }
}

/// Render an error as one deterministic diagnostic line naming the argument
/// and raw text it concerns.  Pure formatting; it never fails.
pub fn describe(e: &ValidationError) -> (r: String)
    ensures
        r@ == spec_describe(e@),
{
    let mut out = String::new();
    out.append(kind_str(e.kind));
    match &e.arg_id {
        Some(a) => {
            out.append(" for `");
            out.append(a.as_str());
            out.append("`");
        },
        None => {},
    }
    match &e.raw {
        Some(t) => {
            out.append(", given `");
            out.append(t.as_str());
            out.append("`");
        },
        None => {},
    }
    if e.message.as_str().unicode_len() > 0 {
        out.append(": ");
        out.append(e.message.as_str());
    }
    proof {
        assert(out@ =~= spec_describe(e@));
    }
    out
}

} // verus!
