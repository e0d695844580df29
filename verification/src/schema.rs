//! The schema model: the in-memory description of the arguments a program
//! accepts, its subcommand tree, and the structural invariant a schema must
//! satisfy before any parse is attempted.

use vstd::prelude::*;

verus! {

/// What syntactic role an argument plays on the command line.
#[derive(Clone, Copy, PartialEq, Eq, Structural, Debug)]
pub enum ArgKind {
    /// A presence flag: it takes no value on the command line.
    Flag,
    /// A named argument that takes a value.
    Valued,
    /// An argument bound by position rather than by name.
    Positional,
}

/// How many values an argument may or must bind to.
#[derive(Clone, Copy, PartialEq, Eq, Structural, Debug)]
pub enum Arity {
    ExactlyOne,
    ZeroOrOne,
    ZeroOrMore,
    OneOrMore,
}

/// The declared type a raw string value is coerced to.
pub enum ValueType {
    /// Any string, taken verbatim.
    Text,
    /// A base-ten integer.
    Number,
    /// A boolean, from the literal set `true`/`false`/`1`/`0`.
    Truth,
    /// A filesystem path, kept as text; no existence check is implied.
    PathText,
    /// A case-sensitive choice from a fixed ordered set of variant names.
    Selection(Vec<String>),
}

/// A built-in validator applied after type coercion succeeds.  The set is a
/// closed enumeration, like the value types: a new rule is a new variant the
/// coercer switches on, never an open callback.  Checks that read the
/// machine's state, such as whether a directory exists, are deliberately not
/// expressible here — coercion stays pure, and such checks live with the
/// caller as explicit decision functions applied after the parse.
#[derive(Clone, Copy, PartialEq, Eq, Structural, Debug)]
pub enum Validator {
    /// An inclusive numeric range on a `Number` argument.
    IntRange(i64, i64),
    /// A basic well-formedness check for an email address.
    EmailFormat,
}

/// One declared argument.
pub struct ArgumentSpec {
    /// Identifier, unique within its schema tree; the key in the bound set.
    pub id: String,
    pub kind: ArgKind,
    /// Single-character name, as in `-v`.
    pub short: Option<char>,
    /// Word name, as in `--verbose`.
    pub long: Option<String>,
    pub arity: Arity,
    pub value_type: ValueType,
    /// Raw default, coerced like any other value when used.
    pub default: Option<String>,
    /// Environment variable consulted when the command line is silent.
    pub env_name: Option<String>,
    pub required: bool,
    /// Visible and bindable across the whole subcommand tree below.
    pub global: bool,
    pub validator: Option<Validator>,
}

/// A named child schema in the subcommand tree.
pub struct Subcommand {
    pub name: String,
    pub schema: Schema,
}

/// An ordered sequence of argument specs plus the subcommand tree.
pub struct Schema {
    pub args: Vec<ArgumentSpec>,
    pub subcommands: Vec<Subcommand>,
}

/// A structural fault in a schema: a programmer error, reported before any
/// parsing is attempted.
#[derive(Clone, Copy, PartialEq, Eq, Structural, Debug)]
pub enum SchemaError {
    DuplicateId,
    DuplicateShortName,
    DuplicateLongName,
    /// A positional argument carries a short or long name, or is global.
    NamedPositional,
    /// A flag or valued argument has neither a short nor a long name.
    UnnamedArgument,
    /// A flag must be a non-repeatable `Truth` argument.
    MalformedFlag,
    /// The validator does not fit the declared value type.
    ValidatorMismatch,
    /// A positional of unbounded arity must be the last positional.
    UnboundedPositionalNotLast,
    /// Subcommands and an unbounded positional cannot coexist.
    UnboundedPositionalWithSubcommands,
    DuplicateSubcommandName,
}

/// The arity admits more than one value.
pub open spec fn is_unbounded(a: Arity) -> bool {
    a is ZeroOrMore || a is OneOrMore
}

/// The validator may be applied to values of the given type.
pub open spec fn validator_fits(v: Validator, t: ValueType) -> bool {
    match v {
        Validator::IntRange(_, _) => t is Number,
        Validator::EmailFormat => t is Text,
    }
}

/// One argument spec is well formed on its own.
pub open spec fn arg_wf(a: ArgumentSpec) -> bool {
    &&& (a.kind is Positional ==> a.short is None && a.long is None && !a.global)
    &&& (!(a.kind is Positional) ==> a.short is Some || a.long is Some)
    &&& (a.kind is Flag ==> a.value_type is Truth && a.arity is ZeroOrOne)
    &&& (a.validator matches Some(v) ==> validator_fits(v, a.value_type))
}

/// The argument list of one schema level is well formed: each spec is well
/// formed, identifiers and names are unique, and an unbounded positional is
/// the last positional declared.
pub open spec fn args_ok(args: Seq<ArgumentSpec>) -> bool {
    &&& (forall|i: int| 0 <= i < args.len() ==> arg_wf(#[trigger] args[i]))
    &&& (forall|i: int, j: int|
        0 <= i < j < args.len() ==> (#[trigger] args[i]).id@ != (#[trigger] args[j]).id@)
    &&& (forall|i: int, j: int|
        0 <= i < j < args.len() ==> !((#[trigger] args[i]).short is Some
            && (#[trigger] args[j]).short is Some && args[i].short->0 == args[j].short->0))
    &&& (forall|i: int, j: int|
        0 <= i < j < args.len() ==> !((#[trigger] args[i]).long is Some
            && (#[trigger] args[j]).long is Some && args[i].long->0@ == args[j].long->0@))
    &&& (forall|i: int, j: int|
        0 <= i < j < args.len() ==> !((#[trigger] args[i]).kind is Positional && is_unbounded(
            args[i].arity,
        ) && (#[trigger] args[j]).kind is Positional))
}

/// Some positional argument of the level admits unboundedly many values.
pub open spec fn has_unbounded_positional(args: Seq<ArgumentSpec>) -> bool {
    exists|i: int|
        0 <= i < args.len() && (#[trigger] args[i]).kind is Positional && is_unbounded(
            args[i].arity,
        )
}

/// The whole schema tree is well formed: every level's arguments are well
/// formed, sibling subcommand names are unique, and no level mixes
/// subcommands with an unbounded positional.
pub open spec fn schema_ok(s: Schema) -> bool
    decreases s,
{
    &&& args_ok(s.args@)
    &&& (s.subcommands@.len() > 0 ==> !has_unbounded_positional(s.args@))
    &&& (forall|i: int, j: int|
        0 <= i < j < s.subcommands@.len() ==> (#[trigger] s.subcommands@[i]).name@ != (
        #[trigger] s.subcommands@[j]).name@)
    &&& (forall|i: int|
        0 <= i < s.subcommands@.len() ==> schema_ok((#[trigger] s.subcommands@[i]).schema))
}

/// Check one argument spec's own well-formedness.
fn check_arg(a: &ArgumentSpec) -> (r: Result<(), SchemaError>)
    ensures
        r is Ok <==> arg_wf(*a),
{
    match a.kind {
        ArgKind::Positional => {
            if a.short.is_some() || a.long.is_some() || a.global {
                return Err(SchemaError::NamedPositional);
            }
        },
        ArgKind::Flag => {
            if a.short.is_none() && a.long.is_none() {
                return Err(SchemaError::UnnamedArgument);
            }
            let truth_type = match a.value_type {
                ValueType::Truth => true,
                _ => false,
            };
            let single = match a.arity {
                Arity::ZeroOrOne => true,
                _ => false,
            };
            if !truth_type || !single {
                return Err(SchemaError::MalformedFlag);
            }
        },
        ArgKind::Valued => {
            if a.short.is_none() && a.long.is_none() {
                return Err(SchemaError::UnnamedArgument);
            }
        },
    }
    match &a.validator {
        Some(Validator::IntRange(_, _)) => {
            match a.value_type {
                ValueType::Number => Ok(()),
                _ => Err(SchemaError::ValidatorMismatch),
            }
        },
        Some(Validator::EmailFormat) => {
            match a.value_type {
                ValueType::Text => Ok(()),
                _ => Err(SchemaError::ValidatorMismatch),
            }
        },
        None => Ok(()),
    }
}

/// Check the argument list of one schema level.
fn check_args(args: &Vec<ArgumentSpec>) -> (r: Result<(), SchemaError>)
    ensures
        r is Ok <==> args_ok(args@),
{
    let n = args.len();
    let mut i: usize = 0;
    while i < n
        invariant
            0 <= i <= n,
            n == args@.len(),
            forall|k: int| 0 <= k < i ==> arg_wf(#[trigger] args@[k]),
            forall|p: int, q: int|
                0 <= p < q < i ==> (#[trigger] args@[p]).id@ != (#[trigger] args@[q]).id@,
            forall|p: int, q: int|
                0 <= p < q < i ==> !((#[trigger] args@[p]).short is Some
                    && (#[trigger] args@[q]).short is Some && args@[p].short->0
                    == args@[q].short->0),
            forall|p: int, q: int|
                0 <= p < q < i ==> !((#[trigger] args@[p]).long is Some
                    && (#[trigger] args@[q]).long is Some && args@[p].long->0@
                    == args@[q].long->0@),
            forall|p: int, q: int|
                0 <= p < q < i ==> !((#[trigger] args@[p]).kind is Positional && is_unbounded(
                    args@[p].arity,
                ) && (#[trigger] args@[q]).kind is Positional),
        decreases n - i,
    {
        if let Err(e) = check_arg(&args[i]) {
            return Err(e);
        }
        let mut j: usize = 0;
        while j < i
            invariant
                0 <= j <= i < n,
                n == args@.len(),
                forall|p: int|
                    0 <= p < j ==> (#[trigger] args@[p]).id@ != args@[i as int].id@,
                forall|p: int|
                    0 <= p < j ==> !((#[trigger] args@[p]).short is Some
                        && args@[i as int].short is Some && args@[p].short->0
                        == args@[i as int].short->0),
                forall|p: int|
                    0 <= p < j ==> !((#[trigger] args@[p]).long is Some
                        && args@[i as int].long is Some && args@[p].long->0@
                        == args@[i as int].long->0@),
                forall|p: int|
                    0 <= p < j ==> !((#[trigger] args@[p]).kind is Positional && is_unbounded(
                        args@[p].arity,
                    ) && args@[i as int].kind is Positional),
            decreases i - j,
        {
            if args[j].id.eq(&args[i].id) {
                return Err(SchemaError::DuplicateId);
            }
            if let Some(cj) = args[j].short {
                if let Some(ci) = args[i].short {
                    if cj == ci {
                        return Err(SchemaError::DuplicateShortName);
                    }
                }
            }
            match (&args[j].long, &args[i].long) {
                (Some(lj), Some(li)) => {
                    if lj.eq(li) {
                        return Err(SchemaError::DuplicateLongName);
                    }
                },
                _ => {},
            }
            let j_unbounded_pos = match args[j].kind {
                ArgKind::Positional => match args[j].arity {
                    Arity::ZeroOrMore | Arity::OneOrMore => true,
                    _ => false,
                },
                _ => false,
            };
            let i_pos = match args[i].kind {
                ArgKind::Positional => true,
                _ => false,
            };
            if j_unbounded_pos && i_pos {
                return Err(SchemaError::UnboundedPositionalNotLast);
            }
            j = j + 1;
        }
        i = i + 1;
    }
    Ok(())
}

/// Check the structural invariants of a whole schema tree; a parse must
/// only be attempted against a schema this function accepts.
pub fn validate_schema(s: &Schema) -> (r: Result<(), SchemaError>)
    ensures
        r is Ok <==> schema_ok(*s),
    decreases *s,
{
    broadcast use vstd::std_specs::vec::axiom_vec_decreases_to_view, vstd::seq::axiom_seq_index_decreases;

    if let Err(e) = check_args(&s.args) {
        return Err(e);
    }
    let nsub = s.subcommands.len();
    if nsub > 0 {
        let mut i: usize = 0;
        while i < s.args.len()
            invariant
                0 <= i <= s.args@.len(),
                s.subcommands@.len() > 0,
                forall|k: int|
                    0 <= k < i ==> !((#[trigger] s.args@[k]).kind is Positional && is_unbounded(
                        s.args@[k].arity,
                    )),
            decreases s.args@.len() - i,
        {
            let unbounded_pos = match s.args[i].kind {
                ArgKind::Positional => match s.args[i].arity {
                    Arity::ZeroOrMore | Arity::OneOrMore => true,
                    _ => false,
                },
                _ => false,
            };
            if unbounded_pos {
                proof {
                    assert((s.args@[i as int]).kind is Positional && is_unbounded(
                        s.args@[i as int].arity,
                    ));
                    assert(has_unbounded_positional(s.args@));
                }
                return Err(SchemaError::UnboundedPositionalWithSubcommands);
            }
            i = i + 1;
        }
    }
    let mut i: usize = 0;
    while i < nsub
        invariant
            0 <= i <= nsub,
            nsub == s.subcommands@.len(),
            forall|p: int, q: int|
                0 <= p < q < i ==> (#[trigger] s.subcommands@[p]).name@ != (
                #[trigger] s.subcommands@[q]).name@,
            forall|k: int|
                0 <= k < i ==> schema_ok((#[trigger] s.subcommands@[k]).schema),
        decreases nsub - i,
    {
        let mut j: usize = 0;
        while j < i
            invariant
                0 <= j <= i < nsub,
                nsub == s.subcommands@.len(),
                forall|p: int|
                    0 <= p < j ==> (#[trigger] s.subcommands@[p]).name@ != s.subcommands@[
                        i as int
                    ].name@,
            decreases i - j,
        {
            if s.subcommands[j].name.eq(&s.subcommands[i].name) {
                return Err(SchemaError::DuplicateSubcommandName);
            }
            j = j + 1;
        }
        if let Err(e) = validate_schema(&s.subcommands[i].schema) {
            return Err(e);
        }
        i = i + 1;
    }
    Ok(())
}

} // verus!
