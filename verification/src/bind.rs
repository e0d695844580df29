//! The binder: matching tokens against a schema, resolving multiplicities,
//! merging environment and default fallbacks, routing through the
//! subcommand tree, and coercing every present value.

use vstd::prelude::*;

use crate::diag::{ErrV, ErrorKind, ValidationError};
use crate::schema::{is_unbounded, ArgKind, ArgumentSpec, Schema};
use crate::strutil::str_eq;
use crate::token::{tokenize, Token};
use crate::value::{coerce, spec_coerce, TypedValue, TypedValueV};

verus! {

/// Where a bound value was taken from; diagnostic metadata only.
#[derive(Clone, Copy, PartialEq, Eq, Structural, Debug)]
pub enum Provenance {
    CommandLine,
    Environment,
    DefaultValue,
}

/// The typed result for one argument.
#[derive(Debug, PartialEq, Eq)]
pub enum BoundValue {
    /// Not supplied anywhere and not required.
    Absent,
    Single { value: TypedValue, provenance: Provenance },
    /// The ordered values of a repeatable argument.
    Many { values: Vec<TypedValue>, provenance: Provenance },
}

/// One argument's entry in the bound set.
#[derive(Debug)]
pub struct Binding {
    pub id: String,
    pub value: BoundValue,
}

/// The result of a successful parse: one entry per argument of every schema
/// level on the resolved subcommand path, in declaration order, plus that
/// path itself.
#[derive(Debug)]
pub struct BoundSet {
    pub entries: Vec<Binding>,
    pub path: Vec<String>,
}

/// One environment variable the caller read for the engine.
pub struct EnvPair {
    pub name: String,
    pub value: String,
}

/// A raw command-line occurrence list for one argument: the values seen, in
/// order; empty for a flag, whose presence is the entry itself.
pub struct RawEntry {
    pub id: String,
    pub vals: Vec<String>,
}

/// The mathematical shadows of the binder's data.
pub ghost struct RawV {
    pub id: Seq<char>,
    pub vals: Seq<Seq<char>>,
}

impl View for RawEntry {
    type V = RawV;

    open spec fn view(&self) -> RawV {
        RawV { id: self.id@, vals: self.vals.deep_view() }
    }
}

pub ghost enum BoundValueV {
    Absent,
    Single { value: TypedValueV, provenance: Provenance },
    Many { values: Seq<TypedValueV>, provenance: Provenance },
}

impl View for BoundValue {
    type V = BoundValueV;

    open spec fn view(&self) -> BoundValueV {
        match self {
            BoundValue::Absent => BoundValueV::Absent,
            BoundValue::Single { value, provenance } => BoundValueV::Single {
                value: value@,
                provenance: *provenance,
            },
            BoundValue::Many { values, provenance } => BoundValueV::Many {
                values: values_v(values@),
                provenance: *provenance,
            },
        }
    }
}

pub ghost struct BindingV {
    pub id: Seq<char>,
    pub value: BoundValueV,
}

impl View for Binding {
    type V = BindingV;

    open spec fn view(&self) -> BindingV {
        BindingV { id: self.id@, value: self.value@ }
    }
}

pub ghost struct BoundSetV {
    pub entries: Seq<BindingV>,
    pub path: Seq<Seq<char>>,
}

impl View for BoundSet {
    type V = BoundSetV;

    open spec fn view(&self) -> BoundSetV {
        BoundSetV { entries: bindings_v(self.entries@), path: self.path.deep_view() }
    }
}

/// The raw-entry list, seen mathematically.
pub open spec fn raws_v(raws: Seq<RawEntry>) -> Seq<RawV> {
    raws.map_values(|r: RawEntry| r@)
}

/// The index of the entry for `id`, or the length when there is none.
pub open spec fn first_raw_from(raws: Seq<RawV>, id: Seq<char>, k: int) -> int
    decreases raws.len() - k,
{
    if k < 0 || k >= raws.len() {
        raws.len() as int
    } else if raws[k].id == id {
        k
    } else {
        first_raw_from(raws, id, k + 1)
    }
}

pub open spec fn first_raw(raws: Seq<RawV>, id: Seq<char>) -> int {
    first_raw_from(raws, id, 0)
}

/// Some command-line occurrence of `id` has been recorded.
pub open spec fn has_raw(raws: Seq<RawV>, id: Seq<char>) -> bool {
    first_raw(raws, id) < raws.len()
}

/// Recording one occurrence: a new value is appended at the end of the
/// argument's existing list, so repeated occurrences keep first-seen order;
/// a first occurrence appends a new entry at the end of the list.
pub open spec fn spec_record(raws: Seq<RawV>, id: Seq<char>, val: Option<Seq<char>>) -> Seq<RawV> {
    let k = first_raw(raws, id);
    if k == raws.len() {
        raws.push(
            RawV {
                id,
                vals: match val {
                    Some(v) => seq![v],
                    None => Seq::empty(),
                },
            },
        )
    } else {
        match val {
            Some(v) => raws.update(k, RawV { id: raws[k].id, vals: raws[k].vals.push(v) }),
            None => raws,
        }
    }
}

/// Find the entry for `id`, returning its index.
fn find_raw(raws: &Vec<RawEntry>, id: &str) -> (r: Option<usize>)
    ensures
        r matches Some(k) ==> 0 <= k < raws@.len() && k == first_raw(raws_v(raws@), id@),
        r is None ==> first_raw(raws_v(raws@), id@) == raws@.len(),
{
    let n = raws.len();
    let mut k: usize = 0;
    while k < n
        invariant
            0 <= k <= n,
            n == raws@.len(),
            raws_v(raws@).len() == n,
            forall|j: int| 0 <= j < n ==> raws_v(raws@)[j] == (#[trigger] raws@[j])@,
            first_raw(raws_v(raws@), id@) == first_raw_from(raws_v(raws@), id@, k as int),
        decreases n - k,
    {
        if str_eq(raws[k].id.as_str(), id) {
            return Some(k);
        }
        k = k + 1;
    }
    None
}

/// Record one command-line occurrence of the argument `id`: a flag's
/// presence when `val` is `None`, one more value otherwise.
fn record_raw(raws: Vec<RawEntry>, id: &str, val: Option<String>) -> (r: Vec<RawEntry>)
    ensures
        raws_v(r@) == spec_record(
            raws_v(raws@),
            id@,
            match val {
                Some(v) => Some(v@),
                None => None,
            },
        ),
{
    let ghost old_raws = raws_v(raws@);
    let ghost valv: Option<Seq<char>> = match &val {
        Some(v) => Some(v@),
        None => None,
    };
    let mut raws = raws;
    match find_raw(&raws, id) {
        Some(k) => {
            match val {
                Some(v) => {
                    let entry = &mut raws[k];
                    entry.vals.push(v);
                    proof {
                        assert(raws@[k as int].vals.deep_view() =~= old_raws[k as int].vals.push(
                            valv->0,
                        ));
                        assert(raws_v(raws@) =~= spec_record(old_raws, id@, valv));
                    }
                },
                None => {
                    proof {
                        assert(raws_v(raws@) =~= spec_record(old_raws, id@, valv));
                    }
                },
            }
        },
        None => {
            let mut vals: Vec<String> = Vec::new();
            match val {
                Some(v) => {
                    vals.push(v);
                },
                None => {},
            }
            let entry = RawEntry { id: id.to_owned(), vals };
            proof {
                if valv is Some {
                    assert(entry@.vals =~= seq![valv->0]);
                } else {
                    assert(entry@.vals =~= Seq::<Seq<char>>::empty());
                }
            }
            raws.push(entry);
            proof {
                assert(raws_v(raws@) =~= spec_record(old_raws, id@, valv));
            }
        },
    }
    raws
}

/// The environment value for `name`: the first pair that carries it.
pub open spec fn env_find_from(env: Seq<EnvPair>, name: Seq<char>, k: int) -> Option<Seq<char>>
    decreases env.len() - k,
{
    if k < 0 || k >= env.len() {
        None
    } else if env[k].name@ == name {
        Some(env[k].value@)
    } else {
        env_find_from(env, name, k + 1)
    }
}

pub open spec fn env_find(env: Seq<EnvPair>, name: Seq<char>) -> Option<Seq<char>> {
    env_find_from(env, name, 0)
}

/// Look a name up in the supplied environment snapshot.
pub fn env_lookup(env: &Vec<EnvPair>, name: &str) -> (r: Option<String>)
    ensures
        (match r {
            Some(v) => Some(v@),
            None => None,
        }) == env_find(env@, name@),
{
    let n = env.len();
    let mut k: usize = 0;
    while k < n
        invariant
            0 <= k <= n,
            n == env@.len(),
            env_find(env@, name@) == env_find_from(env@, name@, k as int),
        decreases n - k,
    {
        if str_eq(env[k].name.as_str(), name) {
            return Some(env[k].value.clone());
        }
        k = k + 1;
    }
    None
}

/// A reference list seen as the sequence of the values behind it.
pub open spec fn derefs<T>(s: Seq<&T>) -> Seq<T>
    decreases s.len(),
{
    if s.len() == 0 {
        Seq::empty()
    } else {
        derefs(s.drop_last()).push(*s.last())
    }
}

pub proof fn lemma_derefs<T>(s: Seq<&T>)
    ensures
        derefs(s).len() == s.len(),
        forall|i: int| 0 <= i < s.len() ==> derefs(s)[i] == *(#[trigger] s[i]),
    decreases s.len(),
{
    if s.len() > 0 {
        lemma_derefs(s.drop_last());
        assert forall|i: int| 0 <= i < s.len() implies derefs(s)[i] == *(#[trigger] s[i]) by {
            if i < s.len() - 1 {
                assert(derefs(s)[i] == derefs(s.drop_last())[i]);
                assert(s.drop_last()[i] == s[i]);
            } else {
                assert(derefs(s)[i] == *s.last());
            }
        }
    }
}

pub proof fn lemma_derefs_push<T>(s: Seq<&T>, x: &T)
    ensures
        derefs(s.push(x)) == derefs(s).push(*x),
{
    assert(s.push(x).drop_last() =~= s);
    assert(s.push(x).last() == x);
}

/// Argument specs seen by value through a list of references.
pub open spec fn specs_v(s: Seq<&ArgumentSpec>) -> Seq<ArgumentSpec> {
    derefs(s)
}

/// Schemas seen by value through a list of references.
pub open spec fn stack_v(s: Seq<&Schema>) -> Seq<Schema> {
    derefs(s)
}

/// The positional specs of a level, in declaration order.
pub open spec fn spec_positionals(args: Seq<ArgumentSpec>) -> Seq<ArgumentSpec>
    decreases args.len(),
{
    if args.len() == 0 {
        Seq::empty()
    } else if args.last().kind is Positional {
        spec_positionals(args.drop_last()).push(args.last())
    } else {
        spec_positionals(args.drop_last())
    }
}

/// The specs marked global, in order: these stay matchable below a
/// subcommand dispatch.
pub open spec fn spec_globals(args: Seq<ArgumentSpec>) -> Seq<ArgumentSpec>
    decreases args.len(),
{
    if args.len() == 0 {
        Seq::empty()
    } else if args.last().global {
        spec_globals(args.drop_last()).push(args.last())
    } else {
        spec_globals(args.drop_last())
    }
}

/// The first named (non-positional) spec carrying the long name, or the
/// length when none does.
pub open spec fn find_long_from(visible: Seq<ArgumentSpec>, name: Seq<char>, j: int) -> int
    decreases visible.len() - j,
{
    if j < 0 || j >= visible.len() {
        visible.len() as int
    } else if !(visible[j].kind is Positional) && (visible[j].long matches Some(l) && l@ == name) {
        j
    } else {
        find_long_from(visible, name, j + 1)
    }
}

pub open spec fn find_long(visible: Seq<ArgumentSpec>, name: Seq<char>) -> int {
    find_long_from(visible, name, 0)
}

/// The first named spec carrying the short character, or the length.
pub open spec fn find_short_from(visible: Seq<ArgumentSpec>, c: char, j: int) -> int
    decreases visible.len() - j,
{
    if j < 0 || j >= visible.len() {
        visible.len() as int
    } else if !(visible[j].kind is Positional) && (visible[j].short matches Some(s) && s == c) {
        j
    } else {
        find_short_from(visible, c, j + 1)
    }
}

pub open spec fn find_short(visible: Seq<ArgumentSpec>, c: char) -> int {
    find_short_from(visible, c, 0)
}

/// The first subcommand with the given name, or the length.
pub open spec fn find_sub_from(subs: Seq<crate::schema::Subcommand>, name: Seq<char>, j: int) -> int
    decreases subs.len() - j,
{
    if j < 0 || j >= subs.len() {
        subs.len() as int
    } else if subs[j].name@ == name {
        j
    } else {
        find_sub_from(subs, name, j + 1)
    }
}

pub open spec fn find_sub(subs: Seq<crate::schema::Subcommand>, name: Seq<char>) -> int {
    find_sub_from(subs, name, 0)
}

/// A repeated occurrence of a non-repeatable argument.
pub open spec fn dup_err(id: Seq<char>) -> ErrV {
    ErrV { kind: ErrorKind::DuplicateExclusive, arg: Some(id), raw: None, msg: Seq::empty() }
}

/// A valued argument reached the end of its token without a value.
pub open spec fn missing_value_err(id: Seq<char>) -> ErrV {
    ErrV { kind: ErrorKind::TypeMismatch, arg: Some(id), raw: None, msg: "is missing a value"@ }
}

fn mk_dup_err(id: &str) -> (e: ValidationError)
    ensures
        e@ == dup_err(id@),
{
    ValidationError {
        kind: ErrorKind::DuplicateExclusive,
        arg_id: Some(id.to_owned()),
        raw: None,
        message: String::new(),
    }
}

fn mk_missing_value_err(id: &str) -> (e: ValidationError)
    ensures
        e@ == missing_value_err(id@),
{
    ValidationError {
        kind: ErrorKind::TypeMismatch,
        arg_id: Some(id.to_owned()),
        raw: None,
        message: "is missing a value".to_owned(),
    }
}

/// Find the visible spec with this long name.
fn lookup_long(visible: &Vec<&ArgumentSpec>, name: &str) -> (r: usize)
    ensures
        r == find_long(specs_v(visible@), name@),
        r <= visible@.len(),
{
    let n = visible.len();
    let mut j: usize = 0;
    proof {
        lemma_derefs(visible@);
    }
    while j < n
        invariant
            0 <= j <= n,
            n == visible@.len(),
            find_long(specs_v(visible@), name@) == find_long_from(
                specs_v(visible@),
                name@,
                j as int,
            ),
        decreases n - j,
    {
        proof {
            lemma_derefs(visible@);
        }
        let a = visible[j];
        let positional = match a.kind {
            ArgKind::Positional => true,
            _ => false,
        };
        if !positional {
            match &a.long {
                Some(l) => {
                    if str_eq(l.as_str(), name) {
                        return j;
                    }
                },
                None => {},
            }
        }
        j = j + 1;
    }
    n
}

/// Find the visible spec with this short character.
fn lookup_short(visible: &Vec<&ArgumentSpec>, c: char) -> (r: usize)
    ensures
        r == find_short(specs_v(visible@), c),
        r <= visible@.len(),
{
    let n = visible.len();
    let mut j: usize = 0;
    proof {
        lemma_derefs(visible@);
    }
    while j < n
        invariant
            0 <= j <= n,
            n == visible@.len(),
            find_short(specs_v(visible@), c) == find_short_from(specs_v(visible@), c, j as int),
        decreases n - j,
    {
        proof {
            lemma_derefs(visible@);
        }
        let a = visible[j];
        let positional = match a.kind {
            ArgKind::Positional => true,
            _ => false,
        };
        if !positional {
            match a.short {
                Some(s) => {
                    if s == c {
                        return j;
                    }
                },
                None => {},
            }
        }
        j = j + 1;
    }
    n
}

/// Find the subcommand with this name.
fn lookup_sub(subs: &Vec<crate::schema::Subcommand>, name: &str) -> (r: usize)
    ensures
        r == find_sub(subs@, name@),
        r <= subs@.len(),
{
    let n = subs.len();
    let mut j: usize = 0;
    while j < n
        invariant
            0 <= j <= n,
            n == subs@.len(),
            find_sub(subs@, name@) == find_sub_from(subs@, name@, j as int),
        decreases n - j,
    {
        if str_eq(subs[j].name.as_str(), name) {
            return j;
        }
        j = j + 1;
    }
    n
}

/// The argument is repeatable: repeated occurrences accumulate.
fn repeatable(a: &ArgumentSpec) -> (r: bool)
    ensures
        r == is_unbounded(a.arity),
{
    match a.arity {
        crate::schema::Arity::ZeroOrMore | crate::schema::Arity::OneOrMore => true,
        _ => false,
    }
}

/// What processing a short cluster from position `j` does to the raw
/// occurrences: booleans chain; the first value-taking short swallows the
/// rest of the cluster (minus one leading `=`) as its value, or asks for the
/// next token when the cluster ends at it.
pub open spec fn spec_cluster(
    visible: Seq<ArgumentSpec>,
    body: Seq<char>,
    j: int,
    raws: Seq<RawV>,
) -> Result<(Seq<RawV>, Option<Seq<char>>), ErrV>
    decreases body.len() - j,
{
    if j < 0 || j >= body.len() {
        Ok((raws, None))
    } else {
        let c = body[j];
        let k = find_short(visible, c);
        if k == visible.len() {
            Err(ErrV { kind: ErrorKind::UnknownArgument, arg: None, raw: Some(seq![c]), msg: Seq::empty() })
        } else {
            let a = visible[k];
            if a.kind is Flag {
                if has_raw(raws, a.id@) {
                    Err(dup_err(a.id@))
                } else {
                    spec_cluster(visible, body, j + 1, spec_record(raws, a.id@, None))
                }
            } else {
                if !is_unbounded(a.arity) && has_raw(raws, a.id@) {
                    Err(dup_err(a.id@))
                } else if j + 1 < body.len() {
                    let value = if body[j + 1] == '=' {
                        body.skip(j + 2)
                    } else {
                        body.skip(j + 1)
                    };
                    Ok((spec_record(raws, a.id@, Some(value)), None))
                } else {
                    Ok((raws, Some(a.id@)))
                }
            }
        }
    }
}

/// A cluster outcome, seen mathematically.
pub open spec fn cluster_view(r: Result<(Vec<RawEntry>, Option<String>), ValidationError>) -> Result<
    (Seq<RawV>, Option<Seq<char>>),
    ErrV,
> {
    match r {
        Ok((raws, needs)) => Ok(
            (
                raws_v(raws@),
                match needs {
                    Some(id) => Some(id@),
                    None => None,
                },
            ),
        ),
        Err(e) => Err(e@),
    }
}

/// Process a short cluster from character `j` on.
fn cluster(visible: &Vec<&ArgumentSpec>, body: &str, j: usize, raws: Vec<RawEntry>) -> (r: Result<
    (Vec<RawEntry>, Option<String>),
    ValidationError,
>)
    requires
        j <= body@.len(),
    ensures
        cluster_view(r) == spec_cluster(specs_v(visible@), body@, j as int, raws_v(raws@)),
    decreases body@.len() - j,
{
    proof {
        lemma_derefs(visible@);
    }
    let n = body.unicode_len();
    if j >= n {
        return Ok((raws, None));
    }
    let c = body.get_char(j);
    let k = lookup_short(visible, c);
    if k == visible.len() {
        let ctext = body.substring_char(j, j + 1).to_owned();
        proof {
            assert(ctext@ =~= seq![c]);
        }
        return Err(
            ValidationError {
                kind: ErrorKind::UnknownArgument,
                arg_id: None,
                raw: Some(ctext),
                message: String::new(),
            },
        );
    }
    let a = visible[k];
    let is_flag = match a.kind {
        ArgKind::Flag => true,
        _ => false,
    };
    if is_flag {
        if find_raw(&raws, a.id.as_str()).is_some() {
            return Err(mk_dup_err(a.id.as_str()));
        }
        let raws = record_raw(raws, a.id.as_str(), None);
        cluster(visible, body, j + 1, raws)
    } else {
        if !repeatable(a) && find_raw(&raws, a.id.as_str()).is_some() {
            return Err(mk_dup_err(a.id.as_str()));
        }
        if j + 1 < n {
            let c2 = body.get_char(j + 1);
            let value = if c2 == '=' {
                body.substring_char(j + 2, n).to_owned()
            } else {
                body.substring_char(j + 1, n).to_owned()
            };
            proof {
                if c2 == '=' {
                    assert(value@ =~= body@.skip(j as int + 2));
                } else {
                    assert(value@ =~= body@.skip(j as int + 1));
                }
            }
            let raws = record_raw(raws, a.id.as_str(), Some(value));
            Ok((raws, None))
        } else {
            Ok((raws, Some(a.id.clone())))
        }
    }
}

/// What the token walk accumulates: the command-line occurrences, the
/// subcommand path taken, and the schema levels along it.
pub ghost struct WalkV {
    pub raws: Seq<RawV>,
    pub path: Seq<Seq<char>>,
    pub stack: Seq<Schema>,
}

/// The left-to-right walk over the tokens: named tokens match visible
/// specs, positional tokens fill the level's positionals in declaration
/// order, and once those are full a positional selects a subcommand and the
/// walk descends, keeping the globals visible and every occurrence
/// recorded so far.
pub open spec fn spec_walk(
    visible: Seq<ArgumentSpec>,
    poss: Seq<ArgumentSpec>,
    pos_idx: int,
    cur: Schema,
    tokens: Seq<Token>,
    i: int,
    raws: Seq<RawV>,
    path: Seq<Seq<char>>,
    stack: Seq<Schema>,
) -> Result<WalkV, ErrV>
    decreases tokens.len() - i,
{
    if i < 0 || i >= tokens.len() {
        Ok(WalkV { raws, path, stack })
    } else {
        match tokens[i] {
            Token::Separator => spec_walk(
                visible,
                poss,
                pos_idx,
                cur,
                tokens,
                i + 1,
                raws,
                path,
                stack,
            ),
            Token::Plain { text } => {
                if 0 <= pos_idx < poss.len() {
                    let p = poss[pos_idx];
                    let next = if is_unbounded(p.arity) {
                        pos_idx
                    } else {
                        pos_idx + 1
                    };
                    spec_walk(
                        visible,
                        poss,
                        next,
                        cur,
                        tokens,
                        i + 1,
                        spec_record(raws, p.id@, Some(text@)),
                        path,
                        stack,
                    )
                } else if cur.subcommands@.len() > 0 {
                    let k = find_sub(cur.subcommands@, text@);
                    if k == cur.subcommands@.len() {
                        Err(
                            ErrV {
                                kind: ErrorKind::AmbiguousSubcommand,
                                arg: None,
                                raw: Some(text@),
                                msg: Seq::empty(),
                            },
                        )
                    } else {
                        let child = cur.subcommands@[k].schema;
                        spec_walk(
                            spec_globals(visible) + child.args@,
                            spec_positionals(child.args@),
                            0,
                            child,
                            tokens,
                            i + 1,
                            raws,
                            path.push(cur.subcommands@[k].name@),
                            stack.push(child),
                        )
                    }
                } else {
                    Err(
                        ErrV {
                            kind: ErrorKind::UnknownArgument,
                            arg: None,
                            raw: Some(text@),
                            msg: "unexpected positional value"@,
                        },
                    )
                }
            },
            Token::Long { name, inline } => {
                let k = find_long(visible, name@);
                if k == visible.len() {
                    Err(
                        ErrV {
                            kind: ErrorKind::UnknownArgument,
                            arg: None,
                            raw: Some(name@),
                            msg: Seq::empty(),
                        },
                    )
                } else {
                    let a = visible[k];
                    if a.kind is Flag {
                        match inline {
                            Some(v) => Err(
                                ErrV {
                                    kind: ErrorKind::TypeMismatch,
                                    arg: Some(a.id@),
                                    raw: Some(v@),
                                    msg: "a flag takes no value"@,
                                },
                            ),
                            None => {
                                if has_raw(raws, a.id@) {
                                    Err(dup_err(a.id@))
                                } else {
                                    spec_walk(
                                        visible,
                                        poss,
                                        pos_idx,
                                        cur,
                                        tokens,
                                        i + 1,
                                        spec_record(raws, a.id@, None),
                                        path,
                                        stack,
                                    )
                                }
                            },
                        }
                    } else {
                        if !is_unbounded(a.arity) && has_raw(raws, a.id@) {
                            Err(dup_err(a.id@))
                        } else {
                            match inline {
                                Some(v) => spec_walk(
                                    visible,
                                    poss,
                                    pos_idx,
                                    cur,
                                    tokens,
                                    i + 1,
                                    spec_record(raws, a.id@, Some(v@)),
                                    path,
                                    stack,
                                ),
                                None => {
                                    if i + 1 < tokens.len() {
                                        match tokens[i + 1] {
                                            Token::Plain { text } => spec_walk(
                                                visible,
                                                poss,
                                                pos_idx,
                                                cur,
                                                tokens,
                                                i + 2,
                                                spec_record(raws, a.id@, Some(text@)),
                                                path,
                                                stack,
                                            ),
                                            _ => Err(missing_value_err(a.id@)),
                                        }
                                    } else {
                                        Err(missing_value_err(a.id@))
                                    }
                                },
                            }
                        }
                    }
                }
            },
            Token::Shorts { body } => {
                match spec_cluster(visible, body@, 0, raws) {
                    Err(e) => Err(e),
                    Ok((raws2, needs)) => match needs {
                        None => spec_walk(
                            visible,
                            poss,
                            pos_idx,
                            cur,
                            tokens,
                            i + 1,
                            raws2,
                            path,
                            stack,
                        ),
                        Some(id) => {
                            if i + 1 < tokens.len() {
                                match tokens[i + 1] {
                                    Token::Plain { text } => spec_walk(
                                        visible,
                                        poss,
                                        pos_idx,
                                        cur,
                                        tokens,
                                        i + 2,
                                        spec_record(raws2, id, Some(text@)),
                                        path,
                                        stack,
                                    ),
                                    _ => Err(missing_value_err(id)),
                                }
                            } else {
                                Err(missing_value_err(id))
                            }
                        },
                    },
                }
            },
        }
    }
}

/// A walk outcome, seen mathematically.
pub open spec fn walk_view<'a>(
    r: Result<(Vec<RawEntry>, Vec<String>, Vec<&'a Schema>), ValidationError>,
) -> Result<WalkV, ErrV> {
    match r {
        Ok((raws, path, stack)) => Ok(
            WalkV { raws: raws_v(raws@), path: path.deep_view(), stack: stack_v(stack@) },
        ),
        Err(e) => Err(e@),
    }
}

/// The positional specs of one level, as references in declaration order.
fn positionals_of<'a>(args: &'a Vec<ArgumentSpec>) -> (r: Vec<&'a ArgumentSpec>)
    ensures
        specs_v(r@) == spec_positionals(args@),
{
    let n = args.len();
    let mut out: Vec<&'a ArgumentSpec> = Vec::new();
    let mut k: usize = 0;
    while k < n
        invariant
            0 <= k <= n,
            n == args@.len(),
            specs_v(out@) == spec_positionals(args@.take(k as int)),
        decreases n - k,
    {
        let positional = match args[k].kind {
            ArgKind::Positional => true,
            _ => false,
        };
        proof {
            assert(args@.take(k as int + 1).drop_last() =~= args@.take(k as int));
            assert(args@.take(k as int + 1).last() == args@[k as int]);
        }
        if positional {
            let ghost before = out@;
            out.push(&args[k]);
            proof {
                lemma_derefs_push(before, &args[k as int]);
            }
        }
        k = k + 1;
    }
    proof {
        assert(args@.take(n as int) =~= args@);
    }
    out
}

/// The globals among the visible specs, in order.
fn globals_of<'a>(visible: &Vec<&'a ArgumentSpec>) -> (r: Vec<&'a ArgumentSpec>)
    ensures
        specs_v(r@) == spec_globals(specs_v(visible@)),
{
    let n = visible.len();
    let mut out: Vec<&'a ArgumentSpec> = Vec::new();
    let mut k: usize = 0;
    while k < n
        invariant
            0 <= k <= n,
            n == visible@.len(),
            specs_v(out@) == spec_globals(specs_v(visible@.take(k as int))),
        decreases n - k,
    {
        let a = visible[k];
        proof {
            lemma_derefs(visible@);
            assert(visible@.take(k as int + 1) =~= visible@.take(k as int).push(visible@[k as int]));
            lemma_derefs_push(visible@.take(k as int), visible@[k as int]);
            assert(specs_v(visible@.take(k as int + 1)).drop_last() =~= specs_v(
                visible@.take(k as int),
            ));
        }
        if a.global {
            let ghost before = out@;
            out.push(a);
            proof {
                lemma_derefs_push(before, a);
            }
        }
        k = k + 1;
    }
    proof {
        assert(visible@.take(n as int) =~= visible@);
    }
    out
}

/// Walk the tokens from position `i`, matching them against the visible
/// specs and descending the subcommand tree.
fn walk<'a>(
    visible: Vec<&'a ArgumentSpec>,
    poss: Vec<&'a ArgumentSpec>,
    pos_idx: usize,
    cur: &'a Schema,
    tokens: &Vec<Token>,
    i: usize,
    raws: Vec<RawEntry>,
    path: Vec<String>,
    stack: Vec<&'a Schema>,
) -> (r: Result<(Vec<RawEntry>, Vec<String>, Vec<&'a Schema>), ValidationError>)
    requires
        i <= tokens@.len(),
    ensures
        walk_view(r) == spec_walk(
            specs_v(visible@),
            specs_v(poss@),
            pos_idx as int,
            *cur,
            tokens@,
            i as int,
            raws_v(raws@),
            path.deep_view(),
            stack_v(stack@),
        ),
    decreases tokens@.len() - i,
{
    proof {
        lemma_derefs(visible@);
        lemma_derefs(poss@);
        lemma_derefs(stack@);
    }
    if i >= tokens.len() {
        return Ok((raws, path, stack));
    }
    let t = &tokens[i];
    match t {
        Token::Separator => walk(visible, poss, pos_idx, cur, tokens, i + 1, raws, path, stack),
        Token::Plain { text } => {
            if pos_idx < poss.len() {
                let p = poss[pos_idx];
                let next = if repeatable(p) {
                    pos_idx
                } else {
                    pos_idx + 1
                };
                let raws = record_raw(raws, p.id.as_str(), Some(text.clone()));
                walk(visible, poss, next, cur, tokens, i + 1, raws, path, stack)
            } else if cur.subcommands.len() > 0 {
                let k = lookup_sub(&cur.subcommands, text.as_str());
                if k == cur.subcommands.len() {
                    Err(
                        ValidationError {
                            kind: ErrorKind::AmbiguousSubcommand,
                            arg_id: None,
                            raw: Some(text.clone()),
                            message: String::new(),
                        },
                    )
                } else {
                    let sub = &cur.subcommands[k];
                    let child = &sub.schema;
                    let mut visible2 = globals_of(&visible);
                    let ghost glob = specs_v(visible2@);
                    let n = child.args.len();
                    let mut m: usize = 0;
                    proof {
                        assert(glob + child.args@.take(0) =~= glob);
                    }
                    while m < n
                        invariant
                            0 <= m <= n,
                            n == child.args@.len(),
                            specs_v(visible2@) == glob + child.args@.take(m as int),
                        decreases n - m,
                    {
                        let ghost before = visible2@;
                        visible2.push(&child.args[m]);
                        proof {
                            lemma_derefs_push(before, &child.args[m as int]);
                            assert(specs_v(visible2@) =~= glob + child.args@.take(m as int + 1));
                        }
                        m = m + 1;
                    }
                    proof {
                        assert(child.args@.take(n as int) =~= child.args@);
                    }
                    let poss2 = positionals_of(&child.args);
                    let ghost p0 = path.deep_view();
                    let ghost st0 = stack@;
                    let mut path = path;
                    path.push(sub.name.clone());
                    let mut stack = stack;
                    stack.push(child);
                    proof {
                        assert(path.deep_view() =~= p0.push(sub.name@));
                        lemma_derefs_push(st0, child);
                    }
                    walk(visible2, poss2, 0, child, tokens, i + 1, raws, path, stack)
                }
            } else {
                Err(
                    ValidationError {
                        kind: ErrorKind::UnknownArgument,
                        arg_id: None,
                        raw: Some(text.clone()),
                        message: "unexpected positional value".to_owned(),
                    },
                )
            }
        },
        Token::Long { name, inline } => {
            let k = lookup_long(&visible, name.as_str());
            if k == visible.len() {
                return Err(
                    ValidationError {
                        kind: ErrorKind::UnknownArgument,
                        arg_id: None,
                        raw: Some(name.clone()),
                        message: String::new(),
                    },
                );
            }
            let a = visible[k];
            let is_flag = match a.kind {
                ArgKind::Flag => true,
                _ => false,
            };
            if is_flag {
                match inline {
                    Some(v) => Err(
                        ValidationError {
                            kind: ErrorKind::TypeMismatch,
                            arg_id: Some(a.id.clone()),
                            raw: Some(v.clone()),
                            message: "a flag takes no value".to_owned(),
                        },
                    ),
                    None => {
                        if find_raw(&raws, a.id.as_str()).is_some() {
                            Err(mk_dup_err(a.id.as_str()))
                        } else {
                            let raws = record_raw(raws, a.id.as_str(), None);
                            walk(visible, poss, pos_idx, cur, tokens, i + 1, raws, path, stack)
                        }
                    },
                }
            } else {
                if !repeatable(a) && find_raw(&raws, a.id.as_str()).is_some() {
                    return Err(mk_dup_err(a.id.as_str()));
                }
                match inline {
                    Some(v) => {
                        let raws = record_raw(raws, a.id.as_str(), Some(v.clone()));
                        walk(visible, poss, pos_idx, cur, tokens, i + 1, raws, path, stack)
                    },
                    None => {
                        if i + 1 < tokens.len() {
                            let t2 = &tokens[i + 1];
                            match t2 {
                                Token::Plain { text } => {
                                    let raws = record_raw(raws, a.id.as_str(), Some(text.clone()));
                                    walk(
                                        visible,
                                        poss,
                                        pos_idx,
                                        cur,
                                        tokens,
                                        i + 2,
                                        raws,
                                        path,
                                        stack,
                                    )
                                },
                                _ => Err(mk_missing_value_err(a.id.as_str())),
                            }
                        } else {
                            Err(mk_missing_value_err(a.id.as_str()))
                        }
                    },
                }
            }
        },
        Token::Shorts { body } => {
            match cluster(&visible, body.as_str(), 0, raws) {
                Err(e) => Err(e),
                Ok((raws2, needs)) => {
                    match needs {
                        None => walk(visible, poss, pos_idx, cur, tokens, i + 1, raws2, path, stack),
                        Some(id) => {
                            if i + 1 < tokens.len() {
                                let t2 = &tokens[i + 1];
                                match t2 {
                                    Token::Plain { text } => {
                                        let raws3 = record_raw(raws2, id.as_str(), Some(
                                            text.clone(),
                                        ));
                                        walk(
                                            visible,
                                            poss,
                                            pos_idx,
                                            cur,
                                            tokens,
                                            i + 2,
                                            raws3,
                                            path,
                                            stack,
                                        )
                                    },
                                    _ => Err(mk_missing_value_err(id.as_str())),
                                }
                            } else {
                                Err(mk_missing_value_err(id.as_str()))
                            }
                        },
                    }
                },
            }
        },
    }
}


/// A value list seen mathematically.
pub open spec fn values_v(s: Seq<TypedValue>) -> Seq<TypedValueV>
    decreases s.len(),
{
    if s.len() == 0 {
        Seq::empty()
    } else {
        values_v(s.drop_last()).push(s.last()@)
    }
}

pub proof fn lemma_values_v(s: Seq<TypedValue>)
    ensures
        values_v(s).len() == s.len(),
        forall|i: int| 0 <= i < s.len() ==> #[trigger] values_v(s)[i] == s[i]@,
    decreases s.len(),
{
    if s.len() > 0 {
        lemma_values_v(s.drop_last());
        assert forall|i: int| 0 <= i < s.len() implies #[trigger] values_v(s)[i] == s[i]@ by {
            if i < s.len() - 1 {
                assert(values_v(s)[i] == values_v(s.drop_last())[i]);
                assert(s.drop_last()[i] == s[i]);
            } else {
                assert(values_v(s)[i] == s.last()@);
            }
        }
    }
}

/// A binding list seen mathematically.
pub open spec fn bindings_v(s: Seq<Binding>) -> Seq<BindingV>
    decreases s.len(),
{
    if s.len() == 0 {
        Seq::empty()
    } else {
        bindings_v(s.drop_last()).push(s.last()@)
    }
}

pub proof fn lemma_bindings_v(s: Seq<Binding>)
    ensures
        bindings_v(s).len() == s.len(),
        forall|i: int| 0 <= i < s.len() ==> #[trigger] bindings_v(s)[i] == s[i]@,
    decreases s.len(),
{
    if s.len() > 0 {
        lemma_bindings_v(s.drop_last());
        assert forall|i: int| 0 <= i < s.len() implies #[trigger] bindings_v(s)[i] == s[i]@ by {
            if i < s.len() - 1 {
                assert(bindings_v(s)[i] == bindings_v(s.drop_last())[i]);
                assert(s.drop_last()[i] == s[i]);
            } else {
                assert(bindings_v(s)[i] == s.last()@);
            }
        }
    }
}

/// The source that supplies an argument's raw values, by the precedence
/// command line over environment over declared default; `None` when all
/// three are silent.
pub open spec fn arg_source(a: ArgumentSpec, raws: Seq<RawV>, env: Seq<EnvPair>) -> Option<
    (Seq<Seq<char>>, Provenance),
> {
    let k = first_raw(raws, a.id@);
    if k < raws.len() {
        Some((raws[k].vals, Provenance::CommandLine))
    } else {
        match a.env_name {
            Some(n) => match env_find(env, n@) {
                Some(v) => Some((seq![v], Provenance::Environment)),
                None => match a.default {
                    Some(d) => Some((seq![d@], Provenance::DefaultValue)),
                    None => None,
                },
            },
            None => match a.default {
                Some(d) => Some((seq![d@], Provenance::DefaultValue)),
                None => None,
            },
        }
    }
}

/// Precedence law: when the command line spoke, its values are bound; only
/// a silent command line consults the environment, and only a silent
/// environment falls back to the declared default; with all three silent
/// the argument has no source.
pub proof fn lemma_source_precedence(a: ArgumentSpec, raws: Seq<RawV>, env: Seq<EnvPair>)
    ensures
        has_raw(raws, a.id@) ==> arg_source(a, raws, env) == Some(
            (raws[first_raw(raws, a.id@)].vals, Provenance::CommandLine),
        ),
        !has_raw(raws, a.id@) && (a.env_name matches Some(n) && env_find(env, n@) is Some)
            ==> arg_source(a, raws, env) == Some(
            (seq![env_find(env, a.env_name->0@)->0], Provenance::Environment),
        ),
        !has_raw(raws, a.id@) && (match a.env_name {
            Some(n) => env_find(env, n@) is None,
            None => true,
        }) && (a.default matches Some(d)) ==> arg_source(a, raws, env) == Some(
            (seq![a.default->0@], Provenance::DefaultValue),
        ),
        !has_raw(raws, a.id@) && (match a.env_name {
            Some(n) => env_find(env, n@) is None,
            None => true,
        }) && a.default is None ==> arg_source(a, raws, env) is None,
{
    crate::bind::lemma_first_raw_bounds(raws, a.id@, 0);
}

/// `first_raw_from` stays between its start and the length.
pub proof fn lemma_first_raw_bounds(raws: Seq<RawV>, id: Seq<char>, k: int)
    requires
        0 <= k <= raws.len(),
    ensures
        k <= first_raw_from(raws, id, k) <= raws.len(),
    decreases raws.len() - k,
{
    if k < raws.len() && raws[k].id != id {
        lemma_first_raw_bounds(raws, id, k + 1);
    }
}

/// Repetition preserves order: recording one more value for an argument
/// appends it at the end of that argument's existing list and touches no
/// other entry; a first occurrence appends a fresh entry at the end.
pub proof fn lemma_repetition_order(raws: Seq<RawV>, id: Seq<char>, v: Seq<char>)
    ensures
        !has_raw(raws, id) ==> spec_record(raws, id, Some(v)) == raws.push(
            RawV { id, vals: seq![v] },
        ),
        has_raw(raws, id) ==> {
            let k = first_raw(raws, id);
            let r2 = spec_record(raws, id, Some(v));
            &&& r2.len() == raws.len()
            &&& r2[k].id == raws[k].id
            &&& r2[k].vals == raws[k].vals.push(v)
            &&& forall|j: int| 0 <= j < raws.len() && j != k ==> r2[j] == raws[j]
        },
{
    lemma_first_raw_bounds(raws, id, 0);
}

/// Short-cluster value greed: when a value-taking short name is met inside
/// a cluster and more characters follow, all of them (minus one leading
/// `=`) become its value and none is read as a further flag.
pub proof fn lemma_cluster_value_greedy(
    visible: Seq<ArgumentSpec>,
    body: Seq<char>,
    raws: Seq<RawV>,
    j: int,
)
    requires
        0 <= j < body.len(),
        find_short(visible, body[j]) < visible.len(),
        !((visible[find_short(visible, body[j])]).kind is Flag),
        is_unbounded(visible[find_short(visible, body[j])].arity) || !has_raw(
            raws,
            visible[find_short(visible, body[j])].id@,
        ),
        j + 1 < body.len(),
        body[j + 1] != '=',
    ensures
        spec_cluster(visible, body, j, raws) == Ok::<_, ErrV>(
            (
                spec_record(raws, visible[find_short(visible, body[j])].id@, Some(body.skip(j + 1))),
                None::<Seq<char>>,
            ),
        ),
{
}

/// Boolean shorts combine: a flag met inside a cluster records its
/// presence and the walk goes on with the next character.
pub proof fn lemma_cluster_flag_chains(
    visible: Seq<ArgumentSpec>,
    body: Seq<char>,
    raws: Seq<RawV>,
    j: int,
)
    requires
        0 <= j < body.len(),
        find_short(visible, body[j]) < visible.len(),
        (visible[find_short(visible, body[j])]).kind is Flag,
        !has_raw(raws, visible[find_short(visible, body[j])].id@),
    ensures
        spec_cluster(visible, body, j, raws) == spec_cluster(
            visible,
            body,
            j + 1,
            spec_record(raws, visible[find_short(visible, body[j])].id@, None),
        ),
{
}

/// Global propagation: descending into a subcommand keeps every occurrence
/// recorded so far — a global flag supplied before the subcommand name
/// stays bound — and keeps exactly the globals visible beside the child's
/// own arguments.
pub proof fn lemma_global_propagation(
    visible: Seq<ArgumentSpec>,
    poss: Seq<ArgumentSpec>,
    pos_idx: int,
    cur: Schema,
    tokens: Seq<Token>,
    i: int,
    raws: Seq<RawV>,
    path: Seq<Seq<char>>,
    stack: Seq<Schema>,
)
    requires
        0 <= i < tokens.len(),
        tokens[i] matches Token::Plain { text },
        !(0 <= pos_idx < poss.len()),
        cur.subcommands@.len() > 0,
        (tokens[i] matches Token::Plain { text } && find_sub(cur.subcommands@, text@)
            < cur.subcommands@.len()),
    ensures
        (tokens[i] matches Token::Plain { text } && spec_walk(
            visible,
            poss,
            pos_idx,
            cur,
            tokens,
            i,
            raws,
            path,
            stack,
        ) == spec_walk(
            spec_globals(visible) + cur.subcommands@[find_sub(cur.subcommands@, text@)].schema.args@,
            spec_positionals(cur.subcommands@[find_sub(cur.subcommands@, text@)].schema.args@),
            0,
            cur.subcommands@[find_sub(cur.subcommands@, text@)].schema,
            tokens,
            i + 1,
            raws,
            path.push(cur.subcommands@[find_sub(cur.subcommands@, text@)].name@),
            stack.push(cur.subcommands@[find_sub(cur.subcommands@, text@)].schema),
        )),
{
}

/// Every global argument of the visible set stays in the propagated set.
pub proof fn lemma_globals_kept(visible: Seq<ArgumentSpec>, j: int)
    requires
        0 <= j < visible.len(),
        visible[j].global,
    ensures
        spec_globals(visible).contains(visible[j]),
    decreases visible.len(),
{
    if j == visible.len() - 1 {
        assert(spec_globals(visible).last() == visible[j]);
    } else {
        assert(visible.drop_last()[j] == visible[j]);
        lemma_globals_kept(visible.drop_last(), j);
        let s = spec_globals(visible.drop_last());
        let k = choose|k: int| 0 <= k < s.len() && s[k] == visible[j];
        if visible.last().global {
            assert(spec_globals(visible)[k] == visible[j]);
        } else {
            assert(spec_globals(visible)[k] == visible[j]);
        }
    }
}

/// An error under coercion is charged to the argument it came from.
pub open spec fn with_arg(e: ErrV, id: Seq<char>) -> ErrV {
    ErrV { kind: e.kind, arg: Some(id), raw: e.raw, msg: e.msg }
}

/// Coerce a list of raw values left to right; the first failure wins.
pub open spec fn spec_coerce_all(
    vals: Seq<Seq<char>>,
    vt: crate::schema::ValueType,
    va: Option<crate::schema::Validator>,
    k: int,
) -> Result<Seq<TypedValueV>, ErrV>
    decreases vals.len() - k,
{
    if k < 0 || k >= vals.len() {
        Ok(Seq::empty())
    } else {
        match spec_coerce(vals[k], vt, va) {
            Err(e) => Err(e),
            Ok(v) => match spec_coerce_all(vals, vt, va, k + 1) {
                Err(e) => Err(e),
                Ok(rest) => Ok(seq![v] + rest),
            },
        }
    }
}

/// The bound value an argument takes from its raw values: a flag present on
/// the command line is simply true; otherwise every raw value is coerced,
/// and a repeatable argument keeps them all in order while any other keeps
/// its single value.
pub open spec fn bound_from_vals(
    a: ArgumentSpec,
    vals: Seq<Seq<char>>,
    prov: Provenance,
) -> Result<BoundValueV, ErrV> {
    if a.kind is Flag && prov is CommandLine {
        Ok(BoundValueV::Single { value: TypedValueV::Truth(true), provenance: prov })
    } else {
        match spec_coerce_all(vals, a.value_type, a.validator, 0) {
            Err(e) => Err(with_arg(e, a.id@)),
            Ok(tvs) => if tvs.len() == 0 {
                Ok(BoundValueV::Absent)
            } else if is_unbounded(a.arity) {
                Ok(BoundValueV::Many { values: tvs, provenance: prov })
            } else {
                Ok(BoundValueV::Single { value: tvs[0], provenance: prov })
            },
        }
    }
}

/// What one argument binds to, given the recorded occurrences and the
/// environment.
pub open spec fn arg_bound(a: ArgumentSpec, raws: Seq<RawV>, env: Seq<EnvPair>) -> Result<
    BoundValueV,
    ErrV,
> {
    match arg_source(a, raws, env) {
        None => Ok(BoundValueV::Absent),
        Some((vals, prov)) => bound_from_vals(a, vals, prov),
    }
}

/// All arguments of the schema levels along the resolved path, root first,
/// each level in declaration order.
pub open spec fn all_args(stack: Seq<Schema>) -> Seq<ArgumentSpec>
    decreases stack.len(),
{
    if stack.len() == 0 {
        Seq::empty()
    } else {
        all_args(stack.drop_last()) + stack.last().args@
    }
}

/// The first required argument with no source anywhere, or the length.
pub open spec fn first_missing_from(
    args: Seq<ArgumentSpec>,
    raws: Seq<RawV>,
    env: Seq<EnvPair>,
    k: int,
) -> int
    decreases args.len() - k,
{
    if k < 0 || k >= args.len() {
        args.len() as int
    } else if args[k].required && arg_source(args[k], raws, env) is None {
        k
    } else {
        first_missing_from(args, raws, env, k + 1)
    }
}

pub proof fn lemma_first_missing_is(
    args: Seq<ArgumentSpec>,
    raws: Seq<RawV>,
    env: Seq<EnvPair>,
    from: int,
    k: int,
)
    requires
        0 <= from <= k <= args.len(),
        k < args.len() ==> args[k].required && arg_source(args[k], raws, env) is None,
        forall|j: int|
            from <= j < k ==> !((#[trigger] args[j]).required && arg_source(args[j], raws, env) is None),
    ensures
        first_missing_from(args, raws, env, from) == k,
    decreases args.len() - from,
{
    if from < args.len() && !(args[from].required && arg_source(args[from], raws, env) is None) {
        lemma_first_missing_is(args, raws, env, from + 1, k);
    }
}

/// The message a missing required argument is reported with.
pub open spec fn missing_required_err(id: Seq<char>) -> ErrV {
    ErrV {
        kind: ErrorKind::MissingRequired,
        arg: Some(id),
        raw: None,
        msg: "no value from the command line, the environment, or a default"@,
    }
}

/// The entries for the arguments from position `k` on; the first coercion
/// failure wins.
pub open spec fn spec_entries(
    args: Seq<ArgumentSpec>,
    raws: Seq<RawV>,
    env: Seq<EnvPair>,
    k: int,
) -> Result<Seq<BindingV>, ErrV>
    decreases args.len() - k,
{
    if k < 0 || k >= args.len() {
        Ok(Seq::empty())
    } else {
        match arg_bound(args[k], raws, env) {
            Err(e) => Err(e),
            Ok(bv) => match spec_entries(args, raws, env, k + 1) {
                Err(e) => Err(e),
                Ok(rest) => Ok(seq![BindingV { id: args[k].id@, value: bv }] + rest),
            },
        }
    }
}

/// After the walk: every required argument must have some source, and then
/// every present raw value is coerced, in declaration order along the path.
pub open spec fn spec_finalize(
    stack: Seq<Schema>,
    raws: Seq<RawV>,
    env: Seq<EnvPair>,
    path: Seq<Seq<char>>,
) -> Result<BoundSetV, ErrV> {
    let args = all_args(stack);
    let m = first_missing_from(args, raws, env, 0);
    if m < args.len() {
        Err(missing_required_err(args[m].id@))
    } else {
        match spec_entries(args, raws, env, 0) {
            Err(e) => Err(e),
            Ok(es) => Ok(BoundSetV { entries: es, path }),
        }
    }
}

/// Required-field gap: when some required argument has no source at all, the
/// whole parse fails with `MissingRequired` naming the first such argument,
/// and no partial bound set is returned.
pub proof fn lemma_required_gap(
    stack: Seq<Schema>,
    raws: Seq<RawV>,
    env: Seq<EnvPair>,
    path: Seq<Seq<char>>,
    k: int,
)
    requires
        0 <= k < all_args(stack).len(),
        all_args(stack)[k].required,
        arg_source(all_args(stack)[k], raws, env) is None,
        forall|j: int|
            0 <= j < k ==> !((#[trigger] all_args(stack)[j]).required && arg_source(
                all_args(stack)[j],
                raws,
                env,
            ) is None),
    ensures
        spec_finalize(stack, raws, env, path) == Err::<BoundSetV, _>(
            missing_required_err(all_args(stack)[k].id@),
        ),
{
    lemma_first_missing_is(all_args(stack), raws, env, 0, k);
}

/// The whole binding pass over a token sequence.
pub open spec fn spec_bind(root: Schema, tokens: Seq<Token>, env: Seq<EnvPair>) -> Result<
    BoundSetV,
    ErrV,
> {
    match spec_walk(
        root.args@,
        spec_positionals(root.args@),
        0,
        root,
        tokens,
        0,
        Seq::empty(),
        Seq::empty(),
        seq![root],
    ) {
        Err(e) => Err(e),
        Ok(w) => spec_finalize(w.stack, w.raws, env, w.path),
    }
}

/// The arguments of one schema, as references in declaration order.
fn refs_of<'a>(args: &'a Vec<ArgumentSpec>) -> (r: Vec<&'a ArgumentSpec>)
    ensures
        specs_v(r@) == args@,
{
    let n = args.len();
    let mut out: Vec<&'a ArgumentSpec> = Vec::new();
    let mut k: usize = 0;
    while k < n
        invariant
            0 <= k <= n,
            n == args@.len(),
            specs_v(out@) == args@.take(k as int),
        decreases n - k,
    {
        let ghost before = out@;
        out.push(&args[k]);
        proof {
            lemma_derefs_push(before, &args[k as int]);
            assert(args@.take(k as int + 1) =~= args@.take(k as int).push(args@[k as int]));
        }
        k = k + 1;
    }
    proof {
        assert(args@.take(n as int) =~= args@);
    }
    out
}

/// All arguments along the resolved path, root first.
fn collect_args<'a>(stack: &Vec<&'a Schema>) -> (r: Vec<&'a ArgumentSpec>)
    ensures
        specs_v(r@) == all_args(stack_v(stack@)),
{
    let nl = stack.len();
    let ghost levels = stack_v(stack@);
    let mut out: Vec<&'a ArgumentSpec> = Vec::new();
    let mut l: usize = 0;
    proof {
        lemma_derefs(stack@);
    }
    while l < nl
        invariant
            0 <= l <= nl,
            nl == stack@.len(),
            levels == stack_v(stack@),
            levels.len() == nl,
            forall|i: int| 0 <= i < nl ==> levels[i] == *(#[trigger] stack@[i]),
            specs_v(out@) == all_args(levels.take(l as int)),
        decreases nl - l,
    {
        let level = stack[l];
        let n = level.args.len();
        let ghost base = specs_v(out@);
        let mut m: usize = 0;
        while m < n
            invariant
                0 <= m <= n,
                0 <= l < nl,
                nl == stack@.len(),
                levels.len() == nl,
                forall|i: int| 0 <= i < nl ==> levels[i] == *(#[trigger] stack@[i]),
                n == level.args@.len(),
                level == stack@[l as int],
                specs_v(out@) == base + level.args@.take(m as int),
            decreases n - m,
        {
            let ghost before = out@;
            out.push(&level.args[m]);
            proof {
                lemma_derefs_push(before, &level.args[m as int]);
                assert(level.args@.take(m as int + 1) =~= level.args@.take(m as int).push(
                    level.args@[m as int],
                ));
                assert(specs_v(out@) =~= base + level.args@.take(m as int + 1));
            }
            m = m + 1;
        }
        proof {
            assert(level.args@.take(n as int) =~= level.args@);
            assert(levels.take(l as int + 1).drop_last() =~= levels.take(l as int));
            assert(levels.take(l as int + 1).last() == levels[l as int]);
            assert(specs_v(out@) == all_args(levels.take(l as int + 1)));
        }
        l = l + 1;
    }
    proof {
        assert(levels.take(nl as int) =~= levels);
    }
    out
}

/// Whether an argument has no source anywhere.
fn source_absent(a: &ArgumentSpec, raws: &Vec<RawEntry>, env: &Vec<EnvPair>) -> (r: bool)
    ensures
        r == (arg_source(*a, raws_v(raws@), env@) is None),
{
    if find_raw(raws, a.id.as_str()).is_some() {
        return false;
    }
    let env_hit = match &a.env_name {
        Some(n) => env_lookup(env, n.as_str()).is_some(),
        None => false,
    };
    if env_hit {
        return false;
    }
    a.default.is_none()
}

/// The first required argument with no source, or the length.
fn first_missing(args: &Vec<&ArgumentSpec>, raws: &Vec<RawEntry>, env: &Vec<EnvPair>) -> (r: usize)
    ensures
        r == first_missing_from(specs_v(args@), raws_v(raws@), env@, 0),
        r <= args@.len(),
{
    let n = args.len();
    let mut k: usize = 0;
    proof {
        lemma_derefs(args@);
    }
    while k < n
        invariant
            0 <= k <= n,
            n == args@.len(),
            first_missing_from(specs_v(args@), raws_v(raws@), env@, 0) == first_missing_from(
                specs_v(args@),
                raws_v(raws@),
                env@,
                k as int,
            ),
        decreases n - k,
    {
        proof {
            lemma_derefs(args@);
        }
        let a = args[k];
        if a.required && source_absent(a, raws, env) {
            return k;
        }
        k = k + 1;
    }
    n
}

/// Coerce the raw values of one argument, left to right.
fn coerce_vals(
    vals: &Vec<String>,
    vt: &crate::schema::ValueType,
    va: Option<crate::schema::Validator>,
    k: usize,
) -> (r: Result<Vec<TypedValue>, ValidationError>)
    ensures
        (match r {
            Ok(ts) => Ok::<Seq<TypedValueV>, ErrV>(values_v(ts@)),
            Err(e) => Err(e@),
        }) == spec_coerce_all(vals.deep_view(), *vt, va, k as int),
    decreases vals@.len() - k,
{
    proof {
        assert(vals.deep_view().len() == vals@.len());
    }
    if k >= vals.len() {
        proof {
            assert(values_v(Seq::<TypedValue>::empty()) =~= Seq::<TypedValueV>::empty());
        }
        return Ok(Vec::new());
    }
    proof {
        assert(vals.deep_view()[k as int] == vals@[k as int]@);
    }
    match coerce(vals[k].as_str(), vt, va) {
        Err(e) => Err(e),
        Ok(t) => {
            match coerce_vals(vals, vt, va, k + 1) {
                Err(e) => Err(e),
                Ok(rest) => {
                    let ghost restv = rest@;
                    let ghost tv = t@;
                    let mut out: Vec<TypedValue> = Vec::new();
                    out.push(t);
                    let mut rest = rest;
                    out.append(&mut rest);
                    proof {
                        lemma_values_v(out@);
                        lemma_values_v(restv);
                        assert(values_v(out@) =~= seq![tv] + values_v(restv));
                    }
                    Ok(out)
                },
            }
        },
    }
}

fn with_arg_exec(e: ValidationError, id: &str) -> (r: ValidationError)
    ensures
        r@ == with_arg(e@, id@),
{
    ValidationError { kind: e.kind, arg_id: Some(id.to_owned()), raw: e.raw, message: e.message }
}

/// The bound value one argument takes, from its source and coercion.
fn bound_of(a: &ArgumentSpec, raws: &Vec<RawEntry>, env: &Vec<EnvPair>) -> (r: Result<
    BoundValue,
    ValidationError,
>)
    ensures
        (match r {
            Ok(b) => Ok::<BoundValueV, ErrV>(b@),
            Err(e) => Err(e@),
        }) == arg_bound(*a, raws_v(raws@), env@),
{
    match find_raw(raws, a.id.as_str()) {
        Some(idx) => {
            let is_flag = match a.kind {
                ArgKind::Flag => true,
                _ => false,
            };
            if is_flag {
                Ok(
                    BoundValue::Single {
                        value: TypedValue::Truth(true),
                        provenance: Provenance::CommandLine,
                    },
                )
            } else {
                bound_from_list(a, &raws[idx].vals, Provenance::CommandLine)
            }
        },
        None => {
            let env_val: Option<String> = match &a.env_name {
                Some(n) => env_lookup(env, n.as_str()),
                None => None,
            };
            match env_val {
                Some(v) => {
                    let mut one: Vec<String> = Vec::new();
                    one.push(v);
                    proof {
                        assert(one.deep_view() =~= seq![env_find(env@, a.env_name->0@)->0]);
                    }
                    bound_from_list(a, &one, Provenance::Environment)
                },
                None => {
                    match &a.default {
                        Some(d) => {
                            let mut one: Vec<String> = Vec::new();
                            one.push(d.clone());
                            proof {
                                assert(one.deep_view() =~= seq![a.default->0@]);
                            }
                            bound_from_list(a, &one, Provenance::DefaultValue)
                        },
                        None => Ok(BoundValue::Absent),
                    }
                },
            }
        },
    }
}

/// Coerce a source's value list and shape it by the argument's arity.
fn bound_from_list(a: &ArgumentSpec, vals: &Vec<String>, prov: Provenance) -> (r: Result<
    BoundValue,
    ValidationError,
>)
    requires
        !(a.kind is Flag && prov is CommandLine),
    ensures
        (match r {
            Ok(b) => Ok::<BoundValueV, ErrV>(b@),
            Err(e) => Err(e@),
        }) == bound_from_vals(*a, vals.deep_view(), prov),
{
    match coerce_vals(vals, &a.value_type, a.validator, 0) {
        Err(e) => Err(with_arg_exec(e, a.id.as_str())),
        Ok(tvs) => {
            proof {
                lemma_values_v(tvs@);
            }
            if tvs.len() == 0 {
                Ok(BoundValue::Absent)
            } else if repeatable(a) {
                Ok(BoundValue::Many { values: tvs, provenance: prov })
            } else {
                let mut tvs = tvs;
                let first = tvs.remove(0);
                Ok(BoundValue::Single { value: first, provenance: prov })
            }
        },
    }
}

/// The entries for the arguments from position `k` on.
fn entries_from(
    args: &Vec<&ArgumentSpec>,
    raws: &Vec<RawEntry>,
    env: &Vec<EnvPair>,
    k: usize,
) -> (r: Result<Vec<Binding>, ValidationError>)
    ensures
        (match r {
            Ok(es) => Ok::<Seq<BindingV>, ErrV>(bindings_v(es@)),
            Err(e) => Err(e@),
        }) == spec_entries(specs_v(args@), raws_v(raws@), env@, k as int),
    decreases args@.len() - k,
{
    proof {
        lemma_derefs(args@);
    }
    if k >= args.len() {
        proof {
            assert(bindings_v(Seq::<Binding>::empty()) =~= Seq::<BindingV>::empty());
        }
        return Ok(Vec::new());
    }
    let a = args[k];
    match bound_of(a, raws, env) {
        Err(e) => Err(e),
        Ok(bv) => {
            match entries_from(args, raws, env, k + 1) {
                Err(e) => Err(e),
                Ok(rest) => {
                    let ghost restv = rest@;
                    let b = Binding { id: a.id.clone(), value: bv };
                    let ghost bvv = b@;
                    let mut out: Vec<Binding> = Vec::new();
                    out.push(b);
                    let mut rest = rest;
                    out.append(&mut rest);
                    proof {
                        lemma_bindings_v(out@);
                        lemma_bindings_v(restv);
                        assert(bindings_v(out@) =~= seq![bvv] + bindings_v(restv));
                    }
                    Ok(out)
                },
            }
        },
    }
}

/// A binding outcome, seen mathematically.
pub open spec fn bind_view(r: Result<BoundSet, ValidationError>) -> Result<BoundSetV, ErrV> {
    match r {
        Ok(b) => Ok(b@),
        Err(e) => Err(e@),
    }
}

/// Bind a token sequence against a schema: match every token, route through
/// the subcommand tree, merge environment and default fallbacks, check the
/// required arguments, and coerce every present value.  The result is
/// exactly `spec_bind`.
pub fn bind(root: &Schema, tokens: &Vec<Token>, env: &Vec<EnvPair>) -> (r: Result<
    BoundSet,
    ValidationError,
>)
    ensures
        bind_view(r) == spec_bind(*root, tokens@, env@),
{
    let visible = refs_of(&root.args);
    let poss = positionals_of(&root.args);
    let mut stack0: Vec<&Schema> = Vec::new();
    stack0.push(root);
    let raws0: Vec<RawEntry> = Vec::new();
    let path0: Vec<String> = Vec::new();
    proof {
        lemma_derefs_push(Seq::<&Schema>::empty(), root);
        assert(stack_v(stack0@) =~= seq![*root]);
        assert(raws_v(raws0@) =~= Seq::<RawV>::empty());
        assert(path0.deep_view() =~= Seq::<Seq<char>>::empty());
    }
    match walk(visible, poss, 0, root, tokens, 0, raws0, path0, stack0) {
        Err(e) => Err(e),
        Ok((raws, path, stack)) => {
            let args = collect_args(&stack);
            proof {
                lemma_derefs(args@);
            }
            let m = first_missing(&args, &raws, env);
            if m < args.len() {
                proof {
                    lemma_derefs(args@);
                }
                Err(
                    ValidationError {
                        kind: ErrorKind::MissingRequired,
                        arg_id: Some(args[m].id.clone()),
                        raw: None,
                        message:
                            "no value from the command line, the environment, or a default".to_owned(),
                    },
                )
            } else {
                match entries_from(&args, &raws, env, 0) {
                    Err(e) => Err(e),
                    Ok(entries) => Ok(BoundSet { entries, path }),
                }
            }
        },
    }
}

/// The tokens are exactly what the tokenizer yields for this argument
/// vector.
pub open spec fn tokens_model(tokens: Seq<Token>, argv: Seq<String>) -> bool {
    tokens.len() == argv.len() && forall|i: int|
        0 <= i < argv.len() ==> crate::token::token_models(
            #[trigger] tokens[i],
            argv[i]@,
            crate::token::sep_before(argv, i),
        )
}

/// Parse a raw argument vector against a schema: tokenize it, then bind the
/// tokens, routing through the subcommand tree.  The environment is handed
/// in as a snapshot, so the engine itself performs no I/O.
pub fn route(root: &Schema, argv: &Vec<String>, env: &Vec<EnvPair>) -> (r: Result<
    BoundSet,
    ValidationError,
>)
    ensures
        exists|tokens: Seq<Token>|
            #[trigger] tokens_model(tokens, argv@) && bind_view(r) == spec_bind(
                *root,
                tokens,
                env@,
            ),
{
    let tokens = tokenize(argv);
    let r = bind(root, &tokens, env);
    proof {
        assert(tokens_model(tokens@, argv@));
    }
    r
}

impl BoundSet {
    /// The index of the entry for `id`, or the length when there is none.
    pub open spec fn spec_find(entries: Seq<BindingV>, id: Seq<char>, k: int) -> int
        decreases entries.len() - k,
    {
        if k < 0 || k >= entries.len() {
            entries.len() as int
        } else if entries[k].id == id {
            k
        } else {
            Self::spec_find(entries, id, k + 1)
        }
    }

    /// Look one argument up by its identifier.
    pub fn get<'a>(&'a self, id: &str) -> (r: Option<&'a BoundValue>)
        ensures
            ({
                let k = Self::spec_find(self@.entries, id@, 0);
                match r {
                    Some(b) => k < self@.entries.len() && b@ == self@.entries[k].value,
                    None => k == self@.entries.len(),
                }
            }),
    {
        let n = self.entries.len();
        let mut k: usize = 0;
        proof {
            lemma_bindings_v(self.entries@);
        }
        while k < n
            invariant
                0 <= k <= n,
                n == self.entries@.len(),
                self@.entries.len() == n,
                forall|i: int| 0 <= i < n ==> self@.entries[i] == (#[trigger] self.entries@[i])@,
                Self::spec_find(self@.entries, id@, 0) == Self::spec_find(
                    self@.entries,
                    id@,
                    k as int,
                ),
            decreases n - k,
        {
            if str_eq(self.entries[k].id.as_str(), id) {
                return Some(&self.entries[k].value);
            }
            k = k + 1;
        }
        None
    }
}

} // verus!
