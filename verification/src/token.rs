//! The tokenizer: classifies each raw argument into a lexical token.  This
//! pass does no schema lookup and cannot fail; telling known from unknown
//! names is the binder's job.

use vstd::prelude::*;

verus! {

/// A classified fragment of the argument vector.
#[derive(Debug, PartialEq, Eq)]
pub enum Token {
    /// `--name` or `--name=value`.
    Long { name: String, inline: Option<String> },
    /// A single-dash cluster: the text after the dash, e.g. `vn` of `-vn`.
    Shorts { body: String },
    /// Anything bound by position, taken verbatim.
    Plain { text: String },
    /// The literal `--` end-of-options marker.
    Separator,
}

/// The raw argument is exactly the two-character end-of-options marker.
pub open spec fn is_sep_arg(a: Seq<char>) -> bool {
    a.len() == 2 && a[0] == '-' && a[1] == '-'
}

/// Some end-of-options marker stands strictly before position `i`.
pub open spec fn sep_before(argv: Seq<String>, i: int) -> bool {
    exists|j: int| 0 <= j < i && is_sep_arg((#[trigger] argv[j])@)
}

/// The first position at or after `from` holding `=`, or the length.
pub open spec fn find_eq(s: Seq<char>, from: int) -> int
    decreases s.len() - from,
{
    if from < 0 || from >= s.len() {
        s.len() as int
    } else if s[from] == '=' {
        from
    } else {
        find_eq(s, from + 1)
    }
}

/// `find_eq` is pinned by its characteristic properties.
pub proof fn lemma_find_eq_is(s: Seq<char>, from: int, k: int)
    requires
        0 <= from <= k <= s.len(),
        k < s.len() ==> s[k] == '=',
        forall|j: int| from <= j < k ==> s[j] != '=',
    ensures
        find_eq(s, from) == k,
    decreases s.len() - from,
{
    if from < s.len() && s[from] != '=' {
        lemma_find_eq_is(s, from + 1, k);
    }
}

/// The token a raw argument classifies to, given whether an end-of-options
/// marker came earlier.  This is the tokenizer's whole specification.
pub open spec fn token_models(t: Token, a: Seq<char>, after: bool) -> bool {
    if after || a.len() <= 1 || a[0] != '-' {
        t matches Token::Plain { text } && text@ == a
    } else if a.len() == 2 && a[1] == '-' {
        t is Separator
    } else if a[1] == '-' {
        // a.len() > 2 here
        let e = find_eq(a, 2);
        if e == a.len() {
            t matches Token::Long { name, inline } && name@ == a.skip(2) && inline is None
        } else {
            t matches Token::Long { name, inline: Some(v) } && name@ == a.subrange(2, e) && v@
                == a.subrange(e + 1, a.len() as int)
        }
    } else {
        t matches Token::Shorts { body } && body@ == a.skip(1)
    }
}

/// Find the first `=` at or after position 2, or return the length.
fn find_eq_exec(s: &str, n: usize) -> (k: usize)
    requires
        n == s@.len(),
        n > 2,
    ensures
        k == find_eq(s@, 2),
        2 <= k <= n,
{
    let mut k: usize = 2;
    while k < n
        invariant
            2 <= k <= n,
            n == s@.len(),
            forall|j: int| 2 <= j < k ==> s@[j] != '=',
        decreases n - k,
    {
        if s.get_char(k) == '=' {
            proof {
                lemma_find_eq_is(s@, 2, k as int);
            }
            return k;
        }
        k = k + 1;
    }
    proof {
        lemma_find_eq_is(s@, 2, n as int);
    }
    k
}

/// Classify one raw argument seen outside end-of-options mode.
fn classify(s: &String) -> (t: Token)
    ensures
        token_models(t, s@, false),
{
    let n = s.as_str().unicode_len();
    if n <= 1 {
        return Token::Plain { text: s.clone() };
    }
    let c0 = s.as_str().get_char(0);
    if c0 != '-' {
        return Token::Plain { text: s.clone() };
    }
    let c1 = s.as_str().get_char(1);
    if c1 != '-' {
        let body = s.as_str().substring_char(1, n).to_owned();
        proof {
            assert(body@ =~= s@.skip(1));
        }
        return Token::Shorts { body };
    }
    if n == 2 {
        return Token::Separator;
    }
    // long option: find the first `=` after the two dashes
    let k = find_eq_exec(s.as_str(), n);
    if k == n {
        let name = s.as_str().substring_char(2, n).to_owned();
        proof {
            assert(name@ =~= s@.skip(2));
        }
        Token::Long { name, inline: None }
    } else {
        let name = s.as_str().substring_char(2, k).to_owned();
        let value = s.as_str().substring_char(k + 1, n).to_owned();
        Token::Long { name, inline: Some(value) }
    }
}

/// Split a raw argument vector into tokens.  Before any `--`, arguments are
/// classified by their leading dashes; the `--` itself becomes `Separator`
/// and everything after it is a verbatim positional.
pub fn tokenize(argv: &Vec<String>) -> (r: Vec<Token>)
    ensures
        r@.len() == argv@.len(),
        forall|i: int|
            0 <= i < argv@.len() ==> token_models(#[trigger] r@[i], argv@[i]@, sep_before(argv@, i)),
{
    let n = argv.len();
    let mut out: Vec<Token> = Vec::new();
    let mut after = false;
    let mut i: usize = 0;
    while i < n
        invariant
            0 <= i <= n,
            n == argv@.len(),
            out@.len() == i,
            after == sep_before(argv@, i as int),
            forall|k: int|
                0 <= k < i ==> token_models(#[trigger] out@[k], argv@[k]@, sep_before(argv@, k)),
        decreases n - i,
    {
        let a = &argv[i];
        if after {
            out.push(Token::Plain { text: a.clone() });
            proof {
                assert(sep_before(argv@, i as int + 1)) by {
                    let j = choose|j: int| 0 <= j < i && is_sep_arg((#[trigger] argv@[j])@);
                    assert(is_sep_arg(argv@[j]@));
                }
            }
        } else {
            let t = classify(a);
            let is_sep = match &t {
                Token::Separator => true,
                _ => false,
            };
            out.push(t);
            if is_sep {
                after = true;
                proof {
                    assert(is_sep_arg(argv@[i as int]@));
                    assert(sep_before(argv@, i as int + 1));
                }
            } else {
                proof {
                    assert(!sep_before(argv@, i as int + 1)) by {
                        if sep_before(argv@, i as int + 1) {
                            let j = choose|j: int|
                                0 <= j < i + 1 && is_sep_arg((#[trigger] argv@[j])@);
                            if j < i {
                                assert(sep_before(argv@, i as int));
                            } else {
                                assert(is_sep_arg(argv@[i as int]@));
                            }
                        }
                    }
                }
            }
        }
        i = i + 1;
    }
    out
}

/// End-of-options literalness: once some argument before position `i` is the
/// `--` marker, the token at `i` is a verbatim positional, whatever dashes
/// the argument carries.
pub proof fn lemma_end_of_options_literal(tokens: Seq<Token>, argv: Seq<String>, j: int, i: int)
    requires
        tokens.len() == argv.len(),
        forall|k: int|
            0 <= k < argv.len() ==> token_models(#[trigger] tokens[k], argv[k]@, sep_before(
                argv,
                k,
            )),
        0 <= j < i < argv.len(),
        is_sep_arg(argv[j]@),
    ensures
        tokens[i] matches Token::Plain { text } && text@ == argv[i]@,
{
    assert(sep_before(argv, i));
    assert(token_models(tokens[i], argv[i]@, true));
}

} // verus!
