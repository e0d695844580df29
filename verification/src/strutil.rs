//! Small verified string helpers: character-exact equality, membership of a
//! character, and comma-joining a list of names.

use vstd::prelude::*;

verus! {

/// Character-for-character equality of two string slices.
pub fn str_eq(a: &str, b: &str) -> (r: bool)
    ensures
        r == (a@ == b@),
{
    let na = a.unicode_len();
    let nb = b.unicode_len();
    if na != nb {
        proof {
            assert(a@ != b@) by {
                if a@ == b@ {
                    assert(a@.len() == b@.len());
                }
            };
        }
        return false;
    }
    let mut i: usize = 0;
    while i < na
        invariant
            0 <= i <= na,
            na == a@.len(),
            na == b@.len(),
            forall|k: int| 0 <= k < i ==> a@[k] == b@[k],
        decreases na - i,
    {
        if a.get_char(i) != b.get_char(i) {
            return false;
        }
        i = i + 1;
    }
    proof {
        assert(a@ =~= b@);
    }
    true
}

/// Whether `c` occurs anywhere in `s`.
pub fn contains_char(s: &str, c: char) -> (r: bool)
    ensures
        r == s@.contains(c),
{
    let n = s.unicode_len();
    let mut i: usize = 0;
    while i < n
        invariant
            0 <= i <= n,
            n == s@.len(),
            forall|k: int| 0 <= k < i ==> s@[k] != c,
        decreases n - i,
    {
        if s.get_char(i) == c {
            return true;
        }
        i = i + 1;
    }
    proof {
        assert(!s@.contains(c)) by {
            if s@.contains(c) {
                let k = choose|k: int| 0 <= k < s@.len() && s@[k] == c;
                assert(s@[k] != c);
            }
        };
    }
    false
}

/// The names joined with a comma and a space between neighbours.
pub open spec fn joined(xs: Seq<Seq<char>>) -> Seq<char>
    decreases xs.len(),
{
    if xs.len() == 0 {
        Seq::empty()
    } else if xs.len() == 1 {
        xs[0]
    } else {
        joined(xs.drop_last()) + ", "@ + xs.last()
    }
}

/// Join a list of names with `", "` between neighbours.
pub fn join_names(xs: &Vec<String>) -> (r: String)
    ensures
        r@ == joined(xs.deep_view()),
{
    let mut out = String::new();
    let n = xs.len();
    let mut i: usize = 0;
    proof {
        assert(xs.deep_view().len() == xs@.len());
    }
    while i < n
        invariant
            0 <= i <= n,
            n == xs@.len(),
            xs.deep_view().len() == n,
            forall|k: int| 0 <= k < n ==> xs.deep_view()[k] == xs@[k]@,
            out@ == joined(xs.deep_view().take(i as int)),
        decreases n - i,
    {
        if i > 0 {
            out.append(", ");
        }
        out.append(xs[i].as_str());
        proof {
            let dv = xs.deep_view();
            assert(dv.take(i as int + 1).drop_last() =~= dv.take(i as int));
            assert(dv.take(i as int + 1).last() == dv[i as int]);
            if i == 0 {
                assert(out@ =~= joined(dv.take(1)));
            } else {
                assert(out@ =~= joined(dv.take(i as int)) + ", "@ + dv[i as int]);
            }
        }
        i = i + 1;
    }
    proof {
        assert(xs.deep_view().take(n as int) =~= xs.deep_view());
    }
    out
}

} // verus!
