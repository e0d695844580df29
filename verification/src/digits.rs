//! Decimal digit strings: the mathematical reading of a digit sequence,
//! verified parsing into machine integers, and verified rendering back.

use vstd::prelude::*;

verus! {

/// `c` is one of the ten ASCII decimal digits.
pub open spec fn is_dec_digit(c: char) -> bool {
    48 <= c as int && c as int <= 57
}

/// The numeric value of one decimal digit character.
pub open spec fn digit_value(c: char) -> int {
    c as int - 48
}

/// Every character of `s` is a decimal digit.
pub open spec fn all_dec_digits(s: Seq<char>) -> bool {
    forall|k: int| 0 <= k < s.len() ==> is_dec_digit(#[trigger] s[k])
}

/// The value of `s` read as a base-ten numeral (0 for the empty string).
pub open spec fn dec_value(s: Seq<char>) -> int
    decreases s.len(),
{
    if s.len() == 0 {
        0
    } else {
        dec_value(s.drop_last()) * 10 + digit_value(s.last())
    }
}

pub proof fn lemma_dec_value_nonneg(s: Seq<char>)
    requires
        all_dec_digits(s),
    ensures
        dec_value(s) >= 0,
    decreases s.len(),
{
    if s.len() > 0 {
        assert(all_dec_digits(s.drop_last()));
        lemma_dec_value_nonneg(s.drop_last());
    }
}

/// Reading one more digit multiplies the prefix value by ten and adds it.
pub proof fn lemma_dec_value_take_step(s: Seq<char>, k: int)
    requires
        0 <= k < s.len(),
    ensures
        dec_value(s.take(k + 1)) == dec_value(s.take(k)) * 10 + digit_value(s[k]),
{
    assert(s.take(k + 1).drop_last() =~= s.take(k));
    assert(s.take(k + 1).last() == s[k]);
}

/// A digit string is worth at least any of its prefixes.
pub proof fn lemma_dec_value_take_le(s: Seq<char>, k: int)
    requires
        all_dec_digits(s),
        0 <= k <= s.len(),
    ensures
        dec_value(s.take(k)) <= dec_value(s),
    decreases s.len() - k,
{
    if k == s.len() {
        assert(s.take(k) =~= s);
    } else {
        assert(all_dec_digits(s.take(k)));
        lemma_dec_value_nonneg(s.take(k));
        lemma_dec_value_take_step(s, k);
        lemma_dec_value_take_le(s, k + 1);
    }
}

/// A nonempty string of decimal digits.
pub open spec fn valid_digits(s: Seq<char>) -> bool {
    s.len() > 0 && all_dec_digits(s)
}

/// The numeral with one leading `+` removed, as the machine's integer
/// parsers read it.
pub open spec fn unsigned_body(s: Seq<char>) -> Seq<char> {
    if s.len() >= 1 && s[0] == '+' {
        s.skip(1)
    } else {
        s
    }
}

/// Parse a string of decimal digits into a `u64`, detecting overflow
/// exactly: the result is `Some` for precisely the nonempty all-digit
/// strings whose value fits.
fn parse_digits(s: &str) -> (r: Option<u64>)
    ensures
        r is Some <==> (valid_digits(s@) && dec_value(s@) <= u64::MAX),
        r matches Some(v) ==> v == dec_value(s@),
{
    let n = s.unicode_len();
    if n == 0 {
        return None;
    }
    let mut acc: u64 = 0;
    let mut i: usize = 0;
    while i < n
        invariant
            0 <= i <= n,
            n == s@.len(),
            all_dec_digits(s@.take(i as int)),
            acc == dec_value(s@.take(i as int)),
        decreases n - i,
    {
        let c = s.get_char(i);
        let cu = c as u32;
        if cu < 48 || cu > 57 {
            assert(!is_dec_digit(s@[i as int]));
            return None;
        }
        let d = (cu - 48) as u64;
        proof {
            lemma_dec_value_take_step(s@, i as int);
        }
        if acc > (u64::MAX - d) / 10 {
            proof {
                assert(acc * 10 + d > u64::MAX) by {
                    assert(acc >= (u64::MAX - d) / 10 + 1);
                    assert(acc * 10 >= ((u64::MAX - d) / 10 + 1) * 10) by (nonlinear_arith)
                        requires
                            acc >= (u64::MAX - d) / 10 + 1,
                    ;
                    assert(((u64::MAX - d) / 10 + 1) * 10 > u64::MAX - d) by (nonlinear_arith);
                };
                if all_dec_digits(s@) {
                    lemma_dec_value_take_le(s@, i as int + 1);
                }
            }
            return None;
        }
        proof {
            assert(acc * 10 + d <= u64::MAX) by {
                assert(acc * 10 <= ((u64::MAX - d) / 10) * 10) by (nonlinear_arith)
                    requires
                        acc <= (u64::MAX - d) / 10,
                ;
                assert(((u64::MAX - d) / 10) * 10 <= u64::MAX - d) by (nonlinear_arith);
            };
        }
        acc = acc * 10 + d;
        i = i + 1;
    }
    proof {
        assert(s@.take(n as int) =~= s@);
    }
    Some(acc)
}

/// Parse an unsigned base-ten numeral — an optional leading `+`, then
/// digits — into a `u64`, detecting overflow exactly.
pub fn parse_u64(s: &str) -> (r: Option<u64>)
    ensures
        r is Some <==> (valid_digits(unsigned_body(s@)) && dec_value(unsigned_body(s@))
            <= u64::MAX),
        r matches Some(v) ==> v == dec_value(unsigned_body(s@)),
{
    let n = s.unicode_len();
    if n >= 1 && s.get_char(0) == '+' {
        let rest = s.substring_char(1, n);
        proof {
            assert(rest@ =~= s@.skip(1));
        }
        parse_digits(rest)
    } else {
        parse_digits(s)
    }
}

/// The digit character of a value between 0 and 9.
pub open spec fn digit_char(d: int) -> char {
    if d == 0 {
        '0'
    } else if d == 1 {
        '1'
    } else if d == 2 {
        '2'
    } else if d == 3 {
        '3'
    } else if d == 4 {
        '4'
    } else if d == 5 {
        '5'
    } else if d == 6 {
        '6'
    } else if d == 7 {
        '7'
    } else if d == 8 {
        '8'
    } else {
        '9'
    }
}

/// The canonical base-ten numeral of a nonnegative value: no sign, no
/// leading zero (except for the single digit of zero itself).
pub open spec fn spec_digits(n: int) -> Seq<char>
    decreases n,
{
    if n < 10 {
        seq![digit_char(n)]
    } else {
        spec_digits(n / 10).push(digit_char(n % 10))
    }
}

pub proof fn lemma_spec_digits_value(n: int)
    requires
        n >= 0,
    ensures
        all_dec_digits(spec_digits(n)),
        dec_value(spec_digits(n)) == n,
        spec_digits(n).len() > 0,
    decreases n,
{
    if n < 10 {
        assert(is_dec_digit(digit_char(n)));
        assert(spec_digits(n).drop_last() =~= Seq::<char>::empty());
        assert(dec_value(Seq::<char>::empty()) == 0);
        assert(spec_digits(n).last() == digit_char(n));
        assert(digit_value(digit_char(n)) == n);
    } else {
        lemma_spec_digits_value(n / 10);
        assert(spec_digits(n).drop_last() =~= spec_digits(n / 10));
        assert(spec_digits(n).last() == digit_char(n % 10));
        assert(is_dec_digit(digit_char(n % 10)));
        assert(digit_value(digit_char(n % 10)) == n % 10);
        assert(spec_digits(n) == spec_digits(n / 10).push(digit_char(n % 10)));
        assert(spec_digits(n).drop_last() =~= spec_digits(n / 10));
        assert(dec_value(spec_digits(n)) == dec_value(spec_digits(n / 10)) * 10 + digit_value(
            digit_char(n % 10),
        ));
        assert((n / 10) * 10 + n % 10 == n) by (nonlinear_arith)
            requires
                n >= 10,
        ;
        assert forall|k: int| 0 <= k < spec_digits(n).len() implies is_dec_digit(
            #[trigger] spec_digits(n)[k],
        ) by {
            if k < spec_digits(n).len() - 1 {
                assert(spec_digits(n)[k] == spec_digits(n / 10)[k]);
            } else {
                assert(spec_digits(n)[k] == digit_char(n % 10));
            }
        }
    }
}

/// The one-character string of a decimal digit.
fn digit_str(d: u64) -> (r: &'static str)
    requires
        d < 10,
    ensures
        r@ =~= seq![digit_char(d as int)],
{
    proof {
        reveal_strlit("0");
        reveal_strlit("1");
        reveal_strlit("2");
        reveal_strlit("3");
        reveal_strlit("4");
        reveal_strlit("5");
        reveal_strlit("6");
        reveal_strlit("7");
        reveal_strlit("8");
        reveal_strlit("9");
    }
    if d == 0 {
        "0"
    } else if d == 1 {
        "1"
    } else if d == 2 {
        "2"
    } else if d == 3 {
        "3"
    } else if d == 4 {
        "4"
    } else if d == 5 {
        "5"
    } else if d == 6 {
        "6"
    } else if d == 7 {
        "7"
    } else if d == 8 {
        "8"
    } else {
        "9"
    }
}

/// Render a `u64` as its canonical base-ten numeral.
pub fn render_u64(n: u64) -> (r: String)
    ensures
        r@ == spec_digits(n as int),
    decreases n,
{
    if n < 10 {
        let mut out = String::new();
        out.append(digit_str(n));
        proof {
            assert(out@ =~= spec_digits(n as int));
        }
        out
    } else {
        let mut out = render_u64(n / 10);
        out.append(digit_str(n % 10));
        proof {
            assert(out@ =~= spec_digits(n as int));
        }
        out
    }
}

/// The canonical string of a signed value: a minus sign for negatives,
/// then the numeral of the magnitude.
pub open spec fn int_canon(v: int) -> Seq<char> {
    if v >= 0 {
        spec_digits(v)
    } else {
        seq!['-'].add(spec_digits(-v))
    }
}

/// Render an `i64` as its canonical base-ten form.
pub fn render_i64(v: i64) -> (r: String)
    ensures
        r@ == int_canon(v as int),
{
    if v >= 0 {
        render_u64(v as u64)
    } else {
        let mag: u64 = ((-(v + 1)) as u64) + 1;
        assert(mag == -(v as int));
        let mut out = String::new();
        proof {
            reveal_strlit("-");
        }
        out.append("-");
        let digits = render_u64(mag);
        out.append(digits.as_str());
        proof {
            assert(out@ =~= int_canon(v as int));
        }
        out
    }
}

/// The numeral with one leading `+` or `-` removed.
pub open spec fn signed_body(s: Seq<char>) -> Seq<char> {
    if s.len() >= 1 && (s[0] == '+' || s[0] == '-') {
        s.skip(1)
    } else {
        s
    }
}

/// The numeral carries a minus sign.
pub open spec fn is_negative_numeral(s: Seq<char>) -> bool {
    s.len() >= 1 && s[0] == '-'
}

/// `s` reads as a signed base-ten integer — an optional `+` or `-`, then
/// digits — whose value fits an `i64`.
pub open spec fn valid_int_str(s: Seq<char>) -> bool {
    &&& valid_digits(signed_body(s))
    &&& if is_negative_numeral(s) {
        -dec_value(signed_body(s)) >= i64::MIN
    } else {
        dec_value(signed_body(s)) <= i64::MAX
    }
}

/// The signed value of an integer string (meaningful when `valid_int_str`).
pub open spec fn int_of(s: Seq<char>) -> int {
    if is_negative_numeral(s) {
        -dec_value(signed_body(s))
    } else {
        dec_value(signed_body(s))
    }
}

/// Parse an optionally signed decimal string into an `i64`; `Some` exactly
/// when the string is well formed and the value fits.
pub fn parse_i64(s: &str) -> (r: Option<i64>)
    ensures
        r is Some <==> valid_int_str(s@),
        r matches Some(v) ==> v == int_of(s@),
{
    let n = s.unicode_len();
    if n == 0 {
        return None;
    }
    let c0 = s.get_char(0);
    if c0 == '-' {
        let rest = s.substring_char(1, n);
        proof {
            assert(rest@ =~= s@.skip(1));
        }
        match parse_digits(rest) {
            Some(m) => {
                if m <= 9223372036854775807u64 {
                    Some(-(m as i64))
                } else if m == 9223372036854775808u64 {
                    Some(i64::MIN)
                } else {
                    None
                }
            },
            None => {
                proof {
                    if valid_digits(s@.skip(1)) {
                        lemma_dec_value_nonneg(s@.skip(1));
                    }
                }
                None
            },
        }
    } else if c0 == '+' {
        let rest = s.substring_char(1, n);
        proof {
            assert(rest@ =~= s@.skip(1));
        }
        match parse_digits(rest) {
            Some(m) => {
                if m <= 9223372036854775807u64 {
                    Some(m as i64)
                } else {
                    None
                }
            },
            None => None,
        }
    } else {
        match parse_digits(s) {
            Some(m) => {
                if m <= 9223372036854775807u64 {
                    Some(m as i64)
                } else {
                    None
                }
            },
            None => None,
        }
    }
}

/// Rendering an `i64` always yields a string that parses back to it.
pub proof fn lemma_int_canon_round_trip(v: i64)
    ensures
        valid_int_str(int_canon(v as int)),
        int_of(int_canon(v as int)) == v as int,
{
    if v >= 0 {
        lemma_spec_digits_value(v as int);
        assert(is_dec_digit(int_canon(v as int)[0]));
        assert(int_canon(v as int)[0] != '-' && int_canon(v as int)[0] != '+');
        assert(signed_body(int_canon(v as int)) == int_canon(v as int));
    } else {
        lemma_spec_digits_value(-(v as int));
        assert(int_canon(v as int)[0] == '-');
        assert(int_canon(v as int).skip(1) =~= spec_digits(-(v as int)));
    }
}

} // verus!
