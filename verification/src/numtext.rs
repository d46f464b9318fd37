//! Decimal numerals as character sequences: rendering a `u64` to its
//! decimal text and parsing decimal text back, with exact round-trip
//! lemmas.  The time-log format stores every timestamp this way.

use vstd::prelude::*;

verus! {

/// The character that writes a single decimal digit value.
pub open spec fn digit_char(d: int) -> char {
    if d == 0 {
        '0'
    } else if d == 1 {
        '1'
    } else if d == 2 {
        '2'
    } else if d == 3 {
        '3'
    } else if d == 4 {
        '4'
    } else if d == 5 {
        '5'
    } else if d == 6 {
        '6'
    } else if d == 7 {
        '7'
    } else if d == 8 {
        '8'
    } else {
        '9'
    }
}

/// The digit value a character stands for (0 for non-digits; use
/// `is_digit` to rule those out).
pub open spec fn digit_val(c: char) -> nat {
    if c == '1' {
        1
    } else if c == '2' {
        2
    } else if c == '3' {
        3
    } else if c == '4' {
        4
    } else if c == '5' {
        5
    } else if c == '6' {
        6
    } else if c == '7' {
        7
    } else if c == '8' {
        8
    } else if c == '9' {
        9
    } else {
        0
    }
}

pub open spec fn is_digit(c: char) -> bool {
    c == '0' || c == '1' || c == '2' || c == '3' || c == '4' || c == '5' || c == '6' || c == '7'
        || c == '8' || c == '9'
}

pub open spec fn all_digits(s: Seq<char>) -> bool {
    forall|i: int| 0 <= i < s.len() ==> is_digit(#[trigger] s[i])
}

/// The decimal numeral of `n`, most significant digit first.
pub open spec fn dec_str(n: nat) -> Seq<char>
    decreases n,
{
    if n < 10 {
        seq![digit_char(n as int)]
    } else {
        dec_str(n / 10).push(digit_char((n % 10) as int))
    }
}

/// The value a digit string denotes.
pub open spec fn dec_val(s: Seq<char>) -> nat
    decreases s.len(),
{
    if s.len() == 0 {
        0
    } else {
        dec_val(s.drop_last()) * 10 + digit_val(s.last())
    }
}

/// What parsing a decimal numeral yields: the denoted value, provided the
/// text is a non-empty digit string whose value fits in a `u64`.
pub open spec fn spec_parse_u64(s: Seq<char>) -> Option<u64> {
    if s.len() > 0 && all_digits(s) && dec_val(s) <= u64::MAX {
        Some(dec_val(s) as u64)
    } else {
        None
    }
}

/// Every numeral is a non-empty digit string.
pub proof fn lemma_dec_str_digits(n: nat)
    ensures
        dec_str(n).len() >= 1,
        all_digits(dec_str(n)),
    decreases n,
{
    if n < 10 {
        assert(is_digit(dec_str(n)[0]));
    } else {
        lemma_dec_str_digits(n / 10);
        assert forall|i: int| 0 <= i < dec_str(n).len() implies is_digit(#[trigger] dec_str(n)[i]) by {
            if i < dec_str(n / 10).len() {
                assert(dec_str(n)[i] == dec_str(n / 10)[i]);
            } else {
                assert(dec_str(n)[i] == digit_char((n % 10) as int));
            }
        }
    }
}

/// A numeral denotes the number it was made from.
pub proof fn lemma_dec_val_dec_str(n: nat)
    ensures
        dec_val(dec_str(n)) == n,
    decreases n,
{
    if n < 10 {
        let s = dec_str(n);
        assert(s.drop_last() =~= Seq::<char>::empty());
        assert(dec_val(Seq::<char>::empty()) == 0);
        assert(digit_val(digit_char(n as int)) == n);
    } else {
        lemma_dec_val_dec_str(n / 10);
        let s = dec_str(n);
        assert(s.drop_last() =~= dec_str(n / 10));
        assert(digit_val(digit_char((n % 10) as int)) == n % 10);
        assert(dec_val(s) == (n / 10) * 10 + n % 10);
        assert((n / 10) * 10 + n % 10 == n) by (nonlinear_arith);
    }
}

/// Parsing the numeral of a `u64` gives that value back.
pub proof fn lemma_parse_dec_str(n: u64)
    ensures
        spec_parse_u64(dec_str(n as nat)) == Some(n),
{
    lemma_dec_str_digits(n as nat);
    lemma_dec_val_dec_str(n as nat);
}

/// The digit character, as a one-character string slice.
fn digit_str(d: u64) -> (r: &'static str)
    requires
        d < 10,
    ensures
        r@ == seq![digit_char(d as int)],
{
    proof {
        reveal_strlit("0");
        reveal_strlit("1");
        reveal_strlit("2");
        reveal_strlit("3");
        reveal_strlit("4");
        reveal_strlit("5");
        reveal_strlit("6");
        reveal_strlit("7");
        reveal_strlit("8");
        reveal_strlit("9");
    }
    match d {
        0 => {
            proof { assert("0"@ =~= seq![digit_char(0)]); }
            "0"
        },
        1 => {
            proof { assert("1"@ =~= seq![digit_char(1)]); }
            "1"
        },
        2 => {
            proof { assert("2"@ =~= seq![digit_char(2)]); }
            "2"
        },
        3 => {
            proof { assert("3"@ =~= seq![digit_char(3)]); }
            "3"
        },
        4 => {
            proof { assert("4"@ =~= seq![digit_char(4)]); }
            "4"
        },
        5 => {
            proof { assert("5"@ =~= seq![digit_char(5)]); }
            "5"
        },
        6 => {
            proof { assert("6"@ =~= seq![digit_char(6)]); }
            "6"
        },
        7 => {
            proof { assert("7"@ =~= seq![digit_char(7)]); }
            "7"
        },
        8 => {
            proof { assert("8"@ =~= seq![digit_char(8)]); }
            "8"
        },
        _ => {
            proof { assert("9"@ =~= seq![digit_char(9)]); }
            "9"
        },
    }
}

/// Renders `n` as its decimal numeral.
pub fn u64_to_dec(n: u64) -> (r: String)
    ensures
        r@ == dec_str(n as nat),
{
    if n == 0 {
        let r = digit_str(0).to_owned();
        proof {
            assert(dec_str(0) =~= seq![digit_char(0)]);
        }
        return r;
    }
    let mut s = String::new();
    let mut m: u64 = n;
    proof {
        assert(dec_str(n as nat) =~= dec_str(m as nat) + s@);
    }
    while m > 0
        invariant
            dec_str(n as nat) == if m > 0 {
                dec_str(m as nat) + s@
            } else {
                s@
            },
        decreases m,
    {
        let d: u64 = m % 10;
        let ds = digit_str(d).to_owned();
        let ghost old_s = s@;
        let ghost old_m = m as nat;
        s = ds.concat(s.as_str());
        m = m / 10;
        proof {
            if old_m < 10 {
                assert(dec_str(old_m) =~= seq![digit_char(d as int)]);
                assert(dec_str(old_m) + old_s =~= seq![digit_char(d as int)] + old_s);
            } else {
                assert(dec_str(old_m) =~= dec_str(old_m / 10).push(digit_char(d as int)));
                assert(dec_str(old_m) + old_s =~= dec_str(old_m / 10) + (seq![
                    digit_char(d as int),
                ] + old_s));
            }
            assert(s@ =~= seq![digit_char(d as int)] + old_s);
        }
    }
    s
}

/// The digit value of a character, or `None` where it is not a digit.
fn char_digit(c: char) -> (r: Option<u64>)
    ensures
        r is Some <==> is_digit(c),
        r matches Some(d) ==> d < 10 && d == digit_val(c),
{
    match c {
        '0' => Some(0),
        '1' => Some(1),
        '2' => Some(2),
        '3' => Some(3),
        '4' => Some(4),
        '5' => Some(5),
        '6' => Some(6),
        '7' => Some(7),
        '8' => Some(8),
        '9' => Some(9),
        _ => None,
    }
}

/// Once a prefix already denotes more than `u64::MAX`, the whole digit
/// string does too.
proof fn lemma_dec_val_prefix_overflow(s: Seq<char>, k: int)
    requires
        0 <= k <= s.len(),
        dec_val(s.take(k)) > u64::MAX,
    ensures
        dec_val(s) > u64::MAX,
    decreases s.len() - k,
{
    if k == s.len() {
        assert(s.take(k) =~= s);
    } else {
        assert(s.take(k + 1).drop_last() =~= s.take(k));
        assert(dec_val(s.take(k + 1)) == dec_val(s.take(k)) * 10 + digit_val(s.take(k + 1).last()));
        assert(dec_val(s.take(k)) * 10 >= dec_val(s.take(k))) by (nonlinear_arith);
        lemma_dec_val_prefix_overflow(s, k + 1);
    }
}

/// Parses a decimal numeral; yields exactly what `spec_parse_u64` says.
pub fn parse_u64(s: &str) -> (r: Option<u64>)
    ensures
        r == spec_parse_u64(s@),
{
    let n = s.unicode_len();
    if n == 0 {
        return None;
    }
    let mut acc: u64 = 0;
    let mut i: usize = 0;
    proof {
        assert(s@.take(0) =~= Seq::<char>::empty());
    }
    while i < n
        invariant
            0 <= i <= n,
            n == s@.len(),
            all_digits(s@.take(i as int)),
            acc == dec_val(s@.take(i as int)),
        decreases n - i,
    {
        let c = s.get_char(i);
        proof {
            assert(s@.take(i + 1).drop_last() =~= s@.take(i as int));
            assert(s@.take(i + 1).last() == s@[i as int]);
        }
        match char_digit(c) {
            None => {
                assert(!is_digit(s@[i as int]));
                return None;
            },
            Some(d) => {
                if acc > u64::MAX / 10 {
                    proof {
                        assert(acc * 10 >= (u64::MAX / 10 + 1) * 10) by (nonlinear_arith)
                            requires acc >= u64::MAX / 10 + 1;
                        assert((u64::MAX / 10 + 1) * 10 > u64::MAX);
                        assert(dec_val(s@.take(i + 1)) > u64::MAX);
                        lemma_dec_val_prefix_overflow(s@, i + 1);
                    }
                    return None;
                }
                proof {
                    assert(acc * 10 <= (u64::MAX / 10) * 10) by (nonlinear_arith)
                        requires acc <= u64::MAX / 10;
                    assert((u64::MAX / 10) * 10 <= u64::MAX);
                }
                let acc10: u64 = acc * 10;
                if acc10 > u64::MAX - d {
                    proof {
                        assert(dec_val(s@.take(i + 1)) > u64::MAX);
                        lemma_dec_val_prefix_overflow(s@, i + 1);
                    }
                    return None;
                }
                acc = acc10 + d;
            },
        }
        i = i + 1;
    }
    proof {
        assert(s@.take(n as int) =~= s@);
    }
    Some(acc)
}

} // verus!
