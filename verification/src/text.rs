//! Character-level text utilities: conversions between `String` and
//! `Vec<char>`, and exact decimal conversions between `i32` and text.
//! Everything the scripting engine says about strings is said over
//! `Seq<char>` views, so the engine works on character vectors internally.
use vstd::prelude::*;

verus! {

use vstd::std_specs::iter::IteratorSpec;

pub assume_specification[ std::string::String::push ](s: &mut std::string::String, ch: char)
    ensures
        final(s)@ == old(s)@.push(ch),
;

/// Whether two string slices hold the same characters.
pub fn str_eqs(a: &str, b: &str) -> (r: bool)
    ensures
        r == (a@ == b@),
{
    let sa = a.to_owned();
    let sb = b.to_owned();
    sa == sb
}

/// The characters of `s`, in order.
pub fn chars_of(s: &str) -> (v: Vec<char>)
    ensures
        v@ == s@,
{
    let mut v: Vec<char> = Vec::new();
    let ghost all = s@;
    let mut it = s.chars();
    loop
        invariant
            all == v@ + it.remaining(),
            it.obeys_prophetic_iter_laws(),
            it.decrease() is Some,
        ensures
            v@ == all,
        decreases it.decrease()->0,
    {
        match it.next() {
            Some(c) => {
                v.push(c);
            }
            None => {
                assert(v@ =~= all);
                break;
            }
        }
    }
    v
}

/// The string holding exactly the characters of `v`, in order.
pub fn string_of(v: &Vec<char>) -> (s: String)
    ensures
        s@ == v@,
{
    let mut s = String::new();
    let mut i: usize = 0;
    while i < v.len()
        invariant
            i <= v.len(),
            s@ == v@.take(i as int),
        decreases v.len() - i,
    {
        s.push(v[i]);
        i = i + 1;
        assert(s@ =~= v@.take(i as int));
    }
    assert(v@.take(v.len() as int) =~= v@);
    s
}

/// The string holding the characters of `v` in reverse order.
fn string_of_reversed(v: &Vec<char>) -> (s: String)
    ensures
        s@ == v@.reverse(),
{
    let mut s = String::new();
    let mut i: usize = 0;
    while i < v.len()
        invariant
            i <= v.len(),
            s@ == v@.reverse().take(i as int),
        decreases v.len() - i,
    {
        s.push(v[v.len() - 1 - i]);
        i = i + 1;
        assert(s@ =~= v@.reverse().take(i as int));
    }
    assert(v@.reverse().take(v.len() as int) =~= v@.reverse());
    s
}

/// The characters of `v` from `a` (inclusive) to `b` (exclusive).
pub fn sub_chars(v: &Vec<char>, a: usize, b: usize) -> (r: Vec<char>)
    requires
        a <= b <= v@.len(),
    ensures
        r@ == v@.subrange(a as int, b as int),
{
    let mut r: Vec<char> = Vec::new();
    let mut i: usize = a;
    while i < b
        invariant
            a <= i <= b <= v@.len(),
            r@ == v@.subrange(a as int, i as int),
        decreases b - i,
    {
        r.push(v[i]);
        proof {
            assert(r@ =~= v@.subrange(a as int, i + 1));
        }
        i = i + 1;
    }
    r
}

pub open spec fn is_dec_digit(c: char) -> bool {
    '0' <= c && c <= '9'
}

pub open spec fn dec_digit_char(d: int) -> char
    recommends
        0 <= d < 10,
{
    (('0' as int) + d) as char
}

pub open spec fn dec_digit_val(c: char) -> int {
    (c as int) - ('0' as int)
}

/// Decimal rendering of a non-negative integer, without sign or leading zeros
/// (`0` renders as "0").
pub open spec fn nat_dec_str(n: int) -> Seq<char>
    recommends
        n >= 0,
    decreases n,
{
    if n < 10 {
        seq![dec_digit_char(n)]
    } else {
        nat_dec_str(n / 10).push(dec_digit_char(n % 10))
    }
}

/// Decimal rendering of an integer, matching how `i32` values print:
/// a `-` sign for negatives, no sign for zero and positives.
pub open spec fn int_dec_str(i: int) -> Seq<char> {
    if i < 0 {
        seq!['-'] + nat_dec_str(-i)
    } else {
        nat_dec_str(i)
    }
}

/// The value of a digit string read in base 10 (no sign).
pub open spec fn dec_digits_val(s: Seq<char>) -> int
    decreases s.len(),
{
    if s.len() == 0 {
        0
    } else {
        dec_digits_val(s.drop_last()) * 10 + dec_digit_val(s.last())
    }
}

pub open spec fn all_dec_digits(s: Seq<char>) -> bool {
    forall|i: int| 0 <= i < s.len() ==> is_dec_digit(#[trigger] s[i])
}

/// What `str::parse::<i32>` accepts: an optional `+` or `-` sign followed by
/// one or more ASCII digits, denoting a value that fits in `i32`.
pub open spec fn parse_i32_model(s: Seq<char>) -> Option<int> {
    let ds = if s.len() > 0 && (s[0] == '+' || s[0] == '-') {
        s.skip(1)
    } else {
        s
    };
    let neg = s.len() > 0 && s[0] == '-';
    if ds.len() > 0 && all_dec_digits(ds) {
        let v = if neg {
            -dec_digits_val(ds)
        } else {
            dec_digits_val(ds)
        };
        if -2147483648 <= v <= 2147483647 {
            Some(v)
        } else {
            None
        }
    } else {
        None
    }
}

proof fn lemma_dec_digits_val_bounds(s: Seq<char>)
    requires
        all_dec_digits(s),
    ensures
        dec_digits_val(s) >= 0,
    decreases s.len(),
{
    if s.len() > 0 {
        assert(all_dec_digits(s.drop_last())) by {
            assert(forall|i: int|
                0 <= i < s.drop_last().len() ==> s.drop_last()[i] == #[trigger] s[i]);
        }
        lemma_dec_digits_val_bounds(s.drop_last());
    }
}

proof fn lemma_dec_digits_val_prefix(s: Seq<char>, k: int)
    requires
        all_dec_digits(s),
        0 <= k <= s.len(),
    ensures
        dec_digits_val(s.take(k)) <= dec_digits_val(s),
    decreases s.len(),
{
    if k == s.len() {
        assert(s.take(k) =~= s);
    } else {
        assert(all_dec_digits(s.drop_last())) by {
            assert(forall|i: int|
                0 <= i < s.drop_last().len() ==> s.drop_last()[i] == #[trigger] s[i]);
        }
        assert(s.take(k) =~= s.drop_last().take(k));
        lemma_dec_digits_val_prefix(s.drop_last(), k);
        lemma_dec_digits_val_bounds(s.drop_last());
        assert(dec_digits_val(s) == dec_digits_val(s.drop_last()) * 10 + dec_digit_val(s.last()));
        assert(dec_digits_val(s.drop_last()) * 10 >= dec_digits_val(s.drop_last())) by {
            lemma_dec_digits_val_bounds(s.drop_last());
        }
        assert(dec_digit_val(s.last()) >= 0);
    }
}

/// Parses `s` as a decimal `i32`, with the exact grammar and range behaviour
/// of `str::parse::<i32>`.
pub fn parse_i32_chars(s: &Vec<char>) -> (r: Option<i32>)
    ensures
        match r {
            Some(v) => parse_i32_model(s@) == Some(v as int),
            None => parse_i32_model(s@) is None,
        },
{
    let ghost whole = s@;
    let mut start: usize = 0;
    let mut neg = false;
    if s.len() > 0 && (s[0] == '+' || s[0] == '-') {
        neg = s[0] == '-';
        start = 1;
    }
    let ghost ds = if start == 1 {
        whole.skip(1)
    } else {
        whole
    };
    if s.len() == start {
        return None;
    }
    let mut acc: u64 = 0;
    let mut i: usize = start;
    while i < s.len()
        invariant
            start <= i <= s.len(),
            ds == whole.skip(start as int),
            start == 0 || start == 1,
            start == 1 <==> (whole.len() > 0 && (whole[0] == '+' || whole[0] == '-')),
            neg <==> (whole.len() > 0 && whole[0] == '-'),
            s@ == whole,
            acc == dec_digits_val(ds.take(i - start)),
            acc <= 2147483648,
            all_dec_digits(ds.take(i - start)),
        decreases s.len() - i,
    {
        let c = s[i];
        if !('0' <= c && c <= '9') {
            assert(!all_dec_digits(ds)) by {
                assert(0 <= i - start < ds.len());
                assert(ds[i - start] == whole[i as int]);
                assert(!is_dec_digit(ds[i - start]));
            }
            proof {
                let mds = if whole.len() > 0 && (whole[0] == '+' || whole[0] == '-') {
                    whole.skip(1)
                } else {
                    whole
                };
                assert(start == 1 <==> (whole.len() > 0 && (whole[0] == '+' || whole[0] == '-')));
                assert(mds == ds);
                assert(parse_i32_model(whole) is None);
            }
            return None;
        }
        let d: u64 = (c as u32 as u64) - ('0' as u32 as u64);
        proof {
            assert(d == dec_digit_val(c));
            assert(d <= 9);
        }
        acc = acc * 10 + d;
        i = i + 1;
        proof {
            let k = i - start;
            assert(ds.take(k).drop_last() =~= ds.take(k - 1));
            assert(ds.take(k).last() == c);
            assert(all_dec_digits(ds.take(k))) by {
                assert(forall|j: int| 0 <= j < k - 1 ==> ds.take(k)[j] == #[trigger] ds.take(
                    k - 1,
                )[j]);
            }
        }
        if acc > 2147483648 {
            proof {
                let mds = if whole.len() > 0 && (whole[0] == '+' || whole[0] == '-') {
                    whole.skip(1)
                } else {
                    whole
                };
                assert(mds == ds);
                assert(acc == dec_digits_val(ds.take(i - start)));
                if all_dec_digits(ds) {
                    lemma_dec_digits_val_prefix(ds, i - start);
                    assert(dec_digits_val(ds) >= acc > 2147483648);
                    assert(-dec_digits_val(ds) < -2147483648);
                }
                assert(parse_i32_model(whole) is None);
            }
            return None;
        }
    }
    proof {
        assert(ds.take(s.len() - start) =~= ds);
    }
    if neg {
        let v: i64 = -(acc as i64);
        Some(v as i32)
    } else {
        if acc <= 2147483647 {
            Some(acc as i32)
        } else {
            None
        }
    }
}

/// What `str::parse::<i64>` accepts: an optional `+` or `-` sign followed by
/// one or more ASCII digits, denoting a value that fits in `i64`.
pub open spec fn parse_i64_model(s: Seq<char>) -> Option<int> {
    let ds = if s.len() > 0 && (s[0] == '+' || s[0] == '-') {
        s.skip(1)
    } else {
        s
    };
    let neg = s.len() > 0 && s[0] == '-';
    if ds.len() > 0 && all_dec_digits(ds) {
        let v = if neg {
            -dec_digits_val(ds)
        } else {
            dec_digits_val(ds)
        };
        if -9223372036854775808 <= v <= 9223372036854775807 {
            Some(v)
        } else {
            None
        }
    } else {
        None
    }
}

/// Parses `s` as a decimal `i64`, with the exact grammar and range behaviour
/// of `str::parse::<i64>`.
pub fn parse_i64_chars(s: &Vec<char>) -> (r: Option<i64>)
    ensures
        match r {
            Some(v) => parse_i64_model(s@) == Some(v as int),
            None => parse_i64_model(s@) is None,
        },
{
    let ghost whole = s@;
    let mut start: usize = 0;
    let mut neg = false;
    if s.len() > 0 && (s[0] == '+' || s[0] == '-') {
        neg = s[0] == '-';
        start = 1;
    }
    let ghost ds = if start == 1 {
        whole.skip(1)
    } else {
        whole
    };
    if s.len() == start {
        return None;
    }
    let mut acc: u128 = 0;
    let mut i: usize = start;
    while i < s.len()
        invariant
            start <= i <= s.len(),
            ds == whole.skip(start as int),
            start == 0 || start == 1,
            start == 1 <==> (whole.len() > 0 && (whole[0] == '+' || whole[0] == '-')),
            neg <==> (whole.len() > 0 && whole[0] == '-'),
            s@ == whole,
            acc == dec_digits_val(ds.take(i - start)),
            acc <= 9223372036854775808,
            all_dec_digits(ds.take(i - start)),
        decreases s.len() - i,
    {
        let c = s[i];
        if !('0' <= c && c <= '9') {
            assert(!all_dec_digits(ds)) by {
                assert(0 <= i - start < ds.len());
                assert(ds[i - start] == whole[i as int]);
                assert(!is_dec_digit(ds[i - start]));
            }
            return None;
        }
        let d: u128 = (c as u32 as u128) - ('0' as u32 as u128);
        proof {
            assert(d == dec_digit_val(c));
            assert(d <= 9);
        }
        acc = acc * 10 + d;
        i = i + 1;
        proof {
            let k = i - start;
            assert(ds.take(k).drop_last() =~= ds.take(k - 1));
            assert(ds.take(k).last() == c);
            assert(all_dec_digits(ds.take(k))) by {
                assert(forall|j: int| 0 <= j < k - 1 ==> ds.take(k)[j] == #[trigger] ds.take(
                    k - 1,
                )[j]);
            }
        }
        if acc > 9223372036854775808 {
            proof {
                let mds = if whole.len() > 0 && (whole[0] == '+' || whole[0] == '-') {
                    whole.skip(1)
                } else {
                    whole
                };
                assert(mds == ds);
                assert(acc == dec_digits_val(ds.take(i - start)));
                if all_dec_digits(ds) {
                    lemma_dec_digits_val_prefix(ds, i - start);
                    assert(dec_digits_val(ds) >= acc > 9223372036854775808);
                    assert(-dec_digits_val(ds) < -9223372036854775808);
                }
                assert(parse_i64_model(whole) is None);
            }
            return None;
        }
    }
    proof {
        assert(ds.take(s.len() - start) =~= ds);
    }
    if neg {
        let v: i128 = -(acc as i128);
        Some(v as i64)
    } else {
        if acc <= 9223372036854775807 {
            Some(acc as i64)
        } else {
            None
        }
    }
}

/// Renders `n` in decimal.
pub fn u64_to_string(n: u64) -> (s: String)
    ensures
        s@ == nat_dec_str(n as int),
{
    let ghost orig = n;
    let mut digits: Vec<char> = Vec::new();
    let mut cur: u64 = n;
    loop
        invariant
            digits@.len() == 0 ==> cur == orig,
            digits@.len() > 0 && cur > 0 ==> nat_dec_str(orig as int) == nat_dec_str(cur as int)
                + digits@.reverse(),
            digits@.len() > 0 && cur == 0 ==> nat_dec_str(orig as int) == digits@.reverse(),
            cur <= orig,
        ensures
            nat_dec_str(orig as int) == digits@.reverse(),
            digits@.len() > 0,
        decreases cur, if digits@.len() == 0 { 1int } else { 0int },
    {
        if cur == 0 && digits.len() > 0 {
            break;
        }
        let d = cur % 10;
        let c = dec_digit_to_char(d);
        let ghost before = digits@;
        digits.push(c);
        proof {
            assert(digits@.reverse() =~= seq![c] + before.reverse());
            if cur >= 10 {
                assert(nat_dec_str(cur as int) == nat_dec_str(cur as int / 10).push(
                    dec_digit_char(cur as int % 10),
                ));
                assert(nat_dec_str(cur as int / 10) + digits@.reverse() =~= nat_dec_str(
                    cur as int,
                ) + before.reverse());
            } else {
                assert(nat_dec_str(cur as int) =~= seq![dec_digit_char(cur as int)]);
            }
        }
        cur = cur / 10;
    }
    string_of_reversed(&digits)
}

/// Renders `v` in decimal, exactly as `i32` values display.
pub fn i32_to_string(v: i32) -> (s: String)
    ensures
        s@ == int_dec_str(v as int),
{
    let n: u64 = if v < 0 {
        (-(v as i64)) as u64
    } else {
        v as u64
    };
    let body = u64_to_string(n);
    if v < 0 {
        let s = String::from_str("-").concat(body.as_str());
        proof {
            reveal_strlit("-");
            assert(s@ =~= int_dec_str(v as int));
        }
        s
    } else {
        body
    }
}

/// The character for decimal digit `d`.
fn dec_digit_to_char(d: u64) -> (c: char)
    requires
        d < 10,
    ensures
        c == dec_digit_char(d as int),
        is_dec_digit(c),
{
    let c = match d {
        0 => '0',
        1 => '1',
        2 => '2',
        3 => '3',
        4 => '4',
        5 => '5',
        6 => '6',
        7 => '7',
        8 => '8',
        _ => '9',
    };
    proof {
        assert(c == dec_digit_char(d as int));
    }
    c
}

} // verus!
