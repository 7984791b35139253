//! The function library of the scripting engine: `plus`, `now`, `random`,
//! `copy`, `split`, `substring` and `lastIndexOf`, with exact contracts for
//! everything that does not read the clock or the entropy source.
use crate::error::Error;
use crate::text::chars_of;
use crate::text::is_dec_digit;
use crate::text::string_of;
use crate::text::sub_chars;
use crate::value::as_int_err_msg;
use crate::value::as_string_err_msg;
use crate::value::as_int_model;
use crate::value::as_string_model;
use crate::value::int_coercible;
use crate::value::string_coercible;
use crate::value::Value;
use crate::value::ValueModel;
use std::fmt::Write;
use vstd::prelude::*;

verus! {

use vstd::string::StringExecFns;

/// Whether the pattern `p` occurs in `s` starting at position `j`.
pub open spec fn match_at(s: Seq<char>, p: Seq<char>, j: int) -> bool {
    0 <= j && j + p.len() <= s.len() && s.subrange(j, j + p.len()) == p
}

/// First position at or after 0 where `p` occurs in `s`, or -1.
pub open spec fn find_first(s: Seq<char>, p: Seq<char>) -> int
    decreases s.len(),
{
    if s.len() < p.len() {
        -1
    } else if s.subrange(0, p.len() as int) == p {
        0
    } else if s.len() == p.len() {
        -1
    } else {
        let r = find_first(s.drop_first(), p);
        if r == -1 {
            -1
        } else {
            1 + r
        }
    }
}

/// Last position where `p` occurs in `s` at or before `j`, or -1.
pub open spec fn find_last_from(s: Seq<char>, p: Seq<char>, j: int) -> int
    decreases j + 1,
{
    if j < 0 {
        -1
    } else if match_at(s, p, j) {
        j
    } else {
        find_last_from(s, p, j - 1)
    }
}

/// Last position where `p` occurs in `s`, or -1.
pub open spec fn find_last(s: Seq<char>, p: Seq<char>) -> int {
    if s.len() < p.len() {
        -1
    } else {
        find_last_from(s, p, s.len() - p.len())
    }
}

/// Whether `s.subrange(j, j + p.len()) == p`, decided by character.
fn eq_at(s: &Vec<char>, p: &Vec<char>, j: usize) -> (r: bool)
    requires
        j + p@.len() <= s@.len(),
    ensures
        r == match_at(s@, p@, j as int),
{
    let n = s.len();
    let mut k: usize = 0;
    #[verifier::loop_isolation(false)]
    while k < p.len()
        invariant
            k <= p@.len(),
            n == s@.len(),
            j + p@.len() <= s@.len(),
            forall|t: int| 0 <= t < k ==> s@[j + t] == p@[t],
        decreases p@.len() - k,
    {
        if s[j + k] != p[k] {
            proof {
                assert(s@.subrange(j as int, j + p@.len())[k as int] != p@[k as int]);
            }
            return false;
        }
        k = k + 1;
    }
    proof {
        assert(s@.subrange(j as int, j + p@.len()) =~= p@);
    }
    true
}

pub proof fn lemma_find_first_at(s: Seq<char>, p: Seq<char>, i: int)
    requires
        match_at(s, p, i),
        forall|j: int| 0 <= j < i ==> !match_at(s, p, j),
    ensures
        find_first(s, p) == i,
    decreases i,
{
    if i == 0 {
        assert(s.subrange(0, p.len() as int) == p);
    } else {
        assert(!match_at(s, p, 0));
        assert(s.len() > p.len());
        let d = s.drop_first();
        assert(d.subrange(i - 1, i - 1 + p.len()) =~= s.subrange(i, i + p.len()));
        assert(match_at(d, p, i - 1));
        assert forall|j: int| 0 <= j < i - 1 implies !match_at(d, p, j) by {
            assert(d.subrange(j, j + p.len()) =~= s.subrange(j + 1, j + 1 + p.len()));
            assert(!match_at(s, p, j + 1));
        }
        lemma_find_first_at(d, p, i - 1);
        if s.subrange(0, p.len() as int) == p {
            assert(match_at(s, p, 0));
        }
    }
}

proof fn lemma_find_first_none(s: Seq<char>, p: Seq<char>)
    requires
        forall|j: int| 0 <= j ==> !match_at(s, p, j),
    ensures
        find_first(s, p) == -1,
    decreases s.len(),
{
    if s.len() >= p.len() {
        assert(!match_at(s, p, 0));
        if s.len() > p.len() {
            let d = s.drop_first();
            assert forall|j: int| 0 <= j implies !match_at(d, p, j) by {
                if j + p.len() <= d.len() {
                    assert(d.subrange(j, j + p.len()) =~= s.subrange(j + 1, j + 1 + p.len()));
                    assert(!match_at(s, p, j + 1));
                }
            }
            lemma_find_first_none(d, p);
        }
    }
}

/// First occurrence of `p` in `s`, by scanning; mirrors [`find_first`].
pub fn find_first_exec(s: &Vec<char>, p: &Vec<char>) -> (r: Option<usize>)
    ensures
        match r {
            Some(i) => find_first(s@, p@) == i as int && i + p@.len() <= s@.len(),
            None => find_first(s@, p@) == -1,
        },
{
    if p.len() > s.len() {
        proof {
            assert forall|j: int| 0 <= j implies !match_at(s@, p@, j) by {}
            lemma_find_first_none(s@, p@);
        }
        return None;
    }
    if p.len() == 0 {
        proof {
            assert(s@.subrange(0, 0) =~= p@);
            assert(match_at(s@, p@, 0));
            lemma_find_first_at(s@, p@, 0);
        }
        return Some(0);
    }
    let bound = s.len() - p.len();
    let mut i: usize = 0;
    #[verifier::loop_isolation(false)]
    while i <= bound
        invariant
            i <= bound + 1,
            forall|j: int| 0 <= j < i ==> !match_at(s@, p@, j),
        decreases bound + 1 - i,
    {
        if eq_at(s, p, i) {
            proof {
                lemma_find_first_at(s@, p@, i as int);
            }
            return Some(i);
        }
        i = i + 1;
    }
    proof {
        assert forall|j: int| 0 <= j implies !match_at(s@, p@, j) by {
            if j < i {
            } else {
                assert(j + p@.len() > s@.len());
            }
        }
        lemma_find_first_none(s@, p@);
    }
    None
}

/// Last occurrence of `p` in `s`, by scanning; mirrors [`find_last`].
pub fn find_last_exec(s: &Vec<char>, p: &Vec<char>) -> (r: Option<usize>)
    ensures
        match r {
            Some(i) => find_last(s@, p@) == i as int && i + p@.len() <= s@.len(),
            None => find_last(s@, p@) == -1,
        },
{
    if p.len() > s.len() {
        return None;
    }
    let mut j: usize = s.len() - p.len();
    #[verifier::loop_isolation(false)]
    loop
        invariant
            j + p@.len() <= s@.len(),
            find_last(s@, p@) == find_last_from(s@, p@, j as int),
        decreases j,
    {
        if eq_at(s, p, j) {
            return Some(j);
        }
        if j == 0 {
            proof {
                assert(find_last_from(s@, p@, 0) == find_last_from(s@, p@, -1));
                assert(find_last_from(s@, p@, -1) == -1);
            }
            return None;
        }
        j = j - 1;
    }
}

/// A match anywhere bounds the last match from below.
pub proof fn lemma_match_implies_found(s: Seq<char>, p: Seq<char>, k: int)
    requires
        match_at(s, p, k),
    ensures
        find_last(s, p) >= k,
{
    lemma_find_last_from_ge(s, p, s.len() - p.len(), k);
}

proof fn lemma_find_last_from_ge(s: Seq<char>, p: Seq<char>, j: int, k: int)
    requires
        match_at(s, p, k),
        k <= j,
    ensures
        find_last_from(s, p, j) >= k,
    decreases j - k,
{
    if !match_at(s, p, j) {
        lemma_find_last_from_ge(s, p, j - 1, k);
    }
}

/// UTF-8 byte width of one character.
pub open spec fn char_utf8_len(c: char) -> int {
    if (c as int) < 0x80 {
        1
    } else if (c as int) < 0x800 {
        2
    } else if (c as int) < 0x10000 {
        3
    } else {
        4
    }
}

/// UTF-8 byte length of the first `j` characters of `s`.
pub open spec fn utf8_prefix_len(s: Seq<char>, j: int) -> int
    decreases j,
{
    if j <= 0 {
        0
    } else {
        utf8_prefix_len(s, j - 1) + char_utf8_len(s[j - 1])
    }
}

proof fn lemma_utf8_prefix_len_bounds(s: Seq<char>, j: int)
    requires
        0 <= j <= s.len(),
    ensures
        0 <= utf8_prefix_len(s, j) <= 4 * j,
    decreases j,
{
    if j > 0 {
        lemma_utf8_prefix_len_bounds(s, j - 1);
    }
}

/// UTF-8 byte width of one character, computed.
fn char_utf8_len_exec(c: char) -> (r: u8)
    ensures
        r as int == char_utf8_len(c),
{
    let v = c as u32;
    if v < 0x80 {
        1
    } else if v < 0x800 {
        2
    } else if v < 0x10000 {
        3
    } else {
        4
    }
}

/// UTF-8 byte length of the first `j` characters of `s`.
fn utf8_prefix_len_exec(s: &Vec<char>, j: usize) -> (r: u128)
    requires
        j <= s@.len(),
    ensures
        r as int == utf8_prefix_len(s@, j as int),
{
    let mut total: u128 = 0;
    let mut k: usize = 0;
    proof {
        lemma_utf8_prefix_len_bounds(s@, j as int);
    }
    #[verifier::loop_isolation(false)]
    while k < j
        invariant
            k <= j,
            total as int == utf8_prefix_len(s@, k as int),
            total <= 4 * (k as u128),
        decreases j - k,
    {
        let w = char_utf8_len_exec(s[k]);
        total = total + (w as u128);
        k = k + 1;
    }
    total
}

/// The byte index `str::rfind` reports for the last occurrence of `p` in
/// `s`, with 0 (not -1) when `p` does not occur.
pub open spec fn last_index_of_model(s: Seq<char>, p: Seq<char>) -> int {
    let j = find_last(s, p);
    if j == -1 {
        0
    } else {
        utf8_prefix_len(s, j)
    }
}

/// Byte index of the last occurrence of `p` in `s`, else 0; exact while
/// the index fits in `i32` (the cast truncates beyond that, as the engine
/// always casts).
fn last_index_of_chars(s: &Vec<char>, p: &Vec<char>) -> (r: i32)
    ensures
        last_index_of_model(s@, p@) <= 2147483647 ==> r as int == last_index_of_model(s@, p@),
{
    match find_last_exec(s, p) {
        Some(j) => {
            let b = utf8_prefix_len_exec(s, j);
            proof {
                lemma_utf8_prefix_len_bounds(s@, j as int);
            }
            if b <= 2147483647 {
                b as i32
            } else {
                #[verifier::truncate] (b as i32)
            }
        },
        None => 0,
    }
}

} // verus!

verus! {

/// How `str::split` cuts `s` at `d`: segments between the leftmost
/// non-overlapping occurrences of a non-empty delimiter; an empty
/// delimiter cuts around every character.
pub open spec fn split_model(s: Seq<char>, d: Seq<char>) -> Seq<Seq<char>>
    decreases s.len(),
{
    if d.len() == 0 {
        seq![Seq::<char>::empty()] + s.map_values(|c: char| seq![c]) + seq![Seq::<char>::empty()]
    } else {
        let i = find_first(s, d);
        if i < 0 || i + d.len() > s.len() {
            seq![s]
        } else {
            seq![s.take(i)] + split_model(s.skip(i + d.len()), d)
        }
    }
}

/// A split always yields at least one segment.
pub proof fn lemma_split_model_nonempty(s: Seq<char>, d: Seq<char>)
    ensures
        split_model(s, d).len() >= 1,
{
}

/// The segments of `s` split at `d`, in order; mirrors [`split_model`].
pub fn split_all(s: &Vec<char>, d: &Vec<char>) -> (r: Vec<String>)
    ensures
        r.deep_view() == split_model(s@, d@),
{
    let mut parts: Vec<String> = Vec::new();
    if d.len() == 0 {
        let empty_front = String::new();
        parts.push(empty_front);
        let mut i: usize = 0;
        proof {
            assert(parts.deep_view() =~= seq![Seq::<char>::empty()]);
        }
        #[verifier::loop_isolation(false)]
        while i < s.len()
            invariant
                i <= s.len(),
                parts.deep_view() =~= seq![Seq::<char>::empty()] + s@.take(i as int).map_values(
                    |c: char| seq![c],
                ),
            decreases s.len() - i,
        {
            let mut one: Vec<char> = Vec::new();
            one.push(s[i]);
            let ghost before = parts.deep_view();
            parts.push(string_of(&one));
            proof {
                assert(s@.take(i + 1).drop_last() =~= s@.take(i as int));
                broadcast use Seq::lemma_push_map_commute, Seq::lemma_map_take_succ;

                assert(parts.deep_view() =~= before.push(seq![s@[i as int]]));
                assert(parts.deep_view() =~= seq![Seq::<char>::empty()] + s@.take(
                    i + 1,
                ).map_values(|c: char| seq![c]));
            }
            i = i + 1;
        }
        let empty_back = String::new();
        parts.push(empty_back);
        proof {
            assert(s@.take(s@.len() as int) =~= s@);
            assert(parts.deep_view() =~= split_model(s@, d@));
        }
        return parts;
    }
    let mut rest: Vec<char> = sub_chars(s, 0, s.len());
    proof {
        assert(rest@ =~= s@);
        assert(parts.deep_view() =~= Seq::<Seq<char>>::empty());
        assert(parts.deep_view() + split_model(rest@, d@) =~= split_model(s@, d@));
    }
    #[verifier::loop_isolation(false)]
    loop
        invariant
            d@.len() > 0,
            split_model(s@, d@) == parts.deep_view() + split_model(rest@, d@),
        decreases rest@.len(),
    {
        let ghost before = parts.deep_view();
        let rest_len = rest.len();
        match find_first_exec(&rest, d) {
            Some(i) => {
                let piece = sub_chars(&rest, 0, i);
                parts.push(string_of(&piece));
                let next = sub_chars(&rest, i + d.len(), rest_len);
                proof {
                    assert(rest@.subrange(0, i as int) =~= rest@.take(i as int));
                    assert(rest@.subrange(i + d@.len(), rest@.len() as int) =~= rest@.skip(
                        i + d@.len(),
                    ));
                    assert(parts.deep_view() =~= before.push(rest@.take(i as int)));
                    assert(split_model(rest@, d@) == seq![rest@.take(i as int)] + split_model(
                        rest@.skip(i + d@.len()),
                        d@,
                    ));
                    assert(before + split_model(rest@, d@) =~= parts.deep_view() + split_model(
                        next@,
                        d@,
                    ));
                }
                rest = next;
            },
            None => {
                parts.push(string_of(&rest));
                proof {
                    assert(split_model(rest@, d@) == seq![rest@]);
                    assert(parts.deep_view() =~= before.push(rest@));
                    assert(parts.deep_view() =~= before + split_model(rest@, d@));
                }
                return parts;
            },
        }
    }
}

/// Which segment of a split is kept.
#[derive(Debug, PartialEq, Eq, Structural, Copy, Clone)]
pub enum SplitIndex {
    First,
    Last,
    Nth(usize),
}

/// The segment `idx` picks out of `parts`; a missing position yields the
/// empty string.
pub open spec fn split_pick(parts: Seq<Seq<char>>, idx: SplitIndex) -> Seq<char>
    recommends
        parts.len() >= 1,
{
    match idx {
        SplitIndex::First => parts[0],
        SplitIndex::Last => parts.last(),
        SplitIndex::Nth(n) => if (n as int) < parts.len() {
            parts[n as int]
        } else {
            Seq::empty()
        },
    }
}

/// `split`: cuts its input at a pre-bound delimiter and keeps a pre-bound
/// segment.
#[derive(Debug, Clone)]
pub struct SplitFunction {
    pub delimiter: String,
    pub index: SplitIndex,
}

impl SplitFunction {
    /// Splits `input` at the bound delimiter and picks the bound segment;
    /// a missing segment comes back as the empty string.
    pub fn apply(&self, input: String) -> (r: String)
        ensures
            r@ == split_pick(split_model(input@, self.delimiter@), self.index),
    {
        let input_chars = chars_of(input.as_str());
        let delim_chars = chars_of(self.delimiter.as_str());
        let parts = split_all(&input_chars, &delim_chars);
        proof {
            lemma_split_model_nonempty(input@, self.delimiter@);
            assert(parts.deep_view().len() == parts@.len());
        }
        match self.index {
            SplitIndex::First => {
                let piece = &parts[0];
                let out = piece.clone();
                proof {
                    assert(parts.deep_view()[0] == parts@[0]@);
                }
                out
            },
            SplitIndex::Last => {
                let piece = &parts[parts.len() - 1];
                let out = piece.clone();
                proof {
                    assert(parts.deep_view()[parts@.len() - 1] == parts@[parts@.len() - 1]@);
                }
                out
            },
            SplitIndex::Nth(n) => {
                if n < parts.len() {
                    let piece = &parts[n];
                    let out = piece.clone();
                    proof {
                        assert(parts.deep_view()[n as int] == parts@[n as int]@);
                    }
                    out
                } else {
                    String::new()
                }
            },
        }
    }
}

} // verus!

verus! {

/// Wrapping 32-bit addition on mathematical integers.
pub open spec fn wrap_i32(v: int) -> int {
    if v > 2147483647 {
        v - 0x100000000
    } else if v < -2147483648 {
        v + 0x100000000
    } else {
        v
    }
}

/// Characters `start` up to `end` of `s`, counted in code points; a
/// negative or too-large `start` and an `end` before `start` saturate to
/// the empty remainder.
pub open spec fn substring_model(s: Seq<char>, start: int, end: int) -> Seq<char> {
    if start < 0 {
        Seq::empty()
    } else {
        let st = if start > s.len() {
            s.len() as int
        } else {
            start
        };
        let en = if end < st {
            st
        } else if end > s.len() {
            s.len() as int
        } else {
            end
        };
        s.subrange(st, en)
    }
}

/// Characters `start` up to `end` (`None`: the end of the string).
fn substring_chars(s: &Vec<char>, start: i32, end: Option<i32>) -> (r: Vec<char>)
    ensures
        r@ == substring_model(
            s@,
            start as int,
            match end {
                Some(e) => e as int,
                None => s@.len() as int,
            },
        ),
{
    if start < 0 {
        return Vec::new();
    }
    let len = s.len();
    let st: usize = if (start as usize) > len {
        len
    } else {
        start as usize
    };
    let en: usize = match end {
        Some(e) => {
            if e < start {
                st
            } else if (e as usize) > len {
                len
            } else {
                e as usize
            }
        },
        None => len,
    };
    sub_chars(s, st, en)
}

/// `r` is a `ScriptError` carrying exactly `msg`.
pub open spec fn script_err(r: Result<Value, Error>, msg: Seq<char>) -> bool {
    r matches Err(e) && e matches Error::ScriptError(m) && m@ == msg
}

/// Relies on rand::random_range over `min..=max`: a uniform integer in
/// the inclusive range (the range must not be empty, or the call panics).
#[verifier::external_body]
fn random_in_range(min: i32, max: i32) -> (r: i32)
    requires
        min <= max,
    ensures
        min <= r <= max,
{
    rand::random_range(min..=max)
}

/// The fixed shape of an RFC 3339 rendering of a UTC instant, anchored at
/// the date-time separator `t`: a digit year (sign-led when it needs more
/// than four digits), `-MM-DD`, `T`, `HH:MM:SS`, an optional
/// fractional-second part starting with `.`, and the `+00:00` offset.
pub open spec fn rfc3339_utc_parts(s: Seq<char>, t: int) -> bool {
    &&& 10 <= t
    &&& t + 15 <= s.len()
    &&& s[t] == 'T'
    &&& s[t - 6] == '-'
    &&& s[t - 3] == '-'
    &&& is_dec_digit(s[t - 5]) && is_dec_digit(s[t - 4])
    &&& is_dec_digit(s[t - 2]) && is_dec_digit(s[t - 1])
    &&& forall|i: int|
        (if s[0] == '+' || s[0] == '-' {
            1int
        } else {
            0int
        }) <= i < t - 6 ==> is_dec_digit(#[trigger] s[i])
    &&& is_dec_digit(s[t + 1]) && is_dec_digit(s[t + 2])
    &&& s[t + 3] == ':'
    &&& is_dec_digit(s[t + 4]) && is_dec_digit(s[t + 5])
    &&& s[t + 6] == ':'
    &&& is_dec_digit(s[t + 7]) && is_dec_digit(s[t + 8])
    &&& (t + 9 == s.len() - 6 || s[t + 9] == '.')
    &&& s.subrange(s.len() - 6, s.len() as int) == "+00:00"@
}

/// What holds of every RFC 3339 rendering of a UTC instant.
pub open spec fn rfc3339_utc_shaped(s: Seq<char>) -> bool {
    exists|t: int| #[trigger] rfc3339_utc_parts(s, t)
}

/// Relies on chrono::Utc::now and chrono::DateTime::to_rfc3339: the
/// current UTC time in RFC 3339 form.  Which instant the clock reports is
/// not specified, but every rendering has the fixed RFC 3339 shape:
/// year, `-MM-DD`, `T`, `HH:MM:SS`, optional fraction, `+00:00`.
#[verifier::external_body]
fn now_rfc3339() -> (r: String)
    ensures
        rfc3339_utc_shaped(r@),
{
    chrono::Utc::now().to_rfc3339()
}

/// Relies on chrono::Utc::now and chrono::DateTime::format: the current
/// UTC time rendered with a strftime-style format string; `None` exactly
/// when chrono rejects the format while rendering.  Nothing is promised
/// of the clock.
#[verifier::external_body]
fn now_formatted(fmt: &str) -> Option<String> {
    let mut out = String::new();
    match write!(&mut out, "{}", chrono::Utc::now().format(fmt)) {
        Ok(()) => Some(out),
        Err(_) => None,
    }
}

/// What `random` guarantees: two integer arguments in order, and a result
/// inside the inclusive range.
pub open spec fn random_post(am: Seq<ValueModel>, r: Result<Value, Error>) -> bool {
    &&& am.len() != 2 ==> script_err(r, "random function requires 2 argument"@)
    &&& am.len() == 2 && !int_coercible(am[0]) ==> script_err(r, as_int_err_msg(am[0]))
    &&& am.len() == 2 && int_coercible(am[0]) && !int_coercible(am[1]) ==> script_err(
        r,
        as_int_err_msg(am[1]),
    )
    &&& am.len() == 2 && int_coercible(am[0]) && int_coercible(am[1]) && as_int_model(am[1])
        < as_int_model(am[0]) ==> script_err(r, "random function requires min <= max"@)
    &&& am.len() == 2 && int_coercible(am[0]) && int_coercible(am[1]) && as_int_model(am[0])
        <= as_int_model(am[1]) ==> (r matches Ok(v) && v.model() matches ValueModel::Int(x)
        && as_int_model(am[0]) <= x <= as_int_model(am[1]))
}

/// What `now` guarantees: with no argument an RFC 3339 timestamp, with a
/// format argument some rendering of it; which instant the clock reports
/// is not specified.
pub open spec fn now_post(am: Seq<ValueModel>, r: Result<Value, Error>) -> bool {
    &&& am.len() >= 2 ==> script_err(r, "now function requires 0 or 1 argument"@)
    &&& am.len() == 0 ==> (r matches Ok(v) && (v.model() matches ValueModel::String(s)
        && rfc3339_utc_shaped(s)))
    &&& am.len() == 1 && !string_coercible(am[0]) ==> script_err(r, as_string_err_msg(am[0]))
    &&& am.len() == 1 && string_coercible(am[0]) ==> match r {
        Ok(v) => v.model() is String,
        Err(e) => e matches Error::ScriptError(m) && m@ == "invalid time format"@,
    }
}

/// What `plus` guarantees: wrapping 32-bit addition of two integers.
pub open spec fn plus_post(am: Seq<ValueModel>, r: Result<Value, Error>) -> bool {
    &&& am.len() != 2 ==> script_err(r, "Plus function requires 2 arguments"@)
    &&& am.len() == 2 && !int_coercible(am[0]) ==> script_err(r, as_int_err_msg(am[0]))
    &&& am.len() == 2 && int_coercible(am[0]) && !int_coercible(am[1]) ==> script_err(
        r,
        as_int_err_msg(am[1]),
    )
    &&& am.len() == 2 && int_coercible(am[0]) && int_coercible(am[1]) ==> (r matches Ok(v)
        && v.model() == ValueModel::Int(wrap_i32(as_int_model(am[0]) + as_int_model(am[1]))))
}

/// What `copy` guarantees: its single argument back, deeply copied.
pub open spec fn copy_post(am: Seq<ValueModel>, r: Result<Value, Error>) -> bool {
    &&& am.len() != 1 ==> script_err(r, "copy function requires 1 argument"@)
    &&& am.len() == 1 ==> (r matches Ok(v) && v.model() == am[0])
}

/// What `substring` guarantees: the code-point slice of its string
/// argument, the end defaulting to the string's end.
pub open spec fn substring_post(am: Seq<ValueModel>, r: Result<Value, Error>) -> bool {
    &&& !(am.len() == 2 || am.len() == 3) ==> script_err(
        r,
        "substring function requires 2 or 3 arguments"@,
    )
    &&& (am.len() == 2 || am.len() == 3) && !string_coercible(am[0]) ==> script_err(
        r,
        as_string_err_msg(am[0]),
    )
    &&& (am.len() == 2 || am.len() == 3) && string_coercible(am[0]) && !int_coercible(am[1])
        ==> script_err(r, as_int_err_msg(am[1]))
    &&& am.len() == 3 && string_coercible(am[0]) && int_coercible(am[1]) && !int_coercible(
        am[2],
    ) ==> script_err(r, as_int_err_msg(am[2]))
    &&& am.len() == 2 && string_coercible(am[0]) && int_coercible(am[1]) ==> (r matches Ok(v)
        && v.model() == ValueModel::String(
        substring_model(
            as_string_model(am[0]),
            as_int_model(am[1]),
            as_string_model(am[0]).len() as int,
        ),
    ))
    &&& am.len() == 3 && string_coercible(am[0]) && int_coercible(am[1]) && int_coercible(am[2])
        ==> (r matches Ok(v) && v.model() == ValueModel::String(
        substring_model(as_string_model(am[0]), as_int_model(am[1]), as_int_model(am[2])),
    ))
}

/// What `lastIndexOf` guarantees: the byte index of the last occurrence
/// of its second argument in its first, 0 when absent; exact while the
/// index fits in `i32`.
pub open spec fn last_index_of_post(am: Seq<ValueModel>, r: Result<Value, Error>) -> bool {
    &&& am.len() != 2 ==> script_err(r, "lastIndexOf function requires 2 argument"@)
    &&& am.len() == 2 && !string_coercible(am[0]) ==> script_err(r, as_string_err_msg(am[0]))
    &&& am.len() == 2 && string_coercible(am[0]) && !string_coercible(am[1]) ==> script_err(
        r,
        as_string_err_msg(am[1]),
    )
    &&& am.len() == 2 && string_coercible(am[0]) && string_coercible(am[1]) ==> (r matches Ok(v)
        && v.model() matches ValueModel::Int(x) && (last_index_of_model(
        as_string_model(am[0]),
        as_string_model(am[1]),
    ) <= 2147483647 ==> x == last_index_of_model(as_string_model(am[0]), as_string_model(am[1]))))
}

/// What `split` guarantees: the pre-bound segment of its string argument
/// split at the pre-bound delimiter.
pub open spec fn split_post(
    am: Seq<ValueModel>,
    r: Result<Value, Error>,
    delimiter: Seq<char>,
    index: SplitIndex,
) -> bool {
    &&& am.len() != 1 ==> script_err(r, "Expects 1 argument"@)
    &&& am.len() == 1 && !string_coercible(am[0]) ==> script_err(r, as_string_err_msg(am[0]))
    &&& am.len() == 1 && string_coercible(am[0]) ==> (r matches Ok(v) && v.model()
        == ValueModel::String(split_pick(split_model(as_string_model(am[0]), delimiter), index)))
}

/// `random`: a uniform integer between its two arguments, inclusive.
#[derive(Debug, Clone)]
pub struct RandomFunction;

impl RandomFunction {
    pub fn apply(&self, args: Vec<Value>) -> (r: Result<Value, Error>)
        ensures
            random_post(Value::model_seq(args@), r),
    {
        broadcast use crate::value::lemma_model_seq_props;

        if args.len() != 2 {
            return Err(Error::ScriptError(String::from_str("random function requires 2 argument")));
        }
        let min = match args[0].as_int() {
            Ok(v) => v,
            Err(e) => {
                return Err(e);
            },
        };
        let max = match args[1].as_int() {
            Ok(v) => v,
            Err(e) => {
                return Err(e);
            },
        };
        if max < min {
            return Err(Error::ScriptError(String::from_str("random function requires min <= max")));
        }
        Ok(Value::Int(random_in_range(min, max)))
    }
}

/// `now`: the current UTC time, in RFC 3339 form or a strftime format.
#[derive(Debug, Clone)]
pub struct NowFunction;

impl NowFunction {
    pub fn apply(&self, args: Vec<Value>) -> (r: Result<Value, Error>)
        ensures
            now_post(Value::model_seq(args@), r),
    {
        broadcast use crate::value::lemma_model_seq_props;

        if args.len() >= 2 {
            return Err(
                Error::ScriptError(String::from_str("now function requires 0 or 1 argument")),
            );
        }
        if args.len() == 0 {
            return Ok(Value::String(now_rfc3339()));
        }
        let format = match args[0].as_string() {
            Ok(v) => v,
            Err(e) => {
                return Err(e);
            },
        };
        match now_formatted(format.as_str()) {
            Some(rendered) => Ok(Value::String(rendered)),
            None => Err(Error::ScriptError(String::from_str("invalid time format"))),
        }
    }
}

/// `plus`: wrapping 32-bit addition of two integers.
#[derive(Debug, Clone)]
pub struct PlusFunction;

impl PlusFunction {
    pub fn apply(&self, args: Vec<Value>) -> (r: Result<Value, Error>)
        ensures
            plus_post(Value::model_seq(args@), r),
    {
        broadcast use crate::value::lemma_model_seq_props;

        if args.len() != 2 {
            return Err(Error::ScriptError(String::from_str("Plus function requires 2 arguments")));
        }
        let arg0 = match args[0].as_int() {
            Ok(v) => v,
            Err(e) => {
                return Err(e);
            },
        };
        let arg1 = match args[1].as_int() {
            Ok(v) => v,
            Err(e) => {
                return Err(e);
            },
        };
        Ok(Value::Int(arg0.wrapping_add(arg1)))
    }
}

/// `copy`: its single argument, deeply copied.
#[derive(Debug, Clone)]
pub struct CopyFunction;

impl CopyFunction {
    pub fn apply(&self, args: Vec<Value>) -> (r: Result<Value, Error>)
        ensures
            copy_post(Value::model_seq(args@), r),
    {
        broadcast use crate::value::lemma_model_seq_props;

        if args.len() != 1 {
            return Err(Error::ScriptError(String::from_str("copy function requires 1 argument")));
        }
        Ok(args[0].clone())
    }
}

/// `substring`: the code-point slice `(s, start[, end])`.
#[derive(Debug, Clone)]
pub struct SubStringFunction;

impl SubStringFunction {
    pub fn apply(&self, args: Vec<Value>) -> (r: Result<Value, Error>)
        ensures
            substring_post(Value::model_seq(args@), r),
    {
        broadcast use crate::value::lemma_model_seq_props;

        if !(args.len() == 2 || args.len() == 3) {
            return Err(
                Error::ScriptError(String::from_str("substring function requires 2 or 3 arguments")),
            );
        }
        let input_str = match args[0].as_string() {
            Ok(v) => v,
            Err(e) => {
                return Err(e);
            },
        };
        let start = match args[1].as_int() {
            Ok(v) => v,
            Err(e) => {
                return Err(e);
            },
        };
        let end: Option<i32> = if args.len() == 3 {
            match args[2].as_int() {
                Ok(v) => Some(v),
                Err(e) => {
                    return Err(e);
                },
            }
        } else {
            None
        };
        let cs = chars_of(input_str.as_str());
        let out = substring_chars(&cs, start, end);
        Ok(Value::String(string_of(&out)))
    }
}

/// `lastIndexOf`: the byte index of the last occurrence, 0 when absent.
#[derive(Debug, Clone)]
pub struct LastIndexOfFunction;

impl LastIndexOfFunction {
    pub fn apply(&self, args: Vec<Value>) -> (r: Result<Value, Error>)
        ensures
            last_index_of_post(Value::model_seq(args@), r),
    {
        broadcast use crate::value::lemma_model_seq_props;

        if args.len() != 2 {
            return Err(
                Error::ScriptError(String::from_str("lastIndexOf function requires 2 argument")),
            );
        }
        let input_str = match args[0].as_string() {
            Ok(v) => v,
            Err(e) => {
                return Err(e);
            },
        };
        let pattern = match args[1].as_string() {
            Ok(v) => v,
            Err(e) => {
                return Err(e);
            },
        };
        let s = chars_of(input_str.as_str());
        let p = chars_of(pattern.as_str());
        Ok(Value::Int(last_index_of_chars(&s, &p)))
    }
}

impl SplitFunction {
    /// The argument-list form of `split`, used by statement execution.
    pub fn apply_args(&self, args: Vec<Value>) -> (r: Result<Value, Error>)
        ensures
            split_post(Value::model_seq(args@), r, self.delimiter@, self.index),
    {
        broadcast use crate::value::lemma_model_seq_props;

        if args.len() != 1 {
            return Err(Error::ScriptError(String::from_str("Expects 1 argument")));
        }
        let input = match args[0].as_string() {
            Ok(v) => v,
            Err(e) => {
                return Err(e);
            },
        };
        Ok(Value::String(self.apply(input)))
    }
}

/// The function library: every operation a `def` statement can call.
#[derive(Debug, Clone)]
pub enum Function {
    Split(SplitFunction),
    Random(RandomFunction),
    Now(NowFunction),
    Plus(PlusFunction),
    Copy(CopyFunction),
    SubString(SubStringFunction),
    LastIndexOf(LastIndexOfFunction),
}

impl Function {
    /// Applies the function to its evaluated arguments, with the variant's
    /// exact contract.
    pub fn apply(&self, args: Vec<Value>) -> (r: Result<Value, Error>)
        ensures
            match self {
                Function::Split(f) => split_post(
                    Value::model_seq(args@),
                    r,
                    f.delimiter@,
                    f.index,
                ),
                Function::Random(_) => random_post(Value::model_seq(args@), r),
                Function::Now(_) => now_post(Value::model_seq(args@), r),
                Function::Plus(_) => plus_post(Value::model_seq(args@), r),
                Function::Copy(_) => copy_post(Value::model_seq(args@), r),
                Function::SubString(_) => substring_post(Value::model_seq(args@), r),
                Function::LastIndexOf(_) => last_index_of_post(Value::model_seq(args@), r),
            },
    {
        match self {
            Function::Split(func) => func.apply_args(args),
            Function::Random(func) => func.apply(args),
            Function::Now(func) => func.apply(args),
            Function::Plus(func) => func.apply(args),
            Function::Copy(func) => func.apply(args),
            Function::SubString(func) => func.apply(args),
            Function::LastIndexOf(func) => func.apply(args),
        }
    }
}

} // verus!

verus! {

/// The values an application may legitimately return through `Ok`.
pub open spec fn apply_ok_value(f: Function, am: Seq<ValueModel>, vm: ValueModel) -> bool {
    match f {
        Function::Split(sf) => am.len() == 1 && string_coercible(am[0]) && vm
            == ValueModel::String(
            split_pick(split_model(as_string_model(am[0]), sf.delimiter@), sf.index),
        ),
        Function::Random(_) => am.len() == 2 && int_coercible(am[0]) && int_coercible(am[1])
            && as_int_model(am[0]) <= as_int_model(am[1]) && (vm matches ValueModel::Int(x)
            && as_int_model(am[0]) <= x <= as_int_model(am[1])),
        Function::Now(_) => (am.len() == 0 && (vm matches ValueModel::String(s)
            && rfc3339_utc_shaped(s))) || (am.len() == 1 && string_coercible(am[0])
            && vm is String),
        Function::Plus(_) => am.len() == 2 && int_coercible(am[0]) && int_coercible(am[1]) && vm
            == ValueModel::Int(wrap_i32(as_int_model(am[0]) + as_int_model(am[1]))),
        Function::Copy(_) => am.len() == 1 && vm == am[0],
        Function::SubString(_) => (am.len() == 2 || am.len() == 3) && string_coercible(am[0])
            && int_coercible(am[1]) && (am.len() == 2 || int_coercible(am[2])) && vm
            == ValueModel::String(
            substring_model(
                as_string_model(am[0]),
                as_int_model(am[1]),
                if am.len() == 2 {
                    as_string_model(am[0]).len() as int
                } else {
                    as_int_model(am[2])
                },
            ),
        ),
        Function::LastIndexOf(_) => am.len() == 2 && string_coercible(am[0]) && string_coercible(
            am[1],
        ) && (vm matches ValueModel::Int(x) && (last_index_of_model(
            as_string_model(am[0]),
            as_string_model(am[1]),
        ) <= 2147483647 ==> x == last_index_of_model(
            as_string_model(am[0]),
            as_string_model(am[1]),
        ))),
    }
}

/// The argument shapes on which an application is owed success.
pub open spec fn apply_must_succeed(f: Function, am: Seq<ValueModel>) -> bool {
    match f {
        Function::Split(_) => am.len() == 1 && string_coercible(am[0]),
        Function::Random(_) => am.len() == 2 && int_coercible(am[0]) && int_coercible(am[1])
            && as_int_model(am[0]) <= as_int_model(am[1]),
        Function::Now(_) => am.len() == 0,
        Function::Plus(_) => am.len() == 2 && int_coercible(am[0]) && int_coercible(am[1]),
        Function::Copy(_) => am.len() == 1,
        Function::SubString(_) => (am.len() == 2 || am.len() == 3) && string_coercible(am[0])
            && int_coercible(am[1]) && (am.len() == 2 || int_coercible(am[2])),
        Function::LastIndexOf(_) => am.len() == 2 && string_coercible(am[0]) && string_coercible(
            am[1],
        ),
    }
}

/// The argument shapes on which an application may succeed at all: those
/// owed success, and a one-argument `now`, whose format string only the
/// clock formatter can judge.
pub open spec fn apply_may_succeed(f: Function, am: Seq<ValueModel>) -> bool {
    apply_must_succeed(f, am) || (f is Now && am.len() == 1 && string_coercible(am[0]))
}

} // verus!

verus! {

/// The mathematical mirror of [`Function`].
pub enum FunctionModel {
    Split(Seq<char>, SplitIndex),
    Random,
    Now,
    Plus,
    Copy,
    SubString,
    LastIndexOf,
}

impl Function {
    pub open spec fn model(self) -> FunctionModel {
        match self {
            Function::Split(f) => FunctionModel::Split(f.delimiter@, f.index),
            Function::Random(_) => FunctionModel::Random,
            Function::Now(_) => FunctionModel::Now,
            Function::Plus(_) => FunctionModel::Plus,
            Function::Copy(_) => FunctionModel::Copy,
            Function::SubString(_) => FunctionModel::SubString,
            Function::LastIndexOf(_) => FunctionModel::LastIndexOf,
        }
    }
}

} // verus!
