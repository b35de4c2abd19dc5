//! Character-level helpers for the textual inputs the library parses:
//! decimal digit runs, character search, and ASCII trimming.

use vstd::prelude::*;

verus! {

/// ASCII whitespace: space, tab, line feed, form feed, carriage return.
pub open spec fn is_space(c: char) -> bool {
    c == ' ' || c == '\t' || c == '\n' || c == '\u{c}' || c == '\r'
}

pub open spec fn is_digit(c: char) -> bool {
    48 <= c as u32 <= 57
}

pub open spec fn digit_val(c: char) -> int {
    c as u32 - 48
}

pub open spec fn all_digits(s: Seq<char>) -> bool {
    forall|i: int| 0 <= i < s.len() ==> is_digit(#[trigger] s[i])
}

/// Value of a run of decimal digits, most significant first.
pub open spec fn dec_val(s: Seq<char>) -> int
    decreases s.len(),
{
    if s.len() == 0 {
        0
    } else {
        dec_val(s.drop_last()) * 10 + digit_val(s.last())
    }
}

pub proof fn lemma_dec_val_bounds(s: Seq<char>)
    requires
        all_digits(s),
    ensures
        0 <= dec_val(s),
        s.len() > 0 ==> dec_val(s) >= digit_val(s.last()),
    decreases s.len(),
{
    if s.len() > 0 {
        assert(all_digits(s.drop_last()));
        lemma_dec_val_bounds(s.drop_last());
    }
}

/// Index of the first occurrence of `c` at or past `from`, or the length
/// of `s` when there is none.
pub open spec fn find_from(s: Seq<char>, c: char, from: int) -> int
    decreases s.len() - from,
{
    if from < 0 {
        find_from(s, c, 0)
    } else if from >= s.len() {
        s.len() as int
    } else if s[from] == c {
        from
    } else {
        find_from(s, c, from + 1)
    }
}

proof fn lemma_find_from(s: Seq<char>, c: char, from: int)
    requires
        0 <= from <= s.len(),
    ensures
        from <= find_from(s, c, from) <= s.len(),
        find_from(s, c, from) < s.len() ==> s[find_from(s, c, from)] == c,
        forall|j: int| from <= j < find_from(s, c, from) ==> s[j] != c,
    decreases s.len() - from,
{
    if from < s.len() && s[from] != c {
        lemma_find_from(s, c, from + 1);
    }
}

/// First index at or past `from` holding `c`, or the length of `s`.
pub fn find_char_from(s: &str, c: char, from: usize) -> (r: usize)
    requires
        from <= s@.len(),
    ensures
        r == find_from(s@, c, from as int),
        from <= r <= s@.len(),
        r < s@.len() ==> s@[r as int] == c,
        forall|j: int| from <= j < r ==> s@[j] != c,
{
    proof {
        lemma_find_from(s@, c, from as int);
    }
    let n = s.unicode_len();
    let mut i: usize = from;
    while i < n
        invariant
            from <= i <= n,
            n == s@.len(),
            find_from(s@, c, from as int) == find_from(s@, c, i as int),
        decreases n - i,
    {
        proof {
            lemma_find_from(s@, c, from as int);
        }
        if s.get_char(i) == c {
            return i;
        }
        i = i + 1;
    }
    n
}

/// Index of the first non-whitespace character, or the length of `s`.
pub open spec fn ltrim_at(s: Seq<char>) -> int
    decreases s.len(),
{
    if s.len() == 0 {
        0
    } else if is_space(s[0]) {
        1 + ltrim_at(s.drop_first())
    } else {
        0
    }
}

/// One past the last non-whitespace character, or 0.
pub open spec fn rtrim_at(s: Seq<char>) -> int
    decreases s.len(),
{
    if s.len() == 0 {
        0
    } else if is_space(s.last()) {
        rtrim_at(s.drop_last())
    } else {
        s.len() as int
    }
}

/// What is left of `s` once whitespace is shed from both ends.
pub open spec fn trim_spec(s: Seq<char>) -> Seq<char> {
    if ltrim_at(s) < rtrim_at(s) {
        s.subrange(ltrim_at(s), rtrim_at(s))
    } else {
        Seq::empty()
    }
}

proof fn lemma_ltrim_at(s: Seq<char>)
    ensures
        0 <= ltrim_at(s) <= s.len(),
        forall|j: int| 0 <= j < ltrim_at(s) ==> is_space(#[trigger] s[j]),
        ltrim_at(s) < s.len() ==> !is_space(s[ltrim_at(s)]),
    decreases s.len(),
{
    if s.len() > 0 && is_space(s[0]) {
        lemma_ltrim_at(s.drop_first());
        assert(forall|j: int| 1 <= j < ltrim_at(s) ==> #[trigger] s[j] == s.drop_first()[j - 1]);
        assert(ltrim_at(s) < s.len() ==> s[ltrim_at(s)] == s.drop_first()[ltrim_at(s) - 1]);
    }
}

proof fn lemma_rtrim_at(s: Seq<char>)
    ensures
        0 <= rtrim_at(s) <= s.len(),
        forall|j: int| rtrim_at(s) <= j < s.len() ==> is_space(#[trigger] s[j]),
        rtrim_at(s) > 0 ==> !is_space(s[rtrim_at(s) - 1]),
    decreases s.len(),
{
    if s.len() > 0 && is_space(s.last()) {
        lemma_rtrim_at(s.drop_last());
        assert(forall|j: int|
            rtrim_at(s) <= j < s.len() - 1 ==> #[trigger] s[j] == s.drop_last()[j]);
        assert(rtrim_at(s) > 0 ==> s[rtrim_at(s) - 1] == s.drop_last()[rtrim_at(s) - 1]);
    }
}

/// ASCII whitespace test usable from executable code.
pub fn is_space_char(c: char) -> (r: bool)
    ensures
        r == is_space(c),
{
    c == ' ' || c == '\t' || c == '\n' || c == '\u{c}' || c == '\r'
}

/// `s` without leading and trailing ASCII whitespace.
pub fn trim_ascii<'a>(s: &'a str) -> (r: &'a str)
    ensures
        r@ =~= trim_spec(s@),
{
    proof {
        lemma_ltrim_at(s@);
        lemma_rtrim_at(s@);
    }
    let n = s.unicode_len();
    let mut start: usize = 0;
    while start < n && is_space_char(s.get_char(start))
        invariant
            0 <= start <= n,
            n == s@.len(),
            forall|j: int| 0 <= j < start ==> is_space(#[trigger] s@[j]),
            start <= ltrim_at(s@),
        decreases n - start,
    {
        proof {
            lemma_ltrim_at(s@);
            if start == ltrim_at(s@) {
                assert(!is_space(s@[ltrim_at(s@)]));
            }
        }
        start = start + 1;
    }
    proof {
        assert(start == ltrim_at(s@));
    }
    let mut end: usize = n;
    while end > start && is_space_char(s.get_char(end - 1))
        invariant
            start <= end <= n,
            n == s@.len(),
            start == ltrim_at(s@),
            forall|j: int| end <= j < s@.len() ==> is_space(#[trigger] s@[j]),
            end >= rtrim_at(s@) || end == start,
        decreases end,
    {
        proof {
            lemma_rtrim_at(s@);
            if end == rtrim_at(s@) && rtrim_at(s@) > 0 {
                assert(!is_space(s@[rtrim_at(s@) - 1]));
            }
        }
        end = end - 1;
    }
    proof {
        if end > start {
            assert(end == rtrim_at(s@));
        } else {
            assert(forall|j: int| 0 <= j < s@.len() ==> is_space(#[trigger] s@[j]));
            assert(rtrim_at(s@) == 0 || !is_space(s@[rtrim_at(s@) - 1]));
            assert(rtrim_at(s@) <= ltrim_at(s@));
        }
    }
    s.substring_char(start, end)
}

proof fn lemma_dec_val_prefix_le(s: Seq<char>, i: int)
    requires
        all_digits(s),
        0 <= i <= s.len(),
    ensures
        dec_val(s.take(i)) <= dec_val(s),
    decreases s.len() - i,
{
    lemma_dec_val_bounds(s);
    if i < s.len() {
        lemma_dec_val_prefix_le(s, i + 1);
        assert(s.take(i + 1).drop_last() =~= s.take(i));
        assert(is_digit(s[i]));
        assert(dec_val(s.take(i + 1)) == dec_val(s.take(i)) * 10 + digit_val(s.take(i + 1).last()));
        assert(all_digits(s.take(i)));
        lemma_dec_val_bounds(s.take(i));
    } else {
        assert(s.take(i) =~= s);
    }
}

/// The value of a digit character, or nothing for any other character.
pub fn digit_of(c: char) -> (r: Option<u8>)
    ensures
        (r is Some) == is_digit(c),
        r matches Some(v) ==> v == digit_val(c) && v <= 9,
{
    let u: u32 = c as u32;
    if 48 <= u && u <= 57 {
        Some((u - 48) as u8)
    } else {
        None
    }
}

/// Parse a whole string as a decimal number of at most `cap`: succeeds
/// exactly on a non-empty digit run whose value stays within the cap
/// (leading zeros permitted).
pub fn parse_decimal_capped(s: &str, cap: u32) -> (r: Option<u32>)
    ensures
        (r is Some) == (s@.len() > 0 && all_digits(s@) && dec_val(s@) <= cap),
        r matches Some(v) ==> v == dec_val(s@),
{
    let n = s.unicode_len();
    if n == 0 {
        return None;
    }
    let mut val: u32 = 0;
    let mut i: usize = 0;
    while i < n
        invariant
            0 <= i <= n,
            n == s@.len(),
            all_digits(s@.take(i as int)),
            val == dec_val(s@.take(i as int)),
            val <= cap,
        decreases n - i,
    {
        let c = s.get_char(i);
        proof {
            assert(s@.take(i + 1).drop_last() =~= s@.take(i as int));
            assert(s@.take(i + 1).last() == c);
        }
        let d = match digit_of(c) {
            Some(d) => d,
            None => {
                proof {
                    assert(!all_digits(s@)) by {
                        assert(s@[i as int] == c);
                    }
                }
                return None;
            },
        };
        let next: u64 = (val as u64) * 10 + d as u64;
        if next > cap as u64 {
            proof {
                assert(all_digits(s@.take(i + 1)));
                if all_digits(s@) {
                    lemma_dec_val_prefix_le(s@, i + 1);
                }
            }
            return None;
        }
        val = next as u32;
        i = i + 1;
    }
    proof {
        assert(s@.take(n as int) =~= s@);
    }
    Some(val)
}

/// The character of one decimal digit.
pub open spec fn digit_char(d: int) -> char
    recommends
        0 <= d <= 9,
{
    if d == 0 {
        '0'
    } else if d == 1 {
        '1'
    } else if d == 2 {
        '2'
    } else if d == 3 {
        '3'
    } else if d == 4 {
        '4'
    } else if d == 5 {
        '5'
    } else if d == 6 {
        '6'
    } else if d == 7 {
        '7'
    } else if d == 8 {
        '8'
    } else {
        '9'
    }
}

/// The decimal text of a number, most significant digit first, no sign
/// and no leading zeros.
pub open spec fn dec_str_of(n: int) -> Seq<char>
    recommends
        n >= 0,
    decreases n,
{
    if n < 10 {
        seq![digit_char(n)]
    } else {
        dec_str_of(n / 10).push(digit_char(n % 10))
    }
}

/// The text of one decimal digit.
fn digit_str(d: u32) -> (r: &'static str)
    requires
        d < 10,
    ensures
        r@ =~= seq![digit_char(d as int)],
{
    let r: &'static str = if d == 0 {
        "0"
    } else if d == 1 {
        "1"
    } else if d == 2 {
        "2"
    } else if d == 3 {
        "3"
    } else if d == 4 {
        "4"
    } else if d == 5 {
        "5"
    } else if d == 6 {
        "6"
    } else if d == 7 {
        "7"
    } else if d == 8 {
        "8"
    } else {
        "9"
    };
    proof {
        reveal_strlit("0");
        reveal_strlit("1");
        reveal_strlit("2");
        reveal_strlit("3");
        reveal_strlit("4");
        reveal_strlit("5");
        reveal_strlit("6");
        reveal_strlit("7");
        reveal_strlit("8");
        reveal_strlit("9");
    }
    r
}

/// Format a number as decimal text.
pub fn format_u32(n: u32) -> (r: String)
    ensures
        r@ =~= dec_str_of(n as int),
    decreases n,
{
    if n < 10 {
        digit_str(n).to_owned()
    } else {
        let mut s = format_u32(n / 10);
        s.append(digit_str(n % 10));
        s
    }
}

/// Index of the first occurrence of `pat` in `s` at or past `i`, or the
/// length of `s` when there is none.
pub open spec fn find_sub_from(s: Seq<char>, pat: Seq<char>, i: int) -> int
    decreases s.len() - i,
{
    if i < 0 {
        find_sub_from(s, pat, 0)
    } else if i + pat.len() > s.len() {
        s.len() as int
    } else if pat.len() == 0 {
        i
    } else if s.subrange(i, i + pat.len() as int) == pat {
        i
    } else {
        find_sub_from(s, pat, i + 1)
    }
}

/// Whether `pat` occurs anywhere in `s`.
pub open spec fn contains_sub(s: Seq<char>, pat: Seq<char>) -> bool {
    find_sub_from(s, pat, 0) < s.len()
}

/// Whether `pat` stands at position `i` of `s`.
fn sub_at(s: &str, i: usize, pat: &str) -> (r: bool)
    requires
        i + pat@.len() <= s@.len(),
    ensures
        r == (s@.subrange(i as int, i + pat@.len() as int) == pat@),
{
    let n = s.unicode_len();
    let m = pat.unicode_len();
    let mut k: usize = 0;
    while k < m
        invariant
            0 <= k <= m,
            m == pat@.len(),
            n == s@.len(),
            i + m <= n,
            forall|j: int| 0 <= j < k ==> s@[i + j] == pat@[j],
        decreases m - k,
    {
        if s.get_char(i + k) != pat.get_char(k) {
            proof {
                assert(s@.subrange(i as int, i + pat@.len() as int)[k as int] != pat@[k as int]);
            }
            return false;
        }
        k = k + 1;
    }
    proof {
        assert(s@.subrange(i as int, i + pat@.len() as int) =~= pat@);
    }
    true
}

/// First index at or past `from` where `pat` stands, or the length of `s`.
pub fn find_sub(s: &str, pat: &str, from: usize) -> (r: usize)
    requires
        from <= s@.len(),
    ensures
        r == find_sub_from(s@, pat@, from as int),
        r <= s@.len(),
        r < s@.len() ==> r + pat@.len() <= s@.len(),
{
    let n = s.unicode_len();
    let m = pat.unicode_len();
    if m > n {
        return n;
    }
    if m == 0 {
        return from;
    }
    let mut i: usize = from;
    while i <= n - m
        invariant
            from <= i <= n,
            n == s@.len(),
            m == pat@.len(),
            1 <= m <= n,
            find_sub_from(s@, pat@, from as int) == find_sub_from(s@, pat@, i as int),
        decreases n - i,
    {
        if sub_at(s, i, pat) {
            return i;
        }
        i = i + 1;
    }
    n
}

/// Whether two strings hold the same characters.
pub fn str_eq(a: &str, b: &str) -> (r: bool)
    ensures
        r == (a@ == b@),
{
    let na = a.unicode_len();
    let nb = b.unicode_len();
    if na != nb {
        return false;
    }
    let mut i: usize = 0;
    while i < na
        invariant
            0 <= i <= na,
            na == a@.len(),
            na == b@.len(),
            forall|j: int| 0 <= j < i ==> a@[j] == b@[j],
        decreases na - i,
    {
        if a.get_char(i) != b.get_char(i) {
            return false;
        }
        i = i + 1;
    }
    proof {
        assert(a@ =~= b@);
    }
    true
}

} // verus!
