//! Character-level text scanning: whitespace classification, searching,
//! trimming, and decimal parsing. Everything the other modules do with file
//! contents is built from these primitives.

use vstd::prelude::*;

verus! {

/// Characters with the Unicode `White_Space` property: the set that trimming
/// and whitespace-splitting go by.
pub open spec fn is_space(c: char) -> bool {
    let u = c as int;
    (0x09 <= u && u <= 0x0d) || u == 0x20 || u == 0x85 || u == 0xa0 || u == 0x1680 || (0x2000
        <= u && u <= 0x200a) || u == 0x2028 || u == 0x2029 || u == 0x202f || u == 0x205f || u
        == 0x3000
}

pub fn is_space_char(c: char) -> (r: bool)
    ensures
        r == is_space(c),
{
    let u = c as u32;
    (0x09 <= u && u <= 0x0d) || u == 0x20 || u == 0x85 || u == 0xa0 || u == 0x1680 || (0x2000
        <= u && u <= 0x200a) || u == 0x2028 || u == 0x2029 || u == 0x202f || u == 0x205f || u
        == 0x3000
}

/// Index of the first occurrence of `c` in `s` at or after `i`, or `s.len()`.
pub open spec fn find_char_from(s: Seq<char>, c: char, i: int) -> int
    recommends
        0 <= i <= s.len(),
    decreases s.len() - i,
{
    if i >= s.len() {
        s.len() as int
    } else if s[i] == c {
        i
    } else {
        find_char_from(s, c, i + 1)
    }
}

pub proof fn lemma_find_char_from_bounds(s: Seq<char>, c: char, i: int)
    requires
        i <= s.len(),
    ensures
        i <= find_char_from(s, c, i) <= s.len(),
        find_char_from(s, c, i) < s.len() ==> s[find_char_from(s, c, i)] == c,
        forall|j: int| i <= j < find_char_from(s, c, i) ==> s[j] != c,
    decreases s.len() - i,
{
    if i >= s.len() {
    } else if s[i] == c {
    } else {
        lemma_find_char_from_bounds(s, c, i + 1);
    }
}

pub fn find_char(s: &str, c: char, from: usize) -> (r: usize)
    requires
        from <= s@.len(),
    ensures
        r as int == find_char_from(s@, c, from as int),
        from <= r <= s@.len(),
{
    let n = s.unicode_len();
    let mut j = from;
    while j < n
        invariant
            from <= j <= n,
            n == s@.len(),
            find_char_from(s@, c, from as int) == find_char_from(s@, c, j as int),
        decreases n - j,
    {
        if s.get_char(j) == c {
            return j;
        }
        j = j + 1;
    }
    n
}

/// Index of the first non-whitespace character in `s[i..end]`, or `end`.
pub open spec fn skip_space_from(s: Seq<char>, i: int, end: int) -> int
    recommends
        0 <= i,
        end <= s.len(),
    decreases end - i,
{
    if i >= end {
        end
    } else if is_space(s[i]) {
        skip_space_from(s, i + 1, end)
    } else {
        i
    }
}

pub fn skip_space(s: &str, from: usize, end: usize) -> (r: usize)
    requires
        from <= end,
        end <= s@.len(),
    ensures
        r as int == skip_space_from(s@, from as int, end as int),
        from <= r <= end,
{
    let mut j = from;
    while j < end
        invariant
            from <= j <= end,
            end <= s@.len(),
            skip_space_from(s@, from as int, end as int) == skip_space_from(
                s@,
                j as int,
                end as int,
            ),
        decreases end - j,
    {
        if !is_space_char(s.get_char(j)) {
            return j;
        }
        j = j + 1;
    }
    end
}

/// Index of the first whitespace character in `s[i..end]`, or `end`: one past
/// the end of the whitespace-delimited token starting at `i`.
pub open spec fn skip_token_from(s: Seq<char>, i: int, end: int) -> int
    recommends
        0 <= i,
        end <= s.len(),
    decreases end - i,
{
    if i >= end {
        end
    } else if !is_space(s[i]) {
        skip_token_from(s, i + 1, end)
    } else {
        i
    }
}

pub fn skip_token(s: &str, from: usize, end: usize) -> (r: usize)
    requires
        from <= end,
        end <= s@.len(),
    ensures
        r as int == skip_token_from(s@, from as int, end as int),
        from <= r <= end,
{
    let mut j = from;
    while j < end
        invariant
            from <= j <= end,
            end <= s@.len(),
            skip_token_from(s@, from as int, end as int) == skip_token_from(
                s@,
                j as int,
                end as int,
            ),
        decreases end - j,
    {
        if is_space_char(s.get_char(j)) {
            return j;
        }
        j = j + 1;
    }
    end
}

/// Largest `e' <= e` such that `s[e'..e]` is all whitespace; the end of the
/// trimmed region when scanning from the right.
pub open spec fn skip_space_rev(s: Seq<char>, e: int) -> int
    recommends
        0 <= e <= s.len(),
    decreases e,
{
    if e <= 0 {
        0
    } else if is_space(s[e - 1]) {
        skip_space_rev(s, e - 1)
    } else {
        e
    }
}

/// `s` with leading and trailing whitespace removed.
pub open spec fn trim_spec(s: Seq<char>) -> Seq<char> {
    let b = skip_space_from(s, 0, s.len() as int);
    let e = skip_space_rev(s, s.len() as int);
    if b <= e {
        s.subrange(b, e)
    } else {
        Seq::empty()
    }
}

pub fn trim_str<'a>(s: &'a str) -> (r: &'a str)
    ensures
        r@ == trim_spec(s@),
{
    let n = s.unicode_len();
    let b = skip_space(s, 0, n);
    let mut e = n;
    loop
        invariant
            e <= n,
            n == s@.len(),
            skip_space_rev(s@, n as int) == skip_space_rev(s@, e as int),
        ensures
            e <= n,
            e as int == skip_space_rev(s@, n as int),
        decreases e,
    {
        if e == 0 {
            break;
        }
        if !is_space_char(s.get_char(e - 1)) {
            break;
        }
        e = e - 1;
    }
    if b <= e {
        s.substring_char(b, e)
    } else {
        s.substring_char(0, 0)
    }
}

/// Whether `s` has `pat` as a sub-sequence starting at index `i`.
pub open spec fn matches_at(s: Seq<char>, pat: Seq<char>, i: int) -> bool {
    forall|k: int| 0 <= k < pat.len() ==> s[i + k] == pat[k]
}

pub fn check_match(s: &str, pat: &str, at: usize) -> (r: bool)
    requires
        at + pat@.len() <= s@.len(),
    ensures
        r == matches_at(s@, pat@, at as int),
{
    let n = s.unicode_len();
    let m = pat.unicode_len();
    let mut k: usize = 0;
    while k < m
        invariant
            k <= m,
            n == s@.len(),
            m == pat@.len(),
            at + m <= n,
            forall|k2: int| 0 <= k2 < k ==> s@[at + k2] == pat@[k2],
        decreases m - k,
    {
        if s.get_char(at + k) != pat.get_char(k) {
            assert(!matches_at(s@, pat@, at as int)) by {
                assert(s@[at + k] != pat@[k as int]);
            }
            return false;
        }
        k = k + 1;
    }
    true
}

/// Index of the first occurrence of `pat` as a sub-sequence of `s` at or
/// after `i`, if any.
pub open spec fn find_sub_from(s: Seq<char>, pat: Seq<char>, i: int) -> Option<int>
    recommends
        0 <= i,
    decreases s.len() - i,
{
    if i + pat.len() > s.len() {
        None
    } else if matches_at(s, pat, i) {
        Some(i)
    } else {
        find_sub_from(s, pat, i + 1)
    }
}

pub fn find_pattern(s: &str, pat: &str, from: usize) -> (r: Option<usize>)
    requires
        from <= s@.len(),
        pat@.len() > 0,
    ensures
        match r {
            Some(j) => find_sub_from(s@, pat@, from as int) == Some(j as int) && from <= j
                && j + pat@.len() <= s@.len(),
            None => find_sub_from(s@, pat@, from as int) is None,
        },
{
    let n = s.unicode_len();
    let m = pat.unicode_len();
    if m > n || from > n - m {
        proof {
            assert(from as int + pat@.len() > s@.len());
        }
        return None;
    }
    let mut j = from;
    while j <= n - m
        invariant
            from <= j,
            n == s@.len(),
            m == pat@.len(),
            0 < m <= n,
            j <= n - m + 1,
            find_sub_from(s@, pat@, from as int) == find_sub_from(s@, pat@, j as int),
        decreases n - j,
    {
        if check_match(s, pat, j) {
            return Some(j);
        }
        j = j + 1;
    }
    None
}

/// Value of the digit run of `s` starting at `i`, accumulated onto `acc`;
/// `None` if a non-digit character is hit before the end.
pub open spec fn parse_digits_from(s: Seq<char>, i: int, acc: int) -> Option<int>
    recommends
        0 <= i,
    decreases s.len() - i,
{
    if i >= s.len() {
        Some(acc)
    } else if !(0x30 <= s[i] as int && s[i] as int <= 0x39) {
        None
    } else {
        parse_digits_from(s, i + 1, acc * 10 + (s[i] as int - 0x30))
    }
}

proof fn lemma_parse_digits_lower(s: Seq<char>, i: int, acc: int)
    requires
        0 <= i,
        0 <= acc,
    ensures
        parse_digits_from(s, i, acc) matches Some(v) ==> v >= acc,
    decreases s.len() - i,
{
    if i >= s.len() {
    } else if !(0x30 <= s[i] as int && s[i] as int <= 0x39) {
    } else {
        assert(s[i] as int - 0x30 >= 0);
        assert(acc * 10 >= acc) by (nonlinear_arith)
            requires acc >= 0;
        lemma_parse_digits_lower(s, i + 1, acc * 10 + (s[i] as int - 0x30));
    }
}

/// The value `s` denotes as an unsigned decimal integer: an optional leading
/// `+`, then one or more digits, with a value that fits in a `u32`.
pub open spec fn spec_parse_u32(s: Seq<char>) -> Option<u32> {
    let start: int = if s.len() > 0 && s[0] == '+' {
        1
    } else {
        0
    };
    if start >= s.len() {
        None
    } else {
        match parse_digits_from(s, start, 0) {
            Some(v) => if v <= u32::MAX {
                Some(v as u32)
            } else {
                None
            },
            None => None,
        }
    }
}

pub fn parse_u32(s: &str) -> (r: Option<u32>)
    ensures
        r == spec_parse_u32(s@),
{
    let n = s.unicode_len();
    let start: usize = if n > 0 && s.get_char(0) == '+' {
        1
    } else {
        0
    };
    if start >= n {
        return None;
    }
    let mut acc: u32 = 0;
    let mut i = start;
    while i < n
        invariant
            start <= i <= n,
            n == s@.len(),
            start < n,
            start == 1 <==> (s@.len() > 0 && s@[0] == '+'),
            start == 0 || start == 1,
            parse_digits_from(s@, start as int, 0) == parse_digits_from(s@, i as int, acc as int),
        decreases n - i,
    {
        let c = s.get_char(i);
        let u = c as u32;
        if u < 0x30 || u > 0x39 {
            return None;
        }
        let d = u - 0x30;
        if acc > (u32::MAX - d) / 10 {
            proof {
                assert(acc as int * 10 + d as int > u32::MAX as int) by (nonlinear_arith)
                    requires
                        acc as int > (u32::MAX as int - d as int) / 10,
                        0 <= d as int <= 9,
                        acc as int >= 0;
                lemma_parse_digits_lower(s@, i as int + 1, acc as int * 10 + d as int);
            }
            return None;
        }
        proof {
            assert(acc as int * 10 + d as int <= u32::MAX as int) by (nonlinear_arith)
                requires
                    acc as int <= (u32::MAX as int - d as int) / 10,
                    0 <= d as int <= 9,
                    acc as int >= 0;
        }
        acc = acc * 10 + d;
        i = i + 1;
    }
    Some(acc)
}

} // verus!
