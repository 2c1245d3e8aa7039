//! Verified text primitives: character classes, conversion of a `&str` to its
//! character sequence, splitting into lines, and whitespace trimming.

use vstd::prelude::*;
use vstd::string::StrSliceExecFns;

verus! {

pub open spec fn is_digit(c: char) -> bool {
    '0' <= c && c <= '9'
}

/// Whitespace as this library trims it: the Unicode `White_Space`
/// characters, the same set `char::is_whitespace` recognizes.
pub open spec fn is_space(c: char) -> bool {
    c == ' ' || ('\u{09}' <= c && c <= '\u{0d}') || c == '\u{85}' || c == '\u{a0}'
        || c == '\u{1680}' || ('\u{2000}' <= c && c <= '\u{200a}') || c == '\u{2028}'
        || c == '\u{2029}' || c == '\u{202f}' || c == '\u{205f}' || c == '\u{3000}'
}

/// Every character of `s` is whitespace.
pub open spec fn all_space(s: Seq<char>) -> bool {
    forall|k: int| 0 <= k < s.len() ==> is_space(#[trigger] s[k])
}

pub fn digit_char(c: char) -> (r: bool)
    ensures
        r == is_digit(c),
{
    '0' <= c && c <= '9'
}

pub fn space_char(c: char) -> (r: bool)
    ensures
        r == is_space(c),
{
    c == ' ' || ('\u{09}' <= c && c <= '\u{0d}') || c == '\u{85}' || c == '\u{a0}'
        || c == '\u{1680}' || ('\u{2000}' <= c && c <= '\u{200a}') || c == '\u{2028}'
        || c == '\u{2029}' || c == '\u{202f}' || c == '\u{205f}' || c == '\u{3000}'
}

/// Does `s` consist of whitespace alone?
pub fn all_space_str(s: &str) -> (r: bool)
    ensures
        r == all_space(s@),
{
    let n = s.unicode_len();
    let mut i: usize = 0;
    while i < n
        invariant
            i <= n,
            n == s@.len(),
            forall|k: int| 0 <= k < i ==> is_space(#[trigger] s@[k]),
        decreases n - i,
    {
        if !space_char(s.get_char(i)) {
            return false;
        }
        i = i + 1;
    }
    true
}

/// The characters of `s`, as a vector.
pub fn str_to_chars(s: &str) -> (r: Vec<char>)
    ensures
        r@ == s@,
{
    let n = s.unicode_len();
    let mut r: Vec<char> = Vec::new();
    let mut i: usize = 0;
    while i < n
        invariant
            i <= n,
            n == s@.len(),
            r@ == s@.take(i as int),
        decreases n - i,
    {
        let c = s.get_char(i);
        r.push(c);
        proof {
            assert(s@.take(i as int + 1) =~= s@.take(i as int).push(s@[i as int]));
        }
        i = i + 1;
    }
    proof {
        assert(s@.take(n as int) =~= s@);
    }
    r
}

/// Smallest index `j >= i` with `s[j] == c`, if any.
pub open spec fn find_char_from(s: Seq<char>, c: char, i: int) -> Option<int>
    decreases s.len() - i,
{
    if i < 0 || i >= s.len() {
        Option::None
    } else if s[i] == c {
        Option::Some(i)
    } else {
        find_char_from(s, c, i + 1)
    }
}

/// A found index lies between the start of the search and the length.
proof fn lemma_find_char_from_bounds(s: Seq<char>, c: char, i: int)
    ensures
        match find_char_from(s, c, i) {
            Option::Some(j) => i <= j < s.len() && s[j] == c && (forall|k: int|
                i <= k < j ==> s[k] != c),
            Option::None => i >= 0 ==> forall|k: int| i <= k < s.len() ==> s[k] != c,
        },
    decreases s.len() - i,
{
    if 0 <= i < s.len() && s[i] != c {
        lemma_find_char_from_bounds(s, c, i + 1);
    }
}

/// The lines of `s` from position `i` on: split at `'\n'`, one `'\r'`
/// directly before the split stripped, no empty final line after a trailing
/// `'\n'`. Matches what `str::lines` yields.
pub open spec fn lines_from(s: Seq<char>, i: int) -> Seq<Seq<char>>
    decreases s.len() - i,
    via lines_from_dec
{
    if i < 0 || i >= s.len() {
        Seq::empty()
    } else {
        match find_char_from(s, '\n', i) {
            Option::None => seq![s.subrange(i, s.len() as int)],
            Option::Some(j) => {
                let line = if j > i && s[j - 1] == '\r' {
                    s.subrange(i, j - 1)
                } else {
                    s.subrange(i, j)
                };
                seq![line] + lines_from(s, j + 1)
            },
        }
    }
}

#[via_fn]
proof fn lines_from_dec(s: Seq<char>, i: int) {
    lemma_find_char_from_bounds(s, '\n', i);
}

pub open spec fn spec_lines(s: Seq<char>) -> Seq<Seq<char>> {
    lines_from(s, 0)
}

pub open spec fn str_views(v: Seq<String>) -> Seq<Seq<char>> {
    v.map_values(|l: String| l@)
}

fn find_newline(chars: &Vec<char>, from: usize) -> (r: Option<usize>)
    requires
        from <= chars@.len(),
    ensures
        match r {
            Option::Some(j) => find_char_from(chars@, '\n', from as int) == Option::Some(j as int)
                && from <= j < chars@.len(),
            Option::None => find_char_from(chars@, '\n', from as int) is None,
        },
{
    let n = chars.len();
    let mut j = from;
    while j < n
        invariant
            from <= j <= n,
            n == chars@.len(),
            find_char_from(chars@, '\n', from as int) == find_char_from(chars@, '\n', j as int),
        decreases n - j,
    {
        if chars[j] == '\n' {
            return Some(j);
        }
        j = j + 1;
    }
    None
}

/// Splits `s` into its lines, as `str::lines` does.
pub fn split_lines(s: &str) -> (r: Vec<String>)
    ensures
        str_views(r@) == spec_lines(s@),
{
    let chars = str_to_chars(s);
    let n = chars.len();
    let mut r: Vec<String> = Vec::new();
    let mut pos: usize = 0;
    while pos < n
        invariant
            pos <= n,
            n == chars@.len(),
            chars@ == s@,
            spec_lines(s@) == str_views(r@) + lines_from(s@, pos as int),
        decreases n - pos,
    {
        let ghost prev = r@;
        match find_newline(&chars, pos) {
            Some(j) => {
                let end = if j > pos && chars[j - 1] == '\r' {
                    j - 1
                } else {
                    j
                };
                let line = s.substring_char(pos, end).to_owned();
                r.push(line);
                proof {
                    assert(str_views(r@) =~= str_views(prev).push(line@));
                }
                pos = j + 1;
            },
            None => {
                let line = s.substring_char(pos, n).to_owned();
                r.push(line);
                proof {
                    assert(str_views(r@) =~= str_views(prev).push(line@));
                    assert(lines_from(s@, pos as int) =~= seq![line@]);
                }
                pos = n;
            },
        }
    }
    proof {
        assert(str_views(r@) + lines_from(s@, pos as int) =~= str_views(r@));
    }
    r
}

/// First index `>= i` holding a non-space character, or the length.
pub open spec fn first_non_space(s: Seq<char>, i: int) -> int
    decreases s.len() - i,
{
    if i < 0 || i >= s.len() {
        s.len() as int
    } else if is_space(s[i]) {
        first_non_space(s, i + 1)
    } else {
        i
    }
}

/// One past the last non-space character strictly below `i`, or 0.
pub open spec fn last_non_space_end(s: Seq<char>, i: int) -> int
    decreases i,
{
    if i <= 0 {
        0
    } else if is_space(s[i - 1]) {
        last_non_space_end(s, i - 1)
    } else {
        i
    }
}

/// `s` with leading and trailing whitespace removed.
pub open spec fn trim_spec(s: Seq<char>) -> Seq<char> {
    let a = first_non_space(s, 0);
    if a == s.len() {
        Seq::empty()
    } else {
        s.subrange(a, last_non_space_end(s, s.len() as int))
    }
}

/// A sequence neither starting nor ending in whitespace.
pub open spec fn is_trimmed(s: Seq<char>) -> bool {
    s.len() == 0 || (!is_space(s[0]) && !is_space(s[s.len() - 1]))
}

proof fn lemma_first_non_space_bounds(s: Seq<char>, i: int)
    requires
        0 <= i <= s.len(),
    ensures
        i <= first_non_space(s, i) <= s.len(),
        first_non_space(s, i) < s.len() ==> !is_space(s[first_non_space(s, i)]),
        forall|k: int| i <= k < first_non_space(s, i) ==> is_space(s[k]),
    decreases s.len() - i,
{
    if i < s.len() && is_space(s[i]) {
        lemma_first_non_space_bounds(s, i + 1);
    }
}

proof fn lemma_last_non_space_bounds(s: Seq<char>, i: int)
    requires
        0 <= i <= s.len(),
    ensures
        0 <= last_non_space_end(s, i) <= i,
        last_non_space_end(s, i) > 0 ==> !is_space(s[last_non_space_end(s, i) - 1]),
        forall|k: int| last_non_space_end(s, i) <= k < i ==> is_space(s[k]),
    decreases i,
{
    if i > 0 && is_space(s[i - 1]) {
        lemma_last_non_space_bounds(s, i - 1);
    }
}

/// Trimming yields a trimmed sequence.
pub proof fn lemma_trim_trimmed(s: Seq<char>)
    ensures
        is_trimmed(trim_spec(s)),
{
    lemma_first_non_space_bounds(s, 0);
    lemma_last_non_space_bounds(s, s.len() as int);
    let a = first_non_space(s, 0);
    if a < s.len() {
        let b = last_non_space_end(s, s.len() as int);
        if b <= a {
            assert(is_space(s[a]));
        }
    }
}

/// A non-empty trim result is a contiguous slice of the input.
pub proof fn lemma_trim_spec_subrange(s: Seq<char>)
    ensures
        trim_spec(s).len() > 0 ==> {
            let a = first_non_space(s, 0);
            let b = last_non_space_end(s, s.len() as int);
            0 <= a <= b <= s.len() && trim_spec(s) == s.subrange(a, b)
        },
{
    lemma_first_non_space_bounds(s, 0);
    lemma_last_non_space_bounds(s, s.len() as int);
    let a = first_non_space(s, 0);
    let b = last_non_space_end(s, s.len() as int);
    if trim_spec(s).len() > 0 {
        assert(a < s.len());
        if b <= a {
            assert(is_space(s[a]));
        }
    }
}

/// What trimming cuts away is whitespace alone: the characters before the
/// first non-space and from the last non-space end on are spaces.
pub proof fn lemma_trim_margins(s: Seq<char>)
    ensures
        forall|j: int| 0 <= j < first_non_space(s, 0) ==> is_space(#[trigger] s[j]),
        forall|j: int|
            last_non_space_end(s, s.len() as int) <= j < s.len() ==> is_space(#[trigger] s[j]),
{
    lemma_first_non_space_bounds(s, 0);
    lemma_last_non_space_bounds(s, s.len() as int);
}

/// A sequence of whitespace alone trims to the empty sequence.
pub proof fn lemma_trim_all_space(s: Seq<char>)
    requires
        forall|k: int| 0 <= k < s.len() ==> is_space(s[k]),
    ensures
        trim_spec(s).len() == 0,
{
    lemma_first_non_space_bounds(s, 0);
    let a = first_non_space(s, 0);
    if a < s.len() {
        assert(!is_space(s[a]));
    }
}

/// `s` with leading and trailing whitespace removed.
pub fn trim_str(s: &str) -> (r: String)
    ensures
        r@ == trim_spec(s@),
{
    let n = s.unicode_len();
    let mut a: usize = 0;
    while a < n && space_char(s.get_char(a))
        invariant
            a <= n,
            n == s@.len(),
            first_non_space(s@, 0) == first_non_space(s@, a as int),
        decreases n - a,
    {
        a = a + 1;
    }
    if a == n {
        proof {
            assert(first_non_space(s@, a as int) == s@.len());
        }
        String::new()
    } else {
        let mut b: usize = n;
        while b > 0 && space_char(s.get_char(b - 1))
            invariant
                0 <= b <= n,
                n == s@.len(),
                last_non_space_end(s@, n as int) == last_non_space_end(s@, b as int),
                forall|k: int| b <= k < n ==> is_space(s@[k]),
            decreases b,
        {
            b = b - 1;
        }
        proof {
            lemma_first_non_space_bounds(s@, 0);
            assert(first_non_space(s@, a as int) == a as int);
            if b <= a {
                assert(is_space(s@[a as int]));
            }
            assert(last_non_space_end(s@, b as int) == b as int);
        }
        s.substring_char(a, b).to_owned()
    }
}

/// Does `id` end in the markdown extension `.md`?
pub open spec fn is_markdown_name(id: Seq<char>) -> bool {
    id.len() >= 3 && id.subrange(id.len() - 3, id.len() as int) == seq!['.', 'm', 'd']
}

pub fn markdown_name(id: &str) -> (r: bool)
    ensures
        r == is_markdown_name(id@),
{
    let n = id.unicode_len();
    if n < 3 {
        return false;
    }
    let r = id.get_char(n - 3) == '.' && id.get_char(n - 2) == 'm' && id.get_char(n - 1) == 'd';
    proof {
        if r {
            assert(id@.subrange(id@.len() - 3, id@.len() as int) =~= seq!['.', 'm', 'd']);
        } else {
            if id@.subrange(id@.len() - 3, id@.len() as int) == seq!['.', 'm', 'd'] {
                assert(id@.subrange(id@.len() - 3, id@.len() as int)[0] == '.');
                assert(id@.subrange(id@.len() - 3, id@.len() as int)[1] == 'm');
                assert(id@.subrange(id@.len() - 3, id@.len() as int)[2] == 'd');
                assert(false);
            }
        }
    }
    r
}

} // verus!
