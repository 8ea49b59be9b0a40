//! Character classes, ASCII lowercasing, whitespace normalization and the
//! scanning primitives shared by the HTML and selector parsers.

use vstd::prelude::*;

verus! {

/// HTML whitespace: space, tab, line feed, carriage return, form feed.
pub open spec fn is_space(c: char) -> bool {
    c == ' ' || c == '\t' || c == '\n' || c == '\r' || c == '\u{0c}'
}

pub fn is_space_c(c: char) -> (b: bool)
    ensures
        b == is_space(c),
{
    c == ' ' || c == '\t' || c == '\n' || c == '\r' || c == '\u{0c}'
}

/// Characters accepted in tag names, attribute names and selector
/// identifiers: ASCII letters, digits, `-` and `_`.
pub open spec fn is_name_char(c: char) -> bool {
    ('a' <= c && c <= 'z') || ('A' <= c && c <= 'Z') || ('0' <= c && c <= '9') || c == '-' || c
        == '_'
}

pub fn is_name_char_c(c: char) -> (b: bool)
    ensures
        b == is_name_char(c),
{
    ('a' <= c && c <= 'z') || ('A' <= c && c <= 'Z') || ('0' <= c && c <= '9') || c == '-' || c
        == '_'
}

/// ASCII lowercasing of a single character; anything outside `A`..`Z` is kept.
pub open spec fn lower_char(c: char) -> char {
    match c {
        'A' => 'a',
        'B' => 'b',
        'C' => 'c',
        'D' => 'd',
        'E' => 'e',
        'F' => 'f',
        'G' => 'g',
        'H' => 'h',
        'I' => 'i',
        'J' => 'j',
        'K' => 'k',
        'L' => 'l',
        'M' => 'm',
        'N' => 'n',
        'O' => 'o',
        'P' => 'p',
        'Q' => 'q',
        'R' => 'r',
        'S' => 's',
        'T' => 't',
        'U' => 'u',
        'V' => 'v',
        'W' => 'w',
        'X' => 'x',
        'Y' => 'y',
        'Z' => 'z',
        _ => c,
    }
}

pub fn lower_char_c(c: char) -> (r: char)
    ensures
        r == lower_char(c),
{
    match c {
        'A' => 'a',
        'B' => 'b',
        'C' => 'c',
        'D' => 'd',
        'E' => 'e',
        'F' => 'f',
        'G' => 'g',
        'H' => 'h',
        'I' => 'i',
        'J' => 'j',
        'K' => 'k',
        'L' => 'l',
        'M' => 'm',
        'N' => 'n',
        'O' => 'o',
        'P' => 'p',
        'Q' => 'q',
        'R' => 'r',
        'S' => 's',
        'T' => 't',
        'U' => 'u',
        'V' => 'v',
        'W' => 'w',
        'X' => 'x',
        'Y' => 'y',
        'Z' => 'z',
        _ => c,
    }
}

pub open spec fn lower_seq(s: Seq<char>) -> Seq<char> {
    s.map_values(|c: char| lower_char(c))
}

pub fn lower_chars(v: &Vec<char>) -> (r: Vec<char>)
    ensures
        r@ == lower_seq(v@),
{
    let mut r: Vec<char> = Vec::new();
    let mut i: usize = 0;
    while i < v.len()
        invariant
            i <= v@.len(),
            r@ == lower_seq(v@.take(i as int)),
        decreases v@.len() - i,
    {
        r.push(lower_char_c(v[i]));
        proof {
            assert(v@.take(i + 1 as int).map_values(|c: char| lower_char(c)) =~= v@.take(
                i as int,
            ).map_values(|c: char| lower_char(c)).push(lower_char(v@[i as int])));
        }
        i = i + 1;
    }
    proof {
        assert(v@.take(v@.len() as int) =~= v@);
    }
    r
}

/// Element-wise equality of two character vectors.
pub fn chars_eq(a: &Vec<char>, b: &Vec<char>) -> (r: bool)
    ensures
        r == (a@ == b@),
{
    if a.len() != b.len() {
        return false;
    }
    let mut i: usize = 0;
    while i < a.len()
        invariant
            a@.len() == b@.len(),
            i <= a@.len(),
            forall|k: int| 0 <= k < i ==> a@[k] == b@[k],
        decreases a@.len() - i,
    {
        if a[i] != b[i] {
            return false;
        }
        i = i + 1;
    }
    proof {
        assert(a@ =~= b@);
    }
    true
}

/// Relies on `str::chars`: it yields the characters of the string in order.
#[verifier::external_body]
pub fn str_to_chars(s: &str) -> (r: Vec<char>)
    ensures
        r@ == s@,
{
    s.chars().collect()
}

/// Relies on `String`'s `FromIterator<char>`: collecting characters builds
/// the string of exactly those characters in order.
#[verifier::external_body]
pub fn chars_to_string(v: &Vec<char>) -> (r: String)
    ensures
        r@ == v@,
{
    v.iter().collect()
}

/// Whitespace normalization, one character at a time: `started` records that
/// some word character was already emitted, `pend` that a separating space is
/// owed before the next word character.
pub open spec fn norm_go(s: Seq<char>, i: int, started: bool, pend: bool) -> Seq<char>
    decreases s.len() - i,
{
    if i < 0 || i >= s.len() {
        Seq::empty()
    } else if is_space(s[i]) {
        norm_go(s, i + 1, started, started)
    } else if pend {
        seq![' ', s[i]] + norm_go(s, i + 1, true, false)
    } else {
        seq![s[i]] + norm_go(s, i + 1, true, false)
    }
}

/// Runs of whitespace collapse to one space; leading and trailing whitespace
/// is dropped.
pub open spec fn normalize_ws(s: Seq<char>) -> Seq<char> {
    norm_go(s, 0, false, false)
}

pub fn normalize_chars(v: &Vec<char>) -> (r: Vec<char>)
    ensures
        r@ == normalize_ws(v@),
{
    let mut r: Vec<char> = Vec::new();
    let mut i: usize = 0;
    let mut started: bool = false;
    let mut pend: bool = false;
    while i < v.len()
        invariant
            i <= v@.len(),
            r@ + norm_go(v@, i as int, started, pend) == normalize_ws(v@),
        decreases v@.len() - i,
    {
        let c = v[i];
        if is_space_c(c) {
            pend = started;
        } else if pend {
            proof {
                assert(r@ + norm_go(v@, i as int, started, pend) =~= (r@ + seq![' ', v@[i as int]])
                    + norm_go(v@, i + 1, true, false));
            }
            r.push(' ');
            r.push(c);
            started = true;
            pend = false;
        } else {
            proof {
                assert(r@ + norm_go(v@, i as int, started, pend) =~= (r@ + seq![v@[i as int]])
                    + norm_go(v@, i + 1, true, false));
            }
            r.push(c);
            started = true;
            pend = false;
        }
        i = i + 1;
    }
    proof {
        assert(r@ + norm_go(v@, i as int, started, pend) =~= r@);
    }
    r
}

/// Position of the first `<` at or after `i`, or the end of the input.
pub open spec fn text_end(s: Seq<char>, i: int) -> int
    decreases s.len() - i,
{
    if i < 0 || i >= s.len() {
        s.len() as int
    } else if s[i] == '<' {
        i
    } else {
        text_end(s, i + 1)
    }
}

pub fn text_end_c(v: &Vec<char>, i: usize) -> (r: usize)
    requires
        i <= v@.len(),
    ensures
        r == text_end(v@, i as int),
        i <= r <= v@.len(),
{
    let mut j: usize = i;
    while j < v.len()
        invariant
            i <= j <= v@.len(),
            text_end(v@, i as int) == text_end(v@, j as int),
        decreases v@.len() - j,
    {
        if v[j] == '<' {
            return j;
        }
        j = j + 1;
    }
    j
}

/// Position of the first character at or after `i` that is not a name
/// character.
pub open spec fn name_end(s: Seq<char>, i: int) -> int
    decreases s.len() - i,
{
    if i < 0 || i >= s.len() {
        s.len() as int
    } else if is_name_char(s[i]) {
        name_end(s, i + 1)
    } else {
        i
    }
}

pub fn name_end_c(v: &Vec<char>, i: usize) -> (r: usize)
    requires
        i <= v@.len(),
    ensures
        r == name_end(v@, i as int),
        i <= r <= v@.len(),
{
    let mut j: usize = i;
    while j < v.len()
        invariant
            i <= j <= v@.len(),
            name_end(v@, i as int) == name_end(v@, j as int),
        decreases v@.len() - j,
    {
        if !is_name_char_c(v[j]) {
            return j;
        }
        j = j + 1;
    }
    j
}

/// Position of the first non-whitespace character at or after `i`.
pub open spec fn ws_end(s: Seq<char>, i: int) -> int
    decreases s.len() - i,
{
    if i < 0 || i >= s.len() {
        s.len() as int
    } else if is_space(s[i]) {
        ws_end(s, i + 1)
    } else {
        i
    }
}

pub fn ws_end_c(v: &Vec<char>, i: usize) -> (r: usize)
    requires
        i <= v@.len(),
    ensures
        r == ws_end(v@, i as int),
        i <= r <= v@.len(),
{
    let mut j: usize = i;
    while j < v.len()
        invariant
            i <= j <= v@.len(),
            ws_end(v@, i as int) == ws_end(v@, j as int),
        decreases v@.len() - j,
    {
        if !is_space_c(v[j]) {
            return j;
        }
        j = j + 1;
    }
    j
}

/// Position of the first occurrence of `c` at or after `i`, or the end of the
/// input.
pub open spec fn char_end(s: Seq<char>, i: int, c: char) -> int
    decreases s.len() - i,
{
    if i < 0 || i >= s.len() {
        s.len() as int
    } else if s[i] == c {
        i
    } else {
        char_end(s, i + 1, c)
    }
}

pub fn char_end_c(v: &Vec<char>, i: usize, c: char) -> (r: usize)
    requires
        i <= v@.len(),
    ensures
        r == char_end(v@, i as int, c),
        i <= r <= v@.len(),
{
    let mut j: usize = i;
    while j < v.len()
        invariant
            i <= j <= v@.len(),
            char_end(v@, i as int, c) == char_end(v@, j as int, c),
        decreases v@.len() - j,
    {
        if v[j] == c {
            return j;
        }
        j = j + 1;
    }
    j
}

/// Position just past the first `-->` at or after `i`, or the end of the
/// input when no comment terminator remains.
pub open spec fn comment_end(s: Seq<char>, i: int) -> int
    decreases s.len() - i,
{
    if i < 0 || i + 3 > s.len() {
        s.len() as int
    } else if s[i] == '-' && s[i + 1] == '-' && s[i + 2] == '>' {
        i + 3
    } else {
        comment_end(s, i + 1)
    }
}

pub fn comment_end_c(v: &Vec<char>, i: usize) -> (r: usize)
    requires
        i <= v@.len(),
    ensures
        r == comment_end(v@, i as int),
        i <= r <= v@.len(),
{
    let mut j: usize = i;
    while v.len() >= 3 && j <= v.len() - 3
        invariant
            i <= j <= v@.len(),
            comment_end(v@, i as int) == comment_end(v@, j as int),
        decreases v@.len() - j,
    {
        if v[j] == '-' && v[j + 1] == '-' && v[j + 2] == '>' {
            return j + 3;
        }
        j = j + 1;
    }
    v.len()
}

/// Position of the first character at or after `i` that ends an unquoted
/// attribute value: whitespace or `>`.
pub open spec fn unquoted_end(s: Seq<char>, i: int) -> int
    decreases s.len() - i,
{
    if i < 0 || i >= s.len() {
        s.len() as int
    } else if is_space(s[i]) || s[i] == '>' {
        i
    } else {
        unquoted_end(s, i + 1)
    }
}

pub fn unquoted_end_c(v: &Vec<char>, i: usize) -> (r: usize)
    requires
        i <= v@.len(),
    ensures
        r == unquoted_end(v@, i as int),
        i <= r <= v@.len(),
{
    let mut j: usize = i;
    while j < v.len()
        invariant
            i <= j <= v@.len(),
            unquoted_end(v@, i as int) == unquoted_end(v@, j as int),
        decreases v@.len() - j,
    {
        if is_space_c(v[j]) || v[j] == '>' {
            return j;
        }
        j = j + 1;
    }
    j
}

/// Position of the first whitespace character at or after `i`, or the end of
/// the input: the end of a whitespace-separated word.
pub open spec fn word_end(s: Seq<char>, i: int) -> int
    decreases s.len() - i,
{
    if i < 0 || i >= s.len() {
        s.len() as int
    } else if is_space(s[i]) {
        i
    } else {
        word_end(s, i + 1)
    }
}

pub fn word_end_c(v: &Vec<char>, i: usize) -> (r: usize)
    requires
        i <= v@.len(),
    ensures
        r == word_end(v@, i as int),
        i <= r <= v@.len(),
{
    let mut j: usize = i;
    while j < v.len()
        invariant
            i <= j <= v@.len(),
            word_end(v@, i as int) == word_end(v@, j as int),
        decreases v@.len() - j,
    {
        if is_space_c(v[j]) {
            return j;
        }
        j = j + 1;
    }
    j
}

/// `x`, raised to `lo` when it falls short of it. The scanning functions
/// above always return positions at or past their starting point, but that
/// fact is not part of their definitions; clamping keeps recursion measures
/// decreasing without changing any value that actually occurs.
pub open spec fn at_least(x: int, lo: int) -> int {
    if x < lo {
        lo
    } else {
        x
    }
}

/// `x` clamped into `lo..=hi` (with `lo` winning when the bounds cross).
pub open spec fn clamp_pos(x: int, lo: int, hi: int) -> int {
    if x < lo {
        lo
    } else if x > hi {
        hi
    } else {
        x
    }
}

/// `ws_end` lands on the first non-whitespace position: everything before it
/// is whitespace, and it never passes the end.
pub proof fn lemma_ws_end_first(s: Seq<char>, i: int)
    requires
        0 <= i <= s.len(),
    ensures
        i <= ws_end(s, i) <= s.len(),
        forall|m: int| i <= m < ws_end(s, i) ==> is_space(s[m]),
    decreases s.len() - i,
{
    if i < s.len() && is_space(s[i]) {
        lemma_ws_end_first(s, i + 1);
    }
}

/// `name_end` lands on the first non-name position: everything before it is
/// a name character, and it never passes the end.
pub proof fn lemma_name_end_first(s: Seq<char>, i: int)
    requires
        0 <= i <= s.len(),
    ensures
        i <= name_end(s, i) <= s.len(),
        forall|m: int| i <= m < name_end(s, i) ==> is_name_char(s[m]),
    decreases s.len() - i,
{
    if i < s.len() && is_name_char(s[i]) {
        lemma_name_end_first(s, i + 1);
    }
}

/// `char_end` lands on the first occurrence of `c`, or on the end when none
/// remains.
pub proof fn lemma_char_end_first(s: Seq<char>, i: int, c: char)
    requires
        0 <= i <= s.len(),
    ensures
        i <= char_end(s, i, c) <= s.len(),
        char_end(s, i, c) < s.len() ==> s[char_end(s, i, c)] == c,
    decreases s.len() - i,
{
    if i < s.len() && s[i] != c {
        lemma_char_end_first(s, i + 1, c);
    }
}

pub fn clamp_c(x: usize, lo: usize, hi: usize) -> (r: usize)
    ensures
        r == clamp_pos(x as int, lo as int, hi as int),
{
    if x < lo {
        lo
    } else if x > hi {
        hi
    } else {
        x
    }
}

/// Copy of the characters of `v` from `i` (inclusive) to `j` (exclusive).
pub fn sub_chars(v: &Vec<char>, i: usize, j: usize) -> (r: Vec<char>)
    requires
        i <= j <= v@.len(),
    ensures
        r@ == v@.subrange(i as int, j as int),
{
    let mut r: Vec<char> = Vec::new();
    let mut k: usize = i;
    while k < j
        invariant
            i <= k <= j <= v@.len(),
            r@ == v@.subrange(i as int, k as int),
        decreases j - k,
    {
        r.push(v[k]);
        proof {
            assert(v@.subrange(i as int, k + 1 as int) =~= v@.subrange(i as int, k as int).push(
                v@[k as int],
            ));
        }
        k = k + 1;
    }
    r
}

} // verus!
