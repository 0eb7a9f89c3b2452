//! Line and character primitives shared by every rule: whitespace
//! classification, trimming, pattern search, line splitting, and the
//! rendering of diagnostic text.

use vstd::prelude::*;
use vstd::string::*;

verus! {

broadcast use vstd::string::group_string_axioms;

// ---------------------------------------------------------------------------
// Character classification
// ---------------------------------------------------------------------------

/// The characters with the Unicode `White_Space` property, the set that
/// `char::is_whitespace` recognises.
pub open spec fn is_space(c: char) -> bool {
    c == ' ' || c == '\t' || c == '\n' || c == '\u{b}' || c == '\u{c}' || c == '\r'
        || c == '\u{85}' || c == '\u{a0}' || c == '\u{1680}' || c == '\u{2000}'
        || c == '\u{2001}' || c == '\u{2002}' || c == '\u{2003}' || c == '\u{2004}'
        || c == '\u{2005}' || c == '\u{2006}' || c == '\u{2007}' || c == '\u{2008}'
        || c == '\u{2009}' || c == '\u{200a}' || c == '\u{2028}' || c == '\u{2029}'
        || c == '\u{202f}' || c == '\u{205f}' || c == '\u{3000}'
}

/// Runtime test for [`is_space`].
pub fn space(c: char) -> (b: bool)
    ensures
        b == is_space(c),
{
    c == ' ' || c == '\t' || c == '\n' || c == '\u{b}' || c == '\u{c}' || c == '\r'
        || c == '\u{85}' || c == '\u{a0}' || c == '\u{1680}' || c == '\u{2000}'
        || c == '\u{2001}' || c == '\u{2002}' || c == '\u{2003}' || c == '\u{2004}'
        || c == '\u{2005}' || c == '\u{2006}' || c == '\u{2007}' || c == '\u{2008}'
        || c == '\u{2009}' || c == '\u{200a}' || c == '\u{2028}' || c == '\u{2029}'
        || c == '\u{202f}' || c == '\u{205f}' || c == '\u{3000}'
}

// ---------------------------------------------------------------------------
// Trimming
// ---------------------------------------------------------------------------

/// Number of whitespace characters at the start of `s`.
pub open spec fn leading_spaces(s: Seq<char>) -> nat
    decreases s.len(),
{
    if s.len() == 0 || !is_space(s[0]) {
        0
    } else {
        1 + leading_spaces(s.drop_first())
    }
}

/// Number of whitespace characters at the end of `s`.
pub open spec fn trailing_spaces(s: Seq<char>) -> nat
    decreases s.len(),
{
    if s.len() == 0 || !is_space(s.last()) {
        0
    } else {
        1 + trailing_spaces(s.drop_last())
    }
}

/// `s` with its leading whitespace removed, as `str::trim_start` leaves it.
pub open spec fn trim_start(s: Seq<char>) -> Seq<char> {
    s.skip(leading_spaces(s) as int)
}

/// `s` with its trailing whitespace removed, as `str::trim_end` leaves it.
pub open spec fn trim_end(s: Seq<char>) -> Seq<char> {
    s.take(s.len() - trailing_spaces(s))
}

/// `s` trimmed on both sides.
pub open spec fn trim(s: Seq<char>) -> Seq<char> {
    trim_end(trim_start(s))
}

pub proof fn lemma_leading_spaces_bound(s: Seq<char>)
    ensures
        leading_spaces(s) <= s.len(),
        forall|j: int| 0 <= j < leading_spaces(s) ==> is_space(s[j]),
        leading_spaces(s) < s.len() ==> !is_space(s[leading_spaces(s) as int]),
    decreases s.len(),
{
    if s.len() != 0 && is_space(s[0]) {
        lemma_leading_spaces_bound(s.drop_first());
        assert forall|j: int| 0 <= j < leading_spaces(s) implies is_space(s[j]) by {
            if j >= 1 {
                assert(s.drop_first()[j - 1] == s[j]);
            }
        }
        if leading_spaces(s) < s.len() {
            assert(s.drop_first()[leading_spaces(s) - 1] == s[leading_spaces(s) as int]);
        }
    }
}

/// The leading-whitespace count is exactly the first non-whitespace position.
pub proof fn lemma_leading_spaces_at(s: Seq<char>, i: int)
    requires
        0 <= i <= s.len(),
        forall|j: int| 0 <= j < i ==> is_space(s[j]),
        i < s.len() ==> !is_space(s[i]),
    ensures
        leading_spaces(s) == i,
    decreases s.len(),
{
    if i == 0 {
    } else {
        assert(is_space(s[0]));
        assert(forall|j: int| 0 <= j < i - 1 ==> s.drop_first()[j] == s[j + 1]);
        lemma_leading_spaces_at(s.drop_first(), i - 1);
    }
}

pub proof fn lemma_trailing_spaces_bound(s: Seq<char>)
    ensures
        trailing_spaces(s) <= s.len(),
        forall|j: int| s.len() - trailing_spaces(s) <= j < s.len() ==> is_space(s[j]),
        trailing_spaces(s) < s.len() ==> !is_space(s[s.len() - trailing_spaces(s) - 1]),
    decreases s.len(),
{
    if s.len() != 0 && is_space(s.last()) {
        lemma_trailing_spaces_bound(s.drop_last());
        assert(forall|j: int| 0 <= j < s.drop_last().len() ==> s.drop_last()[j] == s[j]);
    }
}

/// The trailing-whitespace count is exactly the distance from the last
/// non-whitespace position to the end.
pub proof fn lemma_trailing_spaces_at(s: Seq<char>, i: int)
    requires
        0 <= i <= s.len(),
        forall|j: int| s.len() - i <= j < s.len() ==> is_space(s[j]),
        i < s.len() ==> !is_space(s[s.len() - i - 1]),
    ensures
        trailing_spaces(s) == i,
    decreases s.len(),
{
    if i == 0 {
    } else {
        assert(is_space(s.last()));
        assert(forall|j: int| 0 <= j < s.len() - 1 ==> s.drop_last()[j] == s[j]);
        lemma_trailing_spaces_at(s.drop_last(), i - 1);
    }
}

/// Leading-whitespace width of a line, computed by scanning.
pub fn leading(line: &Vec<char>) -> (n: usize)
    ensures
        n == leading_spaces(line@),
        n <= line@.len(),
{
    let mut i: usize = 0;
    while i < line.len() && space(line[i])
        invariant
            0 <= i <= line@.len(),
            forall|j: int| 0 <= j < i ==> is_space(line@[j]),
        decreases line@.len() - i,
    {
        i = i + 1;
    }
    proof {
        lemma_leading_spaces_at(line@, i as int);
    }
    i
}

/// Trailing-whitespace width of a line, computed by scanning.
pub fn trailing(line: &Vec<char>) -> (n: usize)
    ensures
        n == trailing_spaces(line@),
        n <= line@.len(),
{
    let mut i: usize = 0;
    while i < line.len() && space(line[line.len() - 1 - i])
        invariant
            0 <= i <= line@.len(),
            forall|j: int| line@.len() - i <= j < line@.len() ==> is_space(line@[j]),
        decreases line@.len() - i,
    {
        i = i + 1;
    }
    proof {
        lemma_trailing_spaces_at(line@, i as int);
    }
    i
}

// ---------------------------------------------------------------------------
// Pattern predicates
// ---------------------------------------------------------------------------

/// `p` is a prefix of `s`.
pub open spec fn begins(s: Seq<char>, p: Seq<char>) -> bool {
    p.len() <= s.len() && s.subrange(0, p.len() as int) == p
}

/// `p` is a suffix of `s`.
pub open spec fn ends(s: Seq<char>, p: Seq<char>) -> bool {
    p.len() <= s.len() && s.subrange(s.len() - p.len(), s.len() as int) == p
}

/// `p` occurs in `s` starting at position `i`.
pub open spec fn sub_at(s: Seq<char>, p: Seq<char>, i: int) -> bool {
    0 <= i && i + p.len() <= s.len() && s.subrange(i, i + p.len()) == p
}

/// `p` occurs somewhere in `s`.
pub open spec fn has_sub(s: Seq<char>, p: Seq<char>) -> bool {
    exists|i: int| sub_at(s, p, i)
}

/// The character `c` occurs in `s`.
pub open spec fn has_char(s: Seq<char>, c: char) -> bool {
    exists|i: int| 0 <= i < s.len() && s[i] == c
}

/// How many times the character `c` occurs in `s`.
pub open spec fn char_count(s: Seq<char>, c: char) -> nat
    decreases s.len(),
{
    if s.len() == 0 {
        0
    } else {
        (if s[0] == c { 1 as nat } else { 0 as nat }) + char_count(s.drop_first(), c)
    }
}

/// Index of the first occurrence of `c` in `s`, or `s.len()` if absent.
pub open spec fn first_char_at(s: Seq<char>, c: char) -> int
    decreases s.len(),
{
    if s.len() == 0 {
        0
    } else if s[0] == c {
        0
    } else {
        1 + first_char_at(s.drop_first(), c)
    }
}

pub proof fn lemma_first_char_at(s: Seq<char>, c: char)
    ensures
        0 <= first_char_at(s, c) <= s.len(),
        forall|j: int| 0 <= j < first_char_at(s, c) ==> s[j] != c,
        first_char_at(s, c) < s.len() ==> s[first_char_at(s, c)] == c,
        (first_char_at(s, c) < s.len()) == has_char(s, c),
    decreases s.len(),
{
    if s.len() != 0 && s[0] != c {
        lemma_first_char_at(s.drop_first(), c);
        assert forall|j: int| 0 <= j < first_char_at(s, c) implies s[j] != c by {
            if j >= 1 {
                assert(s.drop_first()[j - 1] == s[j]);
            }
        }
        if first_char_at(s, c) < s.len() {
            assert(s.drop_first()[first_char_at(s, c) - 1] == s[first_char_at(s, c)]);
        }
        if first_char_at(s, c) < s.len() {
            assert(has_char(s, c));
        }
        if has_char(s, c) {
            let w = choose|i: int| 0 <= i < s.len() && s[i] == c;
            assert(w >= 1);
            assert(s.drop_first()[w - 1] == c);
            assert(has_char(s.drop_first(), c));
        }
    } else {
        if s.len() != 0 && s[0] == c {
            assert(has_char(s, c));
        } else {
            assert(!has_char(s, c));
        }
    }
}

/// Does `c` occur in the line?
pub fn contains_char(line: &Vec<char>, c: char) -> (b: bool)
    ensures
        b == has_char(line@, c),
{
    let mut i: usize = 0;
    while i < line.len()
        invariant
            0 <= i <= line@.len(),
            forall|j: int| 0 <= j < i ==> line@[j] != c,
        decreases line@.len() - i,
    {
        if line[i] == c {
            return true;
        }
        i = i + 1;
    }
    false
}

/// Index of the first `c` in the line, or the line's length if absent.
pub fn find_char(line: &Vec<char>, c: char) -> (n: usize)
    ensures
        n == first_char_at(line@, c),
        n <= line@.len(),
        (n < line@.len()) == has_char(line@, c),
        n < line@.len() ==> line@[n as int] == c,
        forall|j: int| 0 <= j < n ==> line@[j] != c,
{
    proof {
        lemma_first_char_at(line@, c);
    }
    let mut i: usize = 0;
    while i < line.len()
        invariant
            0 <= i <= line@.len(),
            forall|j: int| 0 <= j < i ==> line@[j] != c,
        decreases line@.len() - i,
    {
        if line[i] == c {
            proof {
                lemma_first_char_at(line@, c);
            }
            return i;
        }
        i = i + 1;
    }
    i
}

/// How many times `c` occurs in the line.
pub fn count_char(line: &Vec<char>, c: char) -> (n: usize)
    ensures
        n == char_count(line@, c),
        n <= line@.len(),
{
    proof {
        lemma_char_count_take(line@, c, line@.len() as int);
        assert(line@.take(line@.len() as int) =~= line@);
    }
    let mut i: usize = 0;
    let mut n: usize = 0;
    while i < line.len()
        invariant
            0 <= i <= line@.len(),
            n == char_count(line@.take(i as int), c),
            n <= i,
        decreases line@.len() - i,
    {
        proof {
            lemma_char_count_step(line@, c, i as int);
        }
        if line[i] == c {
            n = n + 1;
        }
        i = i + 1;
    }
    proof {
        assert(line@.take(line@.len() as int) =~= line@);
    }
    n
}

pub proof fn lemma_char_count_take(s: Seq<char>, c: char, i: int)
    requires
        0 <= i <= s.len(),
    ensures
        char_count(s.take(i), c) <= i,
    decreases i,
{
    if i > 0 {
        lemma_char_count_step(s, c, i - 1);
        lemma_char_count_take(s, c, i - 1);
    }
}

/// Extending a prefix by one character adds that character's count.
pub proof fn lemma_char_count_step(s: Seq<char>, c: char, i: int)
    requires
        0 <= i < s.len(),
    ensures
        char_count(s.take(i + 1), c) == char_count(s.take(i), c) + (
        if s[i] == c {
            1 as int
        } else {
            0 as int
        }),
{
    lemma_char_count_append_one(s.take(i), s[i], c);
    assert(s.take(i).push(s[i]) =~= s.take(i + 1));
}

proof fn lemma_char_count_append_one(s: Seq<char>, x: char, c: char)
    ensures
        char_count(s.push(x), c) == char_count(s, c) + (
        if x == c {
            1 as int
        } else {
            0 as int
        }),
    decreases s.len(),
{
    if s.len() == 0 {
        assert(s.push(x)[0] == x);
        assert(s.push(x).drop_first() =~= Seq::<char>::empty());
        assert(char_count(s.push(x), c) == (if x == c {
            1 as int
        } else {
            0 as int
        }) + char_count(Seq::<char>::empty(), c));
    } else {
        assert(s.push(x).drop_first() =~= s.drop_first().push(x));
        assert(s.push(x)[0] == s[0]);
        lemma_char_count_append_one(s.drop_first(), x, c);
        assert(char_count(s.push(x), c) == (if s[0] == c {
            1 as int
        } else {
            0 as int
        }) + char_count(s.drop_first().push(x), c));
    }
}

/// A character occurs iff its count is positive.
pub proof fn lemma_char_count_pos(s: Seq<char>, c: char)
    ensures
        (char_count(s, c) > 0) == has_char(s, c),
    decreases s.len(),
{
    if s.len() == 0 {
        assert(!has_char(s, c));
    } else if s[0] == c {
        assert(has_char(s, c));
    } else {
        lemma_char_count_pos(s.drop_first(), c);
        if has_char(s, c) {
            let w = choose|i: int| 0 <= i < s.len() && s[i] == c;
            assert(s.drop_first()[w - 1] == c);
            assert(has_char(s.drop_first(), c));
        }
        if has_char(s.drop_first(), c) {
            let w = choose|i: int| 0 <= i < s.drop_first().len() && s.drop_first()[i] == c;
            assert(s[w + 1] == c);
            assert(has_char(s, c));
        }
    }
}

/// How many characters of `s` are not whitespace.
pub open spec fn nonspace_count(s: Seq<char>) -> nat
    decreases s.len(),
{
    if s.len() == 0 {
        0
    } else {
        (if !is_space(s[0]) {
            1 as nat
        } else {
            0 as nat
        }) + nonspace_count(s.drop_first())
    }
}

/// Extending a prefix by one character adds that character's count.
pub proof fn lemma_nonspace_count_step(s: Seq<char>, i: int)
    requires
        0 <= i < s.len(),
    ensures
        nonspace_count(s.take(i + 1)) == nonspace_count(s.take(i)) + (
        if !is_space(s[i]) {
            1 as int
        } else {
            0 as int
        }),
{
    lemma_nonspace_count_append_one(s.take(i), s[i]);
    assert(s.take(i).push(s[i]) =~= s.take(i + 1));
}

proof fn lemma_nonspace_count_append_one(s: Seq<char>, x: char)
    ensures
        nonspace_count(s.push(x)) == nonspace_count(s) + (
        if !is_space(x) {
            1 as int
        } else {
            0 as int
        }),
    decreases s.len(),
{
    if s.len() == 0 {
        assert(s.push(x)[0] == x);
        assert(s.push(x).drop_first() =~= Seq::<char>::empty());
        assert(nonspace_count(s.push(x)) == (if !is_space(x) {
            1 as int
        } else {
            0 as int
        }) + nonspace_count(Seq::<char>::empty()));
    } else {
        assert(s.push(x).drop_first() =~= s.drop_first().push(x));
        assert(s.push(x)[0] == s[0]);
        lemma_nonspace_count_append_one(s.drop_first(), x);
        assert(nonspace_count(s.push(x)) == (if !is_space(s[0]) {
            1 as int
        } else {
            0 as int
        }) + nonspace_count(s.drop_first().push(x)));
    }
}

/// How many characters of the line are not whitespace.
pub fn count_nonspace(line: &Vec<char>) -> (n: usize)
    ensures
        n == nonspace_count(line@),
        n <= line@.len(),
{
    let mut i: usize = 0;
    let mut n: usize = 0;
    while i < line.len()
        invariant
            0 <= i <= line@.len(),
            n == nonspace_count(line@.take(i as int)),
            n <= i,
        decreases line@.len() - i,
    {
        proof {
            lemma_nonspace_count_step(line@, i as int);
        }
        if !space(line[i]) {
            n = n + 1;
        }
        i = i + 1;
    }
    proof {
        assert(line@.take(line@.len() as int) =~= line@);
    }
    n
}

/// The part of `s` after its last `c`; all of `s` when `c` is absent.
pub open spec fn after_last(s: Seq<char>, c: char) -> Seq<char> {
    s.skip(last_char_at(s, c) + 1)
}

/// Copies the part of the line after its last `c`.
pub fn tail_after_last(line: &Vec<char>, c: char) -> (r: Vec<char>)
    ensures
        r@ == after_last(line@, c),
{
    proof {
        lemma_last_char_at(line@, c);
    }
    let n = line.len();
    let cut: usize = match rfind_char(line, c) {
        Some(k) => k + 1,
        None => 0,
    };
    let r = copy_range(line, cut, n);
    proof {
        assert(r@ =~= after_last(line@, c));
    }
    r
}

/// Does the line begin with the given characters?
pub fn begins_with_chars(line: &Vec<char>, pat: &Vec<char>) -> (b: bool)
    ensures
        b == begins(line@, pat@),
{
    if pat.len() > line.len() {
        return false;
    }
    let mut j: usize = 0;
    while j < pat.len()
        invariant
            0 <= j <= pat@.len(),
            pat@.len() <= line@.len(),
            forall|k: int| 0 <= k < j ==> line@[k] == pat@[k],
        decreases pat@.len() - j,
    {
        if line[j] != pat[j] {
            assert(line@.subrange(0, pat@.len() as int)[j as int] != pat@[j as int]);
            return false;
        }
        j = j + 1;
    }
    proof {
        assert(line@.subrange(0, pat@.len() as int) =~= pat@);
    }
    true
}

/// Does the pattern `p` begin at offset `from` of the line?
fn matches_at(line: &Vec<char>, from: usize, pat: &str) -> (b: bool)
    requires
        from <= line@.len(),
    ensures
        b == begins(line@.skip(from as int), pat@),
{
    let plen = pat.unicode_len();
    let llen = line.len();
    if plen > llen - from {
        return false;
    }
    let mut j: usize = 0;
    while j < plen
        invariant
            0 <= j <= plen,
            plen == pat@.len(),
            llen == line@.len(),
            from + plen <= llen,
            forall|k: int| 0 <= k < j ==> line@[from + k] == pat@[k],
        decreases plen - j,
    {
        if line[from + j] != pat.get_char(j) {
            assert(line@.skip(from as int).subrange(0, plen as int)[j as int] != pat@[j as int]);
            return false;
        }
        j = j + 1;
    }
    assert(line@.skip(from as int).subrange(0, plen as int) =~= pat@);
    true
}

/// Does the line begin with `pat`?
pub fn begins_with(line: &Vec<char>, pat: &str) -> (b: bool)
    ensures
        b == begins(line@, pat@),
{
    let b = matches_at(line, 0, pat);
    proof {
        assert(line@.skip(0) =~= line@);
    }
    b
}

/// Does the line, after left-trimming, begin with `pat`?
pub fn trimmed_begins_with(line: &Vec<char>, pat: &str) -> (b: bool)
    ensures
        b == begins(trim_start(line@), pat@),
{
    let lw = leading(line);
    matches_at(line, lw, pat)
}

/// Does the line end with `pat`?
pub fn ends_with(line: &Vec<char>, pat: &str) -> (b: bool)
    ensures
        b == ends(line@, pat@),
{
    let plen = pat.unicode_len();
    if plen > line.len() {
        return false;
    }
    let b = matches_at(line, line.len() - plen, pat);
    proof {
        let tail = line@.skip(line@.len() - plen);
        if begins(tail, pat@) {
            assert(tail.subrange(0, plen as int) =~= line@.subrange(
                line@.len() - plen,
                line@.len() as int,
            ));
        } else {
            if ends(line@, pat@) {
                assert(tail.subrange(0, plen as int) =~= line@.subrange(
                    line@.len() - plen,
                    line@.len() as int,
                ));
            }
        }
    }
    b
}

/// Does the line, after right-trimming, end with `pat`?
pub fn trim_end_ends_with(line: &Vec<char>, pat: &str) -> (b: bool)
    ensures
        b == ends(trim_end(line@), pat@),
{
    let tw = trailing(line);
    let end = line.len() - tw;
    let plen = pat.unicode_len();
    if plen > end {
        return false;
    }
    let b = matches_at(line, end - plen, pat);
    proof {
        let t = trim_end(line@);
        assert(t.len() == end);
        let tail = line@.skip(end - plen);
        assert(forall|k: int| 0 <= k < plen ==> tail[k] == t[t.len() - plen + k]);
        if begins(tail, pat@) {
            assert(t.subrange(t.len() - plen, t.len() as int) =~= tail.subrange(0, plen as int));
        } else {
            if ends(t, pat@) {
                assert(tail.subrange(0, plen as int) =~= t.subrange(t.len() - plen, t.len() as int));
            }
        }
    }
    b
}

/// Does `pat` occur anywhere in the line?
pub fn contains_sub(line: &Vec<char>, pat: &str) -> (b: bool)
    ensures
        b == has_sub(line@, pat@),
{
    let plen = pat.unicode_len();
    let llen = line.len();
    if plen > llen {
        proof {
            assert(forall|i: int| !sub_at(line@, pat@, i));
        }
        return false;
    }
    if plen == 0 {
        proof {
            assert(line@.subrange(0, 0) =~= pat@);
            assert(sub_at(line@, pat@, 0));
        }
        return true;
    }
    let mut i: usize = 0;
    while i <= llen - plen
        invariant
            0 <= i,
            1 <= plen <= llen,
            llen == line@.len(),
            plen == pat@.len(),
            i <= llen - plen + 1,
            forall|k: int| 0 <= k < i ==> !sub_at(line@, pat@, k),
        decreases llen - plen - i + 1,
    {
        if matches_at(line, i, pat) {
            proof {
                assert(line@.skip(i as int).subrange(0, plen as int) =~= line@.subrange(
                    i as int,
                    i + plen,
                ));
                assert(sub_at(line@, pat@, i as int));
            }
            return true;
        }
        proof {
            if sub_at(line@, pat@, i as int) {
                assert(line@.skip(i as int).subrange(0, plen as int) =~= line@.subrange(
                    i as int,
                    i + plen,
                ));
            }
        }
        i = i + 1;
    }
    proof {
        assert(forall|k: int| !sub_at(line@, pat@, k));
    }
    false
}

/// Index of the last occurrence of `c` in `s`, or `-1` if absent.
pub open spec fn last_char_at(s: Seq<char>, c: char) -> int
    decreases s.len(),
{
    if s.len() == 0 {
        -1
    } else if s.last() == c {
        s.len() - 1
    } else {
        last_char_at(s.drop_last(), c)
    }
}

pub proof fn lemma_last_char_at(s: Seq<char>, c: char)
    ensures
        -1 <= last_char_at(s, c) < s.len(),
        forall|j: int| last_char_at(s, c) < j < s.len() ==> s[j] != c,
        last_char_at(s, c) >= 0 ==> s[last_char_at(s, c)] == c,
        (last_char_at(s, c) >= 0) == has_char(s, c),
    decreases s.len(),
{
    if s.len() == 0 {
        assert(!has_char(s, c));
    } else if s.last() == c {
        assert(has_char(s, c));
    } else {
        lemma_last_char_at(s.drop_last(), c);
        assert(forall|j: int| 0 <= j < s.drop_last().len() ==> s.drop_last()[j] == s[j]);
        if has_char(s, c) {
            let w = choose|i: int| 0 <= i < s.len() && s[i] == c;
            assert(s.drop_last()[w] == c);
            assert(has_char(s.drop_last(), c));
        }
        if has_char(s.drop_last(), c) {
            let w = choose|i: int| 0 <= i < s.drop_last().len() && s.drop_last()[i] == c;
            assert(s[w] == c);
            assert(has_char(s, c));
        }
    }
}

/// Index of the last `c` in the line, or `None` if absent.
pub fn rfind_char(line: &Vec<char>, c: char) -> (r: Option<usize>)
    ensures
        match r {
            Some(k) => k == last_char_at(line@, c),
            None => last_char_at(line@, c) == -1,
        },
{
    proof {
        lemma_last_char_at(line@, c);
    }
    let mut i: usize = line.len();
    while i > 0
        invariant
            0 <= i <= line@.len(),
            forall|j: int| i <= j < line@.len() ==> line@[j] != c,
        decreases i,
    {
        i = i - 1;
        if line[i] == c {
            proof {
                lemma_last_char_at(line@, c);
                if last_char_at(line@, c) > i {
                    assert(line@[last_char_at(line@, c)] == c);
                }
            }
            return Some(i);
        }
    }
    proof {
        if last_char_at(line@, c) >= 0 {
            assert(line@[last_char_at(line@, c)] == c);
        }
    }
    None
}

// ---------------------------------------------------------------------------
// Slicing and comparing
// ---------------------------------------------------------------------------

/// Copies the characters of `line[a..b]`.
pub fn copy_range(line: &Vec<char>, a: usize, b: usize) -> (r: Vec<char>)
    requires
        a <= b <= line@.len(),
    ensures
        r@ == line@.subrange(a as int, b as int),
{
    let mut r: Vec<char> = Vec::new();
    let mut i: usize = a;
    while i < b
        invariant
            a <= i <= b <= line@.len(),
            r@ =~= line@.subrange(a as int, i as int),
        decreases b - i,
    {
        r.push(line[i]);
        proof {
            assert(r@ =~= line@.subrange(a as int, i + 1));
        }
        i = i + 1;
    }
    r
}

/// Character-wise equality of two lines.
pub fn chars_equal(a: &Vec<char>, b: &Vec<char>) -> (r: bool)
    ensures
        r == (a@ == b@),
{
    if a.len() != b.len() {
        return false;
    }
    let mut i: usize = 0;
    while i < a.len()
        invariant
            0 <= i <= a@.len(),
            a@.len() == b@.len(),
            forall|j: int| 0 <= j < i ==> a@[j] == b@[j],
        decreases a@.len() - i,
    {
        if a[i] != b[i] {
            return false;
        }
        i = i + 1;
    }
    proof {
        assert(a@ =~= b@);
    }
    true
}

// ---------------------------------------------------------------------------
// Splitting: lines, fields, words
// ---------------------------------------------------------------------------

/// A line-ending segment with one trailing carriage return removed.
pub open spec fn strip_cr(s: Seq<char>) -> Seq<char> {
    if s.len() > 0 && s.last() == '\r' {
        s.drop_last()
    } else {
        s
    }
}

/// The lines of a text, as `str::lines` yields them: split at `'\n'`, a
/// carriage return before the newline removed, and no final empty line for a
/// trailing newline.
pub open spec fn line_seq(s: Seq<char>) -> Seq<Seq<char>>
    decreases s.len(),
{
    if s.len() == 0 {
        Seq::empty()
    } else {
        let i = first_char_at(s, '\n');
        if 0 <= i < s.len() {
            seq![strip_cr(s.take(i))] + line_seq(s.skip(i + 1))
        } else {
            seq![s]
        }
    }
}

/// Like [`lemma_first_char_at`], pinning the first occurrence from a witness.
pub proof fn lemma_first_char_at_is(s: Seq<char>, c: char, k: int)
    requires
        0 <= k <= s.len(),
        forall|j: int| 0 <= j < k ==> s[j] != c,
        k < s.len() ==> s[k] == c,
    ensures
        first_char_at(s, c) == k,
    decreases s.len(),
{
    if k == 0 {
        if s.len() > 0 && s[0] != c {
            lemma_first_char_at(s, c);
        }
    } else {
        assert(forall|j: int| 0 <= j < s.drop_first().len() ==> s.drop_first()[j] == s[j + 1]);
        lemma_first_char_at_is(s.drop_first(), c, k - 1);
    }
}

/// Splits a file's text into its lines.
pub fn split_lines(s: &str) -> (r: Vec<Vec<char>>)
    ensures
        r.deep_view() == line_seq(s@),
        forall|k: int| 0 <= k < r.deep_view().len() ==> (#[trigger] r.deep_view()[k]).len()
            <= s@.len(),
{
    let v = str_chars(s);
    let n = v.len();
    let mut r: Vec<Vec<char>> = Vec::new();
    let mut start: usize = 0;
    let mut i: usize = 0;
    proof {
        assert(s@.skip(0) =~= s@);
        assert(r.deep_view() =~= Seq::<Seq<char>>::empty());
        assert(r.deep_view() + line_seq(s@) =~= line_seq(s@));
    }
    while i < n
        invariant
            0 <= start <= i <= n,
            n == v@.len(),
            v@ == s@,
            forall|j: int| start <= j < i ==> v@[j] != '\n',
            line_seq(s@) == r.deep_view() + line_seq(s@.skip(start as int)),
            forall|k: int| 0 <= k < r.deep_view().len() ==> (#[trigger] r.deep_view()[k]).len()
                <= s@.len(),
        decreases n - i,
    {
        if v[i] == '\n' {
            let mut end = i;
            if end > start && v[end - 1] == '\r' {
                end = end - 1;
            }
            let piece = copy_range(&v, start, end);
            proof {
                let tail = s@.skip(start as int);
                assert(forall|j: int| 0 <= j < tail.len() ==> tail[j] == s@[start + j]);
                lemma_first_char_at_is(tail, '\n', i - start);
                assert(strip_cr(tail.take(i - start)) =~= piece@) by {
                    assert(tail.take(i - start) =~= s@.subrange(start as int, i as int));
                    if i > start && s@[i - 1] == '\r' {
                        assert(tail.take(i - start).last() == '\r');
                        assert(tail.take(i - start).drop_last() =~= s@.subrange(
                            start as int,
                            i - 1,
                        ));
                    }
                }
                assert(tail.skip(i - start + 1) =~= s@.skip(i + 1));
                assert(line_seq(tail) == seq![piece@] + line_seq(s@.skip(i + 1)));
                assert(r.deep_view().push(piece@) =~= r.deep_view() + seq![piece@]);
                assert((r.deep_view() + seq![piece@]) + line_seq(s@.skip(i + 1)) =~= r.deep_view()
                    + (seq![piece@] + line_seq(s@.skip(i + 1))));
            }
            let ghost old_r = r.deep_view();
            r.push(piece);
            proof {
                assert(r.deep_view() =~~= old_r.push(piece@));
            }
            start = i + 1;
        }
        i = i + 1;
    }
    if start < n {
        let piece = copy_range(&v, start, n);
        proof {
            let tail = s@.skip(start as int);
            assert(forall|j: int| 0 <= j < tail.len() ==> tail[j] == s@[start + j]);
            lemma_first_char_at_is(tail, '\n', tail.len() as int);
            assert(piece@ =~= tail);
            assert(line_seq(tail) == seq![piece@]);
            assert(r.deep_view() + seq![piece@] =~= r.deep_view().push(piece@));
        }
        let ghost old_r = r.deep_view();
        r.push(piece);
        proof {
            assert(r.deep_view() =~~= old_r.push(piece@));
        }
    } else {
        proof {
            assert(s@.skip(start as int) =~= Seq::<char>::empty());
            assert(line_seq(s@) =~= r.deep_view());
        }
    }
    r
}

/// The fields of `s` split on the character `c`; always at least one field,
/// as `str::split` yields them.
pub open spec fn parts(s: Seq<char>, c: char) -> Seq<Seq<char>>
    decreases s.len(),
{
    let i = first_char_at(s, c);
    if 0 <= i < s.len() {
        seq![s.take(i)] + parts(s.skip(i + 1), c)
    } else {
        seq![s]
    }
}

/// Splits the line on every occurrence of `c`.
pub fn split_on(line: &Vec<char>, c: char) -> (r: Vec<Vec<char>>)
    ensures
        r.deep_view() == parts(line@, c),
        r@.len() >= 1,
{
    let n = line.len();
    let mut r: Vec<Vec<char>> = Vec::new();
    let mut start: usize = 0;
    let mut i: usize = 0;
    proof {
        assert(line@.skip(0) =~= line@);
        assert(r.deep_view() =~= Seq::<Seq<char>>::empty());
        assert(r.deep_view() + parts(line@, c) =~= parts(line@, c));
    }
    while i < n
        invariant
            0 <= start <= i <= n,
            n == line@.len(),
            forall|j: int| start <= j < i ==> line@[j] != c,
            parts(line@, c) == r.deep_view() + parts(line@.skip(start as int), c),
            r@.len() == r.deep_view().len(),
        decreases n - i,
    {
        if line[i] == c {
            let piece = copy_range(line, start, i);
            proof {
                let tail = line@.skip(start as int);
                assert(forall|j: int| 0 <= j < tail.len() ==> tail[j] == line@[start + j]);
                lemma_first_char_at_is(tail, c, i - start);
                assert(tail.take(i - start) =~= piece@);
                assert(tail.skip(i - start + 1) =~= line@.skip(i + 1));
                assert(parts(tail, c) == seq![piece@] + parts(line@.skip(i + 1), c));
                assert((r.deep_view() + seq![piece@]) + parts(line@.skip(i + 1), c)
                    =~= r.deep_view() + (seq![piece@] + parts(line@.skip(i + 1), c)));
            }
            let ghost old_r = r.deep_view();
            r.push(piece);
            proof {
                assert(r.deep_view() =~~= old_r.push(piece@));
                assert(r.deep_view() =~~= old_r + seq![piece@]);
            }
            start = i + 1;
        }
        i = i + 1;
    }
    let piece = copy_range(line, start, n);
    proof {
        let tail = line@.skip(start as int);
        assert(forall|j: int| 0 <= j < tail.len() ==> tail[j] == line@[start + j]);
        lemma_first_char_at_is(tail, c, tail.len() as int);
        assert(piece@ =~= tail);
        assert(parts(tail, c) == seq![tail]);
        assert(r.deep_view() + seq![piece@] =~= r.deep_view().push(piece@));
    }
    let ghost old_r = r.deep_view();
    r.push(piece);
    proof {
        assert(r.deep_view() =~~= old_r.push(piece@));
    }
    r
}

/// Length of the run of non-whitespace characters at the start of `s`.
pub open spec fn nonspace_run(s: Seq<char>) -> nat
    decreases s.len(),
{
    if s.len() == 0 || is_space(s[0]) {
        0
    } else {
        1 + nonspace_run(s.drop_first())
    }
}

pub proof fn lemma_nonspace_run_at(s: Seq<char>, i: int)
    requires
        0 <= i <= s.len(),
        forall|j: int| 0 <= j < i ==> !is_space(s[j]),
        i < s.len() ==> is_space(s[i]),
    ensures
        nonspace_run(s) == i,
    decreases s.len(),
{
    if i == 0 {
    } else {
        assert(forall|j: int| 0 <= j < s.drop_first().len() ==> s.drop_first()[j] == s[j + 1]);
        lemma_nonspace_run_at(s.drop_first(), i - 1);
    }
}

/// The whitespace-separated words of `s`, as `str::split_whitespace` yields
/// them.
pub open spec fn words(s: Seq<char>) -> Seq<Seq<char>>
    decreases s.len(),
{
    if s.len() == 0 {
        Seq::empty()
    } else if is_space(s[0]) {
        words(s.drop_first())
    } else {
        let k = nonspace_run(s);
        if 1 <= k <= s.len() {
            seq![s.take(k as int)] + words(s.skip(k as int))
        } else {
            Seq::empty()
        }
    }
}

/// Splits the line into its whitespace-separated words.
pub fn split_words(line: &Vec<char>) -> (r: Vec<Vec<char>>)
    ensures
        r.deep_view() == words(line@),
{
    let n = line.len();
    let mut r: Vec<Vec<char>> = Vec::new();
    let mut i: usize = 0;
    proof {
        assert(line@.skip(0) =~= line@);
        assert(r.deep_view() =~= Seq::<Seq<char>>::empty());
        assert(r.deep_view() + words(line@) =~= words(line@));
    }
    while i < n
        invariant
            0 <= i <= n,
            n == line@.len(),
            words(line@) == r.deep_view() + words(line@.skip(i as int)),
        decreases n - i,
    {
        if space(line[i]) {
            proof {
                let tail = line@.skip(i as int);
                assert(tail[0] == line@[i as int]);
                assert(tail.drop_first() =~= line@.skip(i + 1));
            }
            i = i + 1;
        } else {
            let mut j = i + 1;
            while j < n && !space(line[j])
                invariant
                    i < j <= n,
                    n == line@.len(),
                    forall|k: int| i <= k < j ==> !is_space(line@[k]),
                decreases n - j,
            {
                j = j + 1;
            }
            let piece = copy_range(line, i, j);
            proof {
                let tail = line@.skip(i as int);
                assert(forall|k: int| 0 <= k < tail.len() ==> tail[k] == line@[i + k]);
                lemma_nonspace_run_at(tail, j - i);
                assert(tail.take(j - i) =~= piece@);
                assert(tail.skip(j - i) =~= line@.skip(j as int));
                assert(words(tail) == seq![piece@] + words(line@.skip(j as int)));
                assert((r.deep_view() + seq![piece@]) + words(line@.skip(j as int))
                    =~= r.deep_view() + (seq![piece@] + words(line@.skip(j as int))));
            }
            let ghost old_r = r.deep_view();
            r.push(piece);
            proof {
                assert(r.deep_view() =~~= old_r.push(piece@));
                assert(r.deep_view() =~~= old_r + seq![piece@]);
            }
            i = j;
        }
    }
    proof {
        assert(line@.skip(n as int) =~= Seq::<char>::empty());
        assert(words(line@) =~= r.deep_view());
    }
    r
}

/// No word is longer than the line it came from.
pub proof fn lemma_words_bound(s: Seq<char>)
    ensures
        forall|k: int| 0 <= k < words(s).len() ==> (#[trigger] words(s)[k]).len() <= s.len(),
    decreases s.len(),
{
    if s.len() == 0 {
    } else if is_space(s[0]) {
        lemma_words_bound(s.drop_first());
        assert forall|k: int| 0 <= k < words(s).len() implies (#[trigger] words(s)[k]).len()
            <= s.len() by {
            assert(words(s)[k] == words(s.drop_first())[k]);
        }
    } else {
        let kk = nonspace_run(s);
        if 1 <= kk <= s.len() {
            lemma_words_bound(s.skip(kk as int));
            assert forall|k: int| 0 <= k < words(s).len() implies (#[trigger] words(s)[k]).len()
                <= s.len() by {
                if k == 0 {
                    assert(words(s)[0] == s.take(kk as int));
                } else {
                    assert(words(s)[k] == words(s.skip(kk as int))[k - 1]);
                }
            }
        }
    }
}

/// Copies the line trimmed on both sides.
pub fn trimmed_copy(line: &Vec<char>) -> (r: Vec<char>)
    ensures
        r@ == trim(line@),
{
    let lw = leading(line);
    let n = line.len();
    if lw == n {
        proof {
            assert(trim_start(line@).len() == 0);
            assert(trim(line@) =~= Seq::<char>::empty());
        }
        Vec::new()
    } else {
        let tw = trailing(line);
        proof {
            lemma_leading_spaces_bound(line@);
            lemma_trailing_spaces_bound(line@);
            let t = trim_start(line@);
            assert(forall|k: int| 0 <= k < t.len() ==> t[k] == line@[lw + k]);
            assert(!is_space(line@[lw as int]));
            if tw >= n - lw {
                assert(is_space(line@[lw as int]));
            }
            assert(forall|j: int| t.len() - tw <= j < t.len() ==> is_space(t[j]));
            assert(!is_space(t[t.len() - tw - 1]));
            lemma_trailing_spaces_at(t, tw as int);
            assert(trim(line@) =~= line@.subrange(lw as int, n - tw));
        }
        copy_range(line, lw, n - tw)
    }
}

/// The two lines joined.
pub fn concat_chars(a: &Vec<char>, b: &Vec<char>) -> (r: Vec<char>)
    ensures
        r@ == a@ + b@,
{
    let mut r = copy_range(a, 0, a.len());
    let mut i: usize = 0;
    proof {
        assert(r@ =~= a@);
    }
    while i < b.len()
        invariant
            0 <= i <= b@.len(),
            r@ =~= a@ + b@.take(i as int),
        decreases b@.len() - i,
    {
        r.push(b[i]);
        proof {
            assert(r@ =~= a@ + b@.take(i + 1));
        }
        i = i + 1;
    }
    proof {
        assert(b@.take(b@.len() as int) =~= b@);
    }
    r
}

/// `s` with every dot replaced by an underscore, as `str::replace(".", "_")`
/// leaves it.
pub open spec fn dots_to_underscores(s: Seq<char>) -> Seq<char> {
    s.map_values(
        |c: char|
            if c == '.' {
                '_'
            } else {
                c
            },
    )
}

/// Replaces every dot of the line by an underscore.
pub fn replace_dots(line: &Vec<char>) -> (r: Vec<char>)
    ensures
        r@ == dots_to_underscores(line@),
{
    let mut r: Vec<char> = Vec::new();
    let mut i: usize = 0;
    while i < line.len()
        invariant
            0 <= i <= line@.len(),
            r@ =~= dots_to_underscores(line@.take(i as int)),
        decreases line@.len() - i,
    {
        if line[i] == '.' {
            r.push('_');
        } else {
            r.push(line[i]);
        }
        proof {
            assert(r@ =~= dots_to_underscores(line@.take(i + 1)));
        }
        i = i + 1;
    }
    proof {
        assert(line@.take(line@.len() as int) =~= line@);
        assert(r@ =~= dots_to_underscores(line@));
    }
    r
}

// ---------------------------------------------------------------------------
// Removing a pattern's occurrences
// ---------------------------------------------------------------------------

/// Index of the first occurrence of `p` in `s`; `s.len()` if absent.
pub open spec fn first_sub_at(s: Seq<char>, p: Seq<char>) -> int
    decreases s.len(),
{
    if begins(s, p) {
        0
    } else if s.len() == 0 {
        0
    } else {
        1 + first_sub_at(s.drop_first(), p)
    }
}

/// `s` with every non-overlapping occurrence of `p` removed, left to right,
/// as `str::replace(p, "")` leaves it.
pub open spec fn remove_all(s: Seq<char>, p: Seq<char>) -> Seq<char>
    decreases s.len(),
{
    let i = first_sub_at(s, p);
    if 1 <= p.len() && 0 <= i && i + p.len() <= s.len() {
        s.take(i) + remove_all(s.skip(i + p.len()), p)
    } else {
        s
    }
}

pub proof fn lemma_first_sub_at(s: Seq<char>, p: Seq<char>)
    requires
        p.len() >= 1,
    ensures
        0 <= first_sub_at(s, p) <= s.len(),
        first_sub_at(s, p) + p.len() <= s.len() ==> begins(s.skip(first_sub_at(s, p)), p),
        first_sub_at(s, p) + p.len() > s.len() ==> first_sub_at(s, p) == s.len(),
    decreases s.len(),
{
    if begins(s, p) {
        assert(s.skip(0) =~= s);
    } else if s.len() > 0 {
        lemma_first_sub_at(s.drop_first(), p);
        assert(s.drop_first() =~= s.skip(1));
        let i = first_sub_at(s, p);
        if i + p.len() <= s.len() {
            assert(s.skip(1).skip(i - 1) =~= s.skip(i));
        }
    }
}

/// Removal steps over a non-matching head character.
pub proof fn lemma_remove_all_step(s: Seq<char>, p: Seq<char>)
    requires
        p.len() >= 1,
        s.len() > 0,
        !begins(s, p),
    ensures
        remove_all(s, p) == seq![s[0]] + remove_all(s.drop_first(), p),
{
    lemma_first_sub_at(s, p);
    lemma_first_sub_at(s.drop_first(), p);
    assert(s.drop_first() =~= s.skip(1));
    let i = first_sub_at(s, p);
    assert(i == 1 + first_sub_at(s.drop_first(), p));
    if i + p.len() <= s.len() {
        assert(s.take(i) =~= seq![s[0]] + s.drop_first().take(i - 1));
        assert(s.skip(i + p.len()) =~= s.drop_first().skip(i - 1 + p.len()));
        assert(remove_all(s, p) == s.take(i) + remove_all(s.skip(i + p.len()), p));
        assert((seq![s[0]] + s.drop_first().take(i - 1)) + remove_all(
            s.drop_first().skip(i - 1 + p.len()),
            p,
        ) =~= seq![s[0]] + (s.drop_first().take(i - 1) + remove_all(
            s.drop_first().skip(i - 1 + p.len()),
            p,
        )));
    } else {
        assert(remove_all(s, p) == s);
        assert(remove_all(s.drop_first(), p) == s.drop_first());
        assert(s =~= seq![s[0]] + s.drop_first());
    }
}

/// Removal consumes a match at the head.
pub proof fn lemma_remove_all_match(s: Seq<char>, p: Seq<char>)
    requires
        p.len() >= 1,
        begins(s, p),
    ensures
        remove_all(s, p) == remove_all(s.skip(p.len() as int), p),
{
    assert(first_sub_at(s, p) == 0);
    assert(s.take(0) =~= Seq::<char>::empty());
    assert(Seq::<char>::empty() + remove_all(s.skip(p.len() as int), p) =~= remove_all(
        s.skip(p.len() as int),
        p,
    ));
}

/// The line with every occurrence of `pat` removed.
pub fn remove_occurrences(line: &Vec<char>, pat: &str) -> (r: Vec<char>)
    requires
        pat@.len() >= 1,
    ensures
        r@ == remove_all(line@, pat@),
{
    let n = line.len();
    let plen = pat.unicode_len();
    let mut r: Vec<char> = Vec::new();
    let mut i: usize = 0;
    proof {
        assert(line@.skip(0) =~= line@);
        assert(r@ + remove_all(line@, pat@) =~= remove_all(line@, pat@));
    }
    while i < n
        invariant
            0 <= i <= n,
            n == line@.len(),
            plen == pat@.len(),
            plen >= 1,
            remove_all(line@, pat@) == r@ + remove_all(line@.skip(i as int), pat@),
        decreases n - i,
    {
        let ghost tail = line@.skip(i as int);
        if matches_at(line, i, pat) {
            proof {
                lemma_remove_all_match(tail, pat@);
                assert(tail.skip(plen as int) =~= line@.skip(i + plen));
            }
            i = i + plen;
        } else {
            proof {
                lemma_remove_all_step(tail, pat@);
                assert(tail[0] == line@[i as int]);
                assert(tail.drop_first() =~= line@.skip(i + 1));
                assert((r@ + seq![line@[i as int]]) + remove_all(line@.skip(i + 1), pat@)
                    =~= r@ + (seq![line@[i as int]] + remove_all(line@.skip(i + 1), pat@)));
            }
            let ghost old_r = r@;
            r.push(line[i]);
            proof {
                assert(r@ =~= old_r + seq![line@[i as int]]);
            }
            i = i + 1;
        }
    }
    proof {
        assert(line@.skip(n as int) =~= Seq::<char>::empty());
        assert(remove_all(line@, pat@) =~= r@);
    }
    r
}

// ---------------------------------------------------------------------------
// Trusted bridges to the standard library
// ---------------------------------------------------------------------------

/// The uppercase form that `str::to_uppercase` gives a character sequence.
pub uninterp spec fn upper_of(s: Seq<char>) -> Seq<char>;

/// Relies on str::to_uppercase: the result is a function of the characters
/// alone.
#[verifier::external_body]
pub(crate) fn to_upper(line: &Vec<char>) -> (r: Vec<char>)
    ensures
        r@ == upper_of(line@),
{
    let s: String = line.iter().collect();
    s.to_uppercase().chars().collect()
}

/// The lowercase form that `str::to_lowercase` gives a character sequence.
pub uninterp spec fn lower_of(s: Seq<char>) -> Seq<char>;

/// Relies on str::to_lowercase: the result is a function of the characters
/// alone.
#[verifier::external_body]
pub(crate) fn to_lower(line: &Vec<char>) -> (r: Vec<char>)
    ensures
        r@ == lower_of(line@),
{
    let s: String = line.iter().collect();
    s.to_lowercase().chars().collect()
}

/// Whether `char::is_numeric` accepts the character.
pub uninterp spec fn is_numeric_char(c: char) -> bool;

/// Relies on char::is_numeric: the answer is a function of the character
/// alone.
#[verifier::external_body]
pub(crate) fn numeric(c: char) -> (b: bool)
    ensures
        b == is_numeric_char(c),
{
    c.is_numeric()
}

/// Does the line hold a character that `char::is_numeric` accepts?
pub fn contains_numeric(line: &Vec<char>) -> (b: bool)
    ensures
        b == exists|i: int| 0 <= i < line@.len() && is_numeric_char(line@[i]),
{
    let mut i: usize = 0;
    while i < line.len()
        invariant
            0 <= i <= line@.len(),
            forall|j: int| 0 <= j < i ==> !is_numeric_char(line@[j]),
        decreases line@.len() - i,
    {
        if numeric(line[i]) {
            return true;
        }
        i = i + 1;
    }
    false
}

/// Relies on String's FromIterator<char> impl: collects exactly the given
/// characters, in order.
#[verifier::external_body]
pub(crate) fn chars_to_string(line: &Vec<char>) -> (s: String)
    ensures
        s@ == line@,
{
    line.iter().collect()
}

// ---------------------------------------------------------------------------
// Bridging &str to Vec<char>
// ---------------------------------------------------------------------------

/// The characters of `s`, one element per `char`.
pub fn str_chars(s: &str) -> (v: Vec<char>)
    ensures
        v@ == s@,
{
    let n = s.unicode_len();
    let mut v: Vec<char> = Vec::new();
    let mut i: usize = 0;
    while i < n
        invariant
            0 <= i <= n,
            n == s@.len(),
            v@ =~= s@.take(i as int),
        decreases n - i,
    {
        let c = s.get_char(i);
        v.push(c);
        proof {
            assert(v@ =~= s@.take(i + 1));
        }
        i = i + 1;
    }
    proof {
        assert(s@.take(n as int) =~= s@);
    }
    v
}

// ---------------------------------------------------------------------------
// Decimal rendering of line numbers and widths
// ---------------------------------------------------------------------------

/// The digit character for a value below ten.
pub open spec fn digit(d: nat) -> char {
    if d == 0 {
        '0'
    } else if d == 1 {
        '1'
    } else if d == 2 {
        '2'
    } else if d == 3 {
        '3'
    } else if d == 4 {
        '4'
    } else if d == 5 {
        '5'
    } else if d == 6 {
        '6'
    } else if d == 7 {
        '7'
    } else if d == 8 {
        '8'
    } else {
        '9'
    }
}

/// The decimal rendering of `n`, most significant digit first.
pub open spec fn decimal(n: nat) -> Seq<char>
    decreases n,
{
    if n < 10 {
        seq![digit(n)]
    } else {
        decimal(n / 10).push(digit(n % 10))
    }
}

/// The one-character string for a digit value.
fn digit_str(d: u128) -> (r: &'static str)
    requires
        d < 10,
    ensures
        r@ =~= seq![digit(d as nat)],
{
    proof {
        reveal_strlit("0");
        reveal_strlit("1");
        reveal_strlit("2");
        reveal_strlit("3");
        reveal_strlit("4");
        reveal_strlit("5");
        reveal_strlit("6");
        reveal_strlit("7");
        reveal_strlit("8");
        reveal_strlit("9");
    }
    if d == 0 {
        "0"
    } else if d == 1 {
        "1"
    } else if d == 2 {
        "2"
    } else if d == 3 {
        "3"
    } else if d == 4 {
        "4"
    } else if d == 5 {
        "5"
    } else if d == 6 {
        "6"
    } else if d == 7 {
        "7"
    } else if d == 8 {
        "8"
    } else {
        "9"
    }
}

/// Appends the decimal rendering of `n` to `out`.
pub fn append_decimal(out: &mut String, n: u128)
    ensures
        final(out)@ == old(out)@ + decimal(n as nat),
    decreases n,
{
    if n < 10 {
        out.append(digit_str(n));
        proof {
            assert(out@ =~= old(out)@ + decimal(n as nat));
        }
    } else {
        append_decimal(out, n / 10);
        out.append(digit_str(n % 10));
        proof {
            assert(out@ =~= old(out)@ + decimal(n as nat));
        }
    }
}

/// Product of two widths, capped at the machine's largest width so that an
/// absurdly deep nesting cannot wrap around.
pub open spec fn mulcap(a: nat, b: nat) -> nat {
    if a * b > usize::MAX as nat {
        usize::MAX as nat
    } else {
        a * b
    }
}

/// Capped multiplication of two widths.
pub fn mul_capped(a: usize, b: usize) -> (r: usize)
    ensures
        r as nat == mulcap(a as nat, b as nat),
{
    if b == 0 {
        return 0;
    }
    let q = usize::MAX / b;
    proof {
        vstd::arithmetic::div_mod::lemma_fundamental_div_mod(usize::MAX as int, b as int);
        vstd::arithmetic::div_mod::lemma_mod_bound(usize::MAX as int, b as int);
        assert((b as int) * (q as int) + (usize::MAX as int) % (b as int) == usize::MAX as int);
    }
    if a > q {
        proof {
            assert(a as int * b as int > usize::MAX as int) by (nonlinear_arith)
                requires
                    a as int >= q as int + 1,
                    b as int >= 1,
                    (b as int) * (q as int) + (usize::MAX as int) % (b as int) == usize::MAX as int,
                    (usize::MAX as int) % (b as int) < (b as int),
            ;
        }
        usize::MAX
    } else {
        proof {
            assert(a as int * b as int <= usize::MAX as int) by (nonlinear_arith)
                requires
                    0 <= a as int <= q as int,
                    b as int >= 1,
                    (b as int) * (q as int) + (usize::MAX as int) % (b as int) == usize::MAX as int,
                    (usize::MAX as int) % (b as int) >= 0,
            ;
        }
        a * b
    }
}

/// Sum of two counts, capped at the widest machine width so that an absurd
/// accumulation cannot wrap around.
pub open spec fn addcap(a: nat, b: nat) -> nat {
    if a + b > u128::MAX as nat {
        u128::MAX as nat
    } else {
        a + b
    }
}

/// Capped addition of two counts.
pub fn add_capped(a: u128, b: u128) -> (r: u128)
    ensures
        r as nat == addcap(a as nat, b as nat),
{
    if b > u128::MAX - a {
        u128::MAX
    } else {
        a + b
    }
}

/// Appends one diagnostic to the result sequence.
pub fn push_diag(r: &mut Vec<String>, m: String)
    ensures
        final(r).deep_view() == old(r).deep_view().push(m@),
{
    let ghost pre = r.deep_view();
    r.push(m);
    proof {
        assert(r.deep_view() =~~= pre.push(m@));
    }
}

/// The `[file:line]` prefix common to positioned diagnostics.
pub open spec fn loc(file: Seq<char>, ln: nat) -> Seq<char> {
    "["@ + file + ":"@ + decimal(ln) + "]"@
}

/// Builds the `[file:line]` prefix of a diagnostic.
pub fn diag_prefix(file: &str, ln: u128) -> (r: String)
    ensures
        r@ == loc(file@, ln as nat),
{
    let mut s = String::new();
    s.append("[");
    s.append(file);
    s.append(":");
    append_decimal(&mut s, ln);
    s.append("]");
    proof {
        assert(s@ =~= loc(file@, ln as nat));
    }
    s
}

/// The `[file]` prefix of diagnostics that carry no line number.
pub open spec fn loc_file(file: Seq<char>) -> Seq<char> {
    "["@ + file + "]"@
}

/// Builds the `[file]` prefix of a diagnostic.
pub fn diag_prefix_file(file: &str) -> (r: String)
    ensures
        r@ == loc_file(file@),
{
    let mut s = String::new();
    s.append("[");
    s.append(file);
    s.append("]");
    proof {
        assert(s@ =~= loc_file(file@));
    }
    s
}

} // verus!
