//! Searching, splitting and trimming of character and byte sequences.
//!
//! Each operation is a spec function on `Seq`, written by recursion on the
//! sequence, and an executable function on a slice whose contract is that spec
//! function.

use vstd::prelude::*;
use vstd::slice::slice_to_vec;

verus! {

/// `String::push` appends one character.
pub assume_specification[ String::push ](s: &mut String, ch: char)
    ensures
        final(s)@ == old(s)@.push(ch),
;

/// The characters of a string, in a vector.
pub fn chars_of(s: &str) -> (v: Vec<char>)
    ensures
        v@ == s@,
{
    let mut v: Vec<char> = Vec::new();
    for c in it: s.chars()
        invariant
            v@ == it.seq().take(it.index()),
    {
        v.push(c);
    }
    v
}

/// The string made of the given characters.
pub fn string_of(v: &[char]) -> (s: String)
    ensures
        s@ == v@,
{
    let mut s = String::new();
    let mut i: usize = 0;
    while i < v.len()
        invariant
            i <= v.len(),
            s@ == v@.take(i as int),
        decreases v.len() - i,
    {
        s.push(v[i]);
        i += 1;
    }
    s
}

/// What each vector of `v` holds.
pub open spec fn views(v: Seq<Vec<char>>) -> Seq<Seq<char>> {
    Seq::new(v.len(), |i: int| v[i]@)
}

/// Whether `pat` stands in `s` at index `i`.
pub open spec fn matches_at<T>(s: Seq<T>, pat: Seq<T>, i: int) -> bool {
    0 <= i && i + pat.len() <= s.len() && s.subrange(i, i + pat.len()) == pat
}

/// The index of the first place where `pat` stands in `s`.
pub open spec fn find<T>(s: Seq<T>, pat: Seq<T>) -> Option<int>
    decreases s.len(),
{
    if pat.len() == 0 {
        Some(0)
    } else if pat.len() > s.len() {
        None
    } else if matches_at(s, pat, 0) {
        Some(0)
    } else {
        match find(s.drop_first(), pat) {
            Some(i) => Some(i + 1),
            None => None,
        }
    }
}

/// Whether `pat` stands somewhere in `s`.
pub open spec fn contains<T>(s: Seq<T>, pat: Seq<T>) -> bool {
    find(s, pat) is Some
}

/// Whether `s` begins with `pat`.
pub open spec fn starts_with<T>(s: Seq<T>, pat: Seq<T>) -> bool {
    matches_at(s, pat, 0)
}

/// `find` returns a match, and no match stands before it; where it returns
/// `None` there is no match at all.
pub proof fn lemma_find<T>(s: Seq<T>, pat: Seq<T>)
    ensures
        match find(s, pat) {
            Some(i) => matches_at(s, pat, i) && forall|j: int| 0 <= j < i ==> !matches_at(s, pat, j),
            None => forall|j: int| !matches_at(s, pat, j),
        },
    decreases s.len(),
{
    if pat.len() == 0 {
        assert(s.subrange(0, 0) =~= pat);
    } else if pat.len() > s.len() {
    } else if matches_at(s, pat, 0) {
    } else {
        let t = s.drop_first();
        lemma_find(t, pat);
        assert forall|j: int| matches_at(s, pat, j + 1) == matches_at(t, pat, j) by {
            if 0 <= j && j + pat.len() <= t.len() {
                assert(t.subrange(j, j + pat.len()) =~= s.subrange(j + 1, j + 1 + pat.len()));
            }
        }
        match find(t, pat) {
            Some(i) => {
                assert(matches_at(s, pat, i + 1));
                assert forall|j: int| 0 <= j < i + 1 implies !matches_at(s, pat, j) by {
                    if j > 0 {
                        assert(!matches_at(t, pat, j - 1));
                        assert(matches_at(s, pat, (j - 1) + 1) == matches_at(t, pat, j - 1));
                    }
                }
            },
            None => {
                assert forall|j: int| !matches_at(s, pat, j) by {
                    if j > 0 {
                        assert(!matches_at(t, pat, j - 1));
                        assert(matches_at(s, pat, (j - 1) + 1) == matches_at(t, pat, j - 1));
                    }
                }
            },
        }
    }
}

/// A match with no match before it is what `find` returns.
pub proof fn lemma_find_unique<T>(s: Seq<T>, pat: Seq<T>, i: int)
    requires
        matches_at(s, pat, i),
        forall|j: int| 0 <= j < i ==> !matches_at(s, pat, j),
    ensures
        find(s, pat) == Some(i),
{
    lemma_find(s, pat);
    match find(s, pat) {
        Some(k) => {
            if k < i {
                assert(!matches_at(s, pat, k));
            } else if i < k {
                assert(!matches_at(s, pat, i));
            }
        },
        None => {
            assert(!matches_at(s, pat, i));
        },
    }
}

/// Where nothing matches, `find` returns `None`.
pub proof fn lemma_find_none<T>(s: Seq<T>, pat: Seq<T>)
    requires
        forall|j: int| !matches_at(s, pat, j),
    ensures
        find(s, pat) is None,
{
    lemma_find(s, pat);
    if let Some(k) = find(s, pat) {
        assert(!matches_at(s, pat, k));
    }
}

/// Whether two character slices hold the same characters.
pub fn chars_eq(a: &[char], b: &[char]) -> (r: bool)
    ensures
        r == (a@ == b@),
{
    if a.len() != b.len() {
        return false;
    }
    let mut i: usize = 0;
    while i < a.len()
        invariant
            i <= a.len(),
            a.len() == b.len(),
            a@.take(i as int) == b@.take(i as int),
        decreases a.len() - i,
    {
        if a[i] != b[i] {
            return false;
        }
        assert(a@.take(i + 1) =~= a@.take(i as int).push(a@[i as int]));
        assert(b@.take(i + 1) =~= b@.take(i as int).push(b@[i as int]));
        i += 1;
    }
    assert(a@ =~= a@.take(a.len() as int));
    assert(b@ =~= b@.take(b.len() as int));
    true
}

/// Whether two strings hold the same characters.
pub fn str_eq(a: &str, b: &str) -> (r: bool)
    ensures
        r == (a@ == b@),
{
    let x = chars_of(a);
    let y = chars_of(b);
    chars_eq(x.as_slice(), y.as_slice())
}

/// Whether `pat` stands in `s` at index `i`, for characters.
pub fn chars_match_at(s: &[char], pat: &[char], i: usize) -> (r: bool)
    ensures
        r == matches_at(s@, pat@, i as int),
{
    if pat.len() > s.len() || i > s.len() - pat.len() {
        return false;
    }
    let mut k: usize = 0;
    while k < pat.len()
        invariant
            k <= pat.len(),
            i + pat.len() <= s.len(),
            s@.subrange(i as int, i + k) == pat@.take(k as int),
        decreases pat.len() - k,
    {
        if s[i + k] != pat[k] {
            assert(s@.subrange(i as int, i + pat.len())[k as int] != pat@[k as int]);
            return false;
        }
        assert(s@.subrange(i as int, i + k + 1) =~= s@.subrange(i as int, i + k).push(
            s@[i + k],
        ));
        assert(pat@.take(k + 1) =~= pat@.take(k as int).push(pat@[k as int]));
        k += 1;
    }
    assert(pat@ =~= pat@.take(pat.len() as int));
    true
}

/// Whether `pat` stands in `s` at index `i`, for bytes.
pub fn bytes_match_at(s: &[u8], pat: &[u8], i: usize) -> (r: bool)
    ensures
        r == matches_at(s@, pat@, i as int),
{
    if pat.len() > s.len() || i > s.len() - pat.len() {
        return false;
    }
    let mut k: usize = 0;
    while k < pat.len()
        invariant
            k <= pat.len(),
            i + pat.len() <= s.len(),
            s@.subrange(i as int, i + k) == pat@.take(k as int),
        decreases pat.len() - k,
    {
        if s[i + k] != pat[k] {
            assert(s@.subrange(i as int, i + pat.len())[k as int] != pat@[k as int]);
            return false;
        }
        assert(s@.subrange(i as int, i + k + 1) =~= s@.subrange(i as int, i + k).push(
            s@[i + k],
        ));
        assert(pat@.take(k + 1) =~= pat@.take(k as int).push(pat@[k as int]));
        k += 1;
    }
    assert(pat@ =~= pat@.take(pat.len() as int));
    true
}

/// The first place where `pat` stands in `s`, for characters.
pub fn find_chars(s: &[char], pat: &[char]) -> (r: Option<usize>)
    ensures
        r is Some == find(s@, pat@) is Some,
        r matches Some(i) ==> find(s@, pat@) == Some(i as int),
{
    if pat.len() > s.len() {
        proof {
            assert forall|j: int| !matches_at(s@, pat@, j) by {}
            lemma_find_none(s@, pat@);
        }
        return None;
    }
    let last: usize = s.len() - pat.len();
    let mut i: usize = 0;
    while i < last
        invariant
            i <= last,
            last == s.len() - pat.len(),
            forall|j: int| 0 <= j < i ==> !matches_at(s@, pat@, j),
        decreases last - i,
    {
        if chars_match_at(s, pat, i) {
            proof {
                lemma_find_unique(s@, pat@, i as int);
            }
            return Some(i);
        }
        i += 1;
    }
    if chars_match_at(s, pat, last) {
        proof {
            lemma_find_unique(s@, pat@, last as int);
        }
        return Some(last);
    }
    proof {
        assert forall|j: int| !matches_at(s@, pat@, j) by {}
        lemma_find_none(s@, pat@);
    }
    None
}

/// The first place where `pat` stands in `s`, for bytes.
pub fn find_bytes(s: &[u8], pat: &[u8]) -> (r: Option<usize>)
    ensures
        r is Some == find(s@, pat@) is Some,
        r matches Some(i) ==> find(s@, pat@) == Some(i as int),
{
    if pat.len() > s.len() {
        proof {
            assert forall|j: int| !matches_at(s@, pat@, j) by {}
            lemma_find_none(s@, pat@);
        }
        return None;
    }
    let last: usize = s.len() - pat.len();
    let mut i: usize = 0;
    while i < last
        invariant
            i <= last,
            last == s.len() - pat.len(),
            forall|j: int| 0 <= j < i ==> !matches_at(s@, pat@, j),
        decreases last - i,
    {
        if bytes_match_at(s, pat, i) {
            proof {
                lemma_find_unique(s@, pat@, i as int);
            }
            return Some(i);
        }
        i += 1;
    }
    if bytes_match_at(s, pat, last) {
        proof {
            lemma_find_unique(s@, pat@, last as int);
        }
        return Some(last);
    }
    proof {
        assert forall|j: int| !matches_at(s@, pat@, j) by {}
        lemma_find_none(s@, pat@);
    }
    None
}

/// Whether `c` has the Unicode property White_Space.
pub open spec fn is_whitespace(c: char) -> bool {
    let n = c as u32;
    ||| 0x09 <= n <= 0x0D
    ||| n == 0x20
    ||| n == 0x85
    ||| n == 0xA0
    ||| n == 0x1680
    ||| 0x2000 <= n <= 0x200A
    ||| n == 0x2028
    ||| n == 0x2029
    ||| n == 0x202F
    ||| n == 0x205F
    ||| n == 0x3000
}

/// Whether `c` has the Unicode property White_Space.
pub fn is_space(c: char) -> (r: bool)
    ensures
        r == is_whitespace(c),
{
    let n: u32 = c as u32;
    (0x09 <= n && n <= 0x0D) || n == 0x20 || n == 0x85 || n == 0xA0 || n == 0x1680 || (0x2000 <= n
        && n <= 0x200A) || n == 0x2028 || n == 0x2029 || n == 0x202F || n == 0x205F || n == 0x3000
}

/// `s` without its leading whitespace.
pub open spec fn trim_start(s: Seq<char>) -> Seq<char>
    decreases s.len(),
{
    if s.len() > 0 && is_whitespace(s[0]) {
        trim_start(s.drop_first())
    } else {
        s
    }
}

/// `s` without its trailing whitespace.
pub open spec fn trim_end(s: Seq<char>) -> Seq<char>
    decreases s.len(),
{
    if s.len() > 0 && is_whitespace(s.last()) {
        trim_end(s.drop_last())
    } else {
        s
    }
}

/// `s` without its leading and trailing whitespace.
pub open spec fn trim(s: Seq<char>) -> Seq<char> {
    trim_end(trim_start(s))
}

/// The slice of `s` that is left when leading and trailing whitespace goes.
pub fn trim_chars(s: &[char]) -> (r: &[char])
    ensures
        r@ == trim(s@),
{
    let n: usize = s.len();
    let mut a: usize = 0;
    assert(s@.skip(0) =~= s@);
    while a < n && is_space(s[a])
        invariant
            a <= n,
            n == s.len(),
            trim_start(s@) == trim_start(s@.skip(a as int)),
        decreases n - a,
    {
        assert(s@.skip(a as int).drop_first() =~= s@.skip(a + 1));
        a += 1;
    }
    let mut b: usize = n;
    while b > a && is_space(s[b - 1])
        invariant
            a <= b <= n,
            n == s.len(),
            trim_end(s@.skip(a as int)) == trim_end(s@.subrange(a as int, b as int)),
        decreases b,
    {
        assert(s@.subrange(a as int, b as int).drop_last() =~= s@.subrange(a as int, b - 1));
        b -= 1;
    }
    proof {
        assert(s@.skip(a as int) =~= s@.subrange(a as int, n as int));
    }
    &s[a..b]
}

/// The index of the first `c` in `s`, or the length of `s` where there is none.
pub open spec fn position(s: Seq<char>, c: char) -> nat
    decreases s.len(),
{
    if s.len() == 0 || s[0] == c {
        0
    } else {
        1 + position(s.drop_first(), c)
    }
}

/// `position` stays within the sequence, points at a `c` where it points at
/// anything, and passes over no `c`.
pub proof fn lemma_position(s: Seq<char>, c: char)
    ensures
        position(s, c) <= s.len(),
        position(s, c) < s.len() ==> s[position(s, c) as int] == c,
        forall|j: int| 0 <= j < position(s, c) ==> s[j] != c,
    decreases s.len(),
{
    if s.len() == 0 || s[0] == c {
    } else {
        let t = s.drop_first();
        lemma_position(t, c);
        assert forall|j: int| 0 <= j < position(s, c) implies s[j] != c by {
            if j > 0 {
                assert(s[j] == t[j - 1]);
            }
        }
    }
}

/// The index of the first `c` in `s`, or the length of `s` where there is none.
pub fn position_of(s: &[char], c: char) -> (r: usize)
    ensures
        r == position(s@, c),
{
    let mut i: usize = 0;
    assert(s@.skip(0) =~= s@);
    while i < s.len() && s[i] != c
        invariant
            i <= s.len(),
            position(s@, c) == i + position(s@.skip(i as int), c),
        decreases s.len() - i,
    {
        assert(s@.skip(i as int).drop_first() =~= s@.skip(i + 1));
        i += 1;
    }
    i
}

/// A line without the carriage return that ended it, if one did.
pub open spec fn strip_cr(s: Seq<char>) -> Seq<char> {
    if s.len() > 0 && s.last() == '\r' {
        s.drop_last()
    } else {
        s
    }
}

/// The lines of `s`. A line ends at a line feed, or at the end of `s`; a
/// carriage return just before the line feed belongs to the line ending. After
/// the last line feed no empty line follows.
pub open spec fn lines(s: Seq<char>) -> Seq<Seq<char>>
    decreases s.len(),
{
    if s.len() == 0 {
        Seq::empty()
    } else {
        let n = position(s, '\n');
        if n >= s.len() {
            seq![s]
        } else {
            seq![strip_cr(s.take(n as int))] + lines(s.skip(n as int + 1))
        }
    }
}

/// The lines of `s`.
pub fn lines_of(s: &[char]) -> (out: Vec<Vec<char>>)
    ensures
        views(out@) == lines(s@),
{
    let n: usize = s.len();
    let mut out: Vec<Vec<char>> = Vec::new();
    let mut start: usize = 0;
    assert(s@.skip(0) =~= s@);
    assert(views(out@) =~= Seq::<Seq<char>>::empty());
    while start < n
        invariant
            start <= n,
            n == s.len(),
            lines(s@) == views(out@) + lines(s@.skip(start as int)),
        decreases n - start,
    {
        let rest: &[char] = &s[start..n];
        assert(rest@ =~= s@.skip(start as int));
        let k: usize = position_of(rest, '\n');
        proof {
            lemma_position(rest@, '\n');
        }
        let ghost before = views(out@);
        if k >= rest.len() {
            out.push(slice_to_vec(rest));
            assert(views(out@) =~= before + seq![rest@]);
            assert(s@.skip(n as int) =~= Seq::<char>::empty());
            assert(lines(s@.skip(n as int)) =~= Seq::<Seq<char>>::empty());
            start = n;
        } else {
            let end: usize = if k > 0 && rest[k - 1] == '\r' {
                k - 1
            } else {
                k
            };
            let line: &[char] = &rest[0..end];
            assert(line@ =~= strip_cr(rest@.take(k as int)));
            out.push(slice_to_vec(line));
            assert(views(out@) =~= before + seq![line@]);
            assert(rest@.skip(k + 1) =~= s@.skip(start + k + 1));
            start = start + k + 1;
        }
    }
    proof {
        assert(s@.skip(n as int) =~= Seq::<char>::empty());
    }
    out
}

/// The words of `s` after the word `cur` that is being read.
pub open spec fn words_from(s: Seq<char>, cur: Seq<char>) -> Seq<Seq<char>>
    decreases s.len(),
{
    let done = if cur.len() > 0 {
        seq![cur]
    } else {
        Seq::empty()
    };
    if s.len() == 0 {
        done
    } else if is_whitespace(s[0]) {
        done + words_from(s.drop_first(), Seq::empty())
    } else {
        words_from(s.drop_first(), cur.push(s[0]))
    }
}

/// The words of `s`: its longest runs of characters that are not whitespace.
pub open spec fn words(s: Seq<char>) -> Seq<Seq<char>> {
    words_from(s, Seq::empty())
}

/// The words of `s`.
pub fn words_of(s: &[char]) -> (out: Vec<Vec<char>>)
    ensures
        views(out@) == words(s@),
{
    let n: usize = s.len();
    let mut out: Vec<Vec<char>> = Vec::new();
    let mut cur: Vec<char> = Vec::new();
    let mut i: usize = 0;
    assert(s@.skip(0) =~= s@);
    assert(views(out@) =~= Seq::<Seq<char>>::empty());
    while i < n
        invariant
            i <= n,
            n == s.len(),
            words(s@) == views(out@) + words_from(s@.skip(i as int), cur@),
        decreases n - i,
    {
        let c: char = s[i];
        let ghost before = views(out@);
        let ghost rest = words_from(s@.skip(i + 1), Seq::empty());
        let ghost tail = s@.skip(i as int);
        let ghost word = cur@;
        assert(tail.drop_first() =~= s@.skip(i + 1));
        assert(tail.len() > 0 && tail[0] == c);
        if is_space(c) {
            if cur.len() > 0 {
                assert(words_from(tail, word) == seq![word] + rest);
                out.push(cur);
                assert(views(out@) =~= before + seq![word]);
                assert(before + (seq![word] + rest) =~= (before + seq![word]) + rest);
                cur = Vec::new();
            } else {
                assert(word =~= Seq::<char>::empty());
                assert(Seq::<Seq<char>>::empty() + rest =~= rest);
            }
        } else {
            assert(words_from(tail, word) == words_from(s@.skip(i + 1), word.push(c)));
            cur.push(c);
        }
        i += 1;
    }
    let ghost before = views(out@);
    if cur.len() > 0 {
        out.push(cur);
        assert(views(out@) =~= before + seq![cur@]);
    }
    out
}

/// An ASCII capital as its small letter; any other character as it is.
pub open spec fn lower(c: char) -> char {
    if 'A' <= c <= 'Z' {
        ((c as u8) + 32) as u8 as char
    } else {
        c
    }
}

/// `s` with each ASCII capital as its small letter.
pub open spec fn to_lower(s: Seq<char>) -> Seq<char> {
    Seq::new(s.len(), |i: int| lower(s[i]))
}

/// `s` with each ASCII capital as its small letter.
pub fn lowercase(s: &[char]) -> (out: Vec<char>)
    ensures
        out@ == to_lower(s@),
{
    let mut out: Vec<char> = Vec::new();
    let mut i: usize = 0;
    while i < s.len()
        invariant
            i <= s.len(),
            out@ == to_lower(s@.take(i as int)),
        decreases s.len() - i,
    {
        let c: char = s[i];
        let l: char = if 'A' <= c && c <= 'Z' {
            ((c as u8) + 32u8) as char
        } else {
            c
        };
        out.push(l);
        assert(out@ =~= to_lower(s@.take(i + 1)));
        i += 1;
    }
    assert(s@.take(s.len() as int) =~= s@);
    out
}

/// The character of a decimal digit.
pub open spec fn digit(d: nat) -> char
    recommends
        d < 10,
{
    (48 + d) as u8 as char
}

/// `n` in decimal, without leading zeros.
pub open spec fn decimal(n: nat) -> Seq<char>
    decreases n,
{
    if n < 10 {
        seq![digit(n)]
    } else {
        decimal(n / 10).push(digit(n % 10))
    }
}

/// Appends `n` in decimal to `out`.
pub fn push_decimal(out: &mut Vec<char>, n: u64)
    ensures
        final(out)@ == old(out)@ + decimal(n as nat),
    decreases n,
{
    if n >= 10 {
        push_decimal(out, n / 10);
    }
    let d: u8 = (n % 10) as u8;
    out.push((48u8 + d) as char);
    assert(final(out)@ =~= old(out)@ + decimal(n as nat));
}

/// Appends the characters of `part` to `out`.
pub fn push_chars(out: &mut Vec<char>, part: &[char])
    ensures
        final(out)@ == old(out)@ + part@,
{
    let mut i: usize = 0;
    while i < part.len()
        invariant
            i <= part.len(),
            out@ == old(out)@ + part@.take(i as int),
        decreases part.len() - i,
    {
        out.push(part[i]);
        assert(part@.take(i + 1) =~= part@.take(i as int).push(part@[i as int]));
        i += 1;
    }
    assert(part@.take(part.len() as int) =~= part@);
}

/// Appends the characters of the string `part` to `out`.
pub fn push_str(out: &mut Vec<char>, part: &str)
    ensures
        final(out)@ == old(out)@ + part@,
{
    for c in it: part.chars()
        invariant
            out@ == old(out)@ + it.seq().take(it.index()),
    {
        out.push(c);
        assert(it.seq().take(it.index() + 1) =~= it.seq().take(it.index()).push(c));
    }
}

/// The line ending of the wire format: carriage return, line feed.
pub open spec fn crlf() -> Seq<char> {
    seq!['\r', '\n']
}

/// What stands between a field's name and its value: a colon and a space.
pub open spec fn colon_space() -> Seq<char> {
    seq![':', ' ']
}

/// `s` before and after the first place where `sep` stands in it.
pub open spec fn split_once(s: Seq<char>, sep: Seq<char>) -> Option<(Seq<char>, Seq<char>)> {
    match find(s, sep) {
        Some(i) => Some((s.take(i), s.skip(i + sep.len()))),
        None => None,
    }
}

/// `s` before and after the first place where `sep` stands in it.
pub fn split_once_chars<'a>(s: &'a [char], sep: &[char]) -> (r: Option<(&'a [char], &'a [char])>)
    ensures
        match r {
            Some((before, after)) => split_once(s@, sep@) == Some((before@, after@)),
            None => split_once(s@, sep@) is None,
        },
{
    match find_chars(s, sep) {
        Some(i) => {
            proof {
                lemma_find(s@, sep@);
                assert(matches_at(s@, sep@, i as int));
            }
            let n: usize = s.len();
            let m: usize = sep.len();
            let before: &[char] = &s[0..i];
            let after: &[char] = &s[i + m..n];
            assert(before@ =~= s@.take(i as int));
            assert(after@ =~= s@.skip(i + sep.len()));
            Some((before, after))
        },
        None => None,
    }
}

/// The lines, each but the first after a separator.
pub open spec fn join(lines: Seq<Seq<char>>, sep: Seq<char>) -> Seq<char>
    decreases lines.len(),
{
    if lines.len() == 0 {
        Seq::empty()
    } else if lines.len() == 1 {
        lines[0]
    } else {
        join(lines.drop_last(), sep) + sep + lines.last()
    }
}

/// What one more line adds to a joined text.
pub proof fn lemma_join_push(lines: Seq<Seq<char>>, line: Seq<char>, sep: Seq<char>)
    ensures
        join(lines.push(line), sep) == if lines.len() == 0 {
            line
        } else {
            join(lines, sep) + sep + line
        },
{
    assert(lines.push(line).drop_last() =~= lines);
}

/// The pieces of `s` between the places where `sep` stands; one piece where
/// it stands nowhere.
pub open spec fn split(s: Seq<char>, sep: char) -> Seq<Seq<char>>
    decreases s.len(),
{
    let n = position(s, sep);
    if n >= s.len() {
        seq![s]
    } else {
        seq![s.take(n as int)] + split(s.skip(n as int + 1), sep)
    }
}

/// The pieces of `s` between the places where `sep` stands.
pub fn split_of(s: &[char], sep: char) -> (out: Vec<Vec<char>>)
    ensures
        views(out@) == split(s@, sep),
{
    let n: usize = s.len();
    let mut out: Vec<Vec<char>> = Vec::new();
    let mut start: usize = 0;
    assert(s@.skip(0) =~= s@);
    assert(views(out@) =~= Seq::<Seq<char>>::empty());
    loop
        invariant_except_break
            start <= n,
            n == s.len(),
            split(s@, sep) == views(out@) + split(s@.skip(start as int), sep),
        ensures
            views(out@) == split(s@, sep),
        decreases n - start,
    {
        let rest: &[char] = &s[start..n];
        assert(rest@ =~= s@.skip(start as int));
        let k: usize = position_of(rest, sep);
        proof {
            lemma_position(rest@, sep);
        }
        let ghost before = views(out@);
        if k >= rest.len() {
            out.push(slice_to_vec(rest));
            assert(views(out@) =~= before + seq![rest@]);
            break ;
        }
        let piece: &[char] = &rest[0..k];
        assert(piece@ =~= rest@.take(k as int));
        out.push(slice_to_vec(piece));
        proof {
            let tail = split(rest@.skip(k + 1), sep);
            assert(views(out@) =~= before + seq![piece@]);
            assert(rest@.skip(k + 1) =~= s@.skip(start + k + 1));
            assert(before + (seq![piece@] + tail) =~= (before + seq![piece@]) + tail);
        }
        start = start + k + 1;
    }
    out
}

/// Appends the UTF-8 encoding of `chars` to `out`.
pub fn push_utf8(out: &mut Vec<u8>, chars: &[char])
    ensures
        final(out)@ == old(out)@ + vstd::utf8::encode_utf8(chars@),
{
    let text = string_of(chars);
    out.extend_from_slice(text.as_str().as_bytes());
}

} // verus!
