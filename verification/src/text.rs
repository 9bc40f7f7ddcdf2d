//! Text as sequences of characters.
//!
//! Contracts speak of a `str` or `String` through its view, a `Seq<char>`;
//! the code works on slices of `char`.

use vstd::prelude::*;
use vstd::slice::slice_subrange;

verus! {

/// `String::push` appends the given character to the end of the string.
pub assume_specification[ String::push ](s: &mut String, c: char)
    ensures
        final(s)@ == old(s)@.push(c),
;

/// The characters of a text.
pub fn chars_of(s: &str) -> (r: Vec<char>)
    ensures
        r@ == s@,
{
    let mut out: Vec<char> = Vec::new();
    for c in it: s.chars()
        invariant
            it.seq() == s@,
            out@ == s@.take(it.index() as int),
    {
        out.push(c);
    }
    assert(s@.take(s@.len() as int) == s@);
    out
}

/// The text made of the given characters.
pub fn text_of(s: &[char]) -> (r: String)
    ensures
        r@ == s@,
{
    let mut out = String::new();
    let mut i: usize = 0;
    while i < s.len()
        invariant
            i <= s@.len(),
            out@ == s@.take(i as int),
        decreases s@.len() - i,
    {
        out.push(s[i]);
        i = i + 1;
    }
    assert(s@.take(s@.len() as int) == s@);
    out
}

/// Whether two runs of characters are the same.
pub fn same_chars(a: &[char], b: &[char]) -> (r: bool)
    ensures
        r == (a@ == b@),
{
    if a.len() != b.len() {
        return false;
    }
    let mut i: usize = 0;
    while i < a.len()
        invariant
            i <= a@.len(),
            a@.len() == b@.len(),
            forall|j: int| 0 <= j < i ==> a@[j] == b@[j],
        decreases a@.len() - i,
    {
        if a[i] != b[i] {
            return false;
        }
        i = i + 1;
    }
    assert(a@ =~= b@);
    true
}

/// Whether two texts are the same.
pub fn same_text(a: &str, b: &str) -> (r: bool)
    ensures
        r == (a@ == b@),
{
    let x = chars_of(a);
    let y = chars_of(b);
    same_chars(x.as_slice(), y.as_slice())
}

/// A copy of a text.
pub fn copy_text(s: &str) -> (r: String)
    ensures
        r@ == s@,
{
    let mut out = String::new();
    out.append(s);
    assert(out@ =~= s@);
    out
}

/// The texts held by a sequence of strings.
pub open spec fn views(v: Seq<String>) -> Seq<Seq<char>> {
    v.map_values(|s: String| s@)
}

/// The runs of characters held by a sequence of slices.
pub open spec fn runs(v: Seq<&[char]>) -> Seq<Seq<char>> {
    v.map_values(|s: &[char]| s@)
}

// ---------------------------------------------------------------------------
// Searching
// ---------------------------------------------------------------------------

/// `pat` stands in `s` at position `i`.
pub open spec fn occurs_at(s: Seq<char>, pat: Seq<char>, i: int) -> bool {
    0 <= i && i + pat.len() <= s.len() && s.subrange(i, i + pat.len()) == pat
}

/// `pat` stands somewhere in `s`.
pub open spec fn contains_text(s: Seq<char>, pat: Seq<char>) -> bool {
    exists|i: int| occurs_at(s, pat, i)
}

/// `pat` stands in `s` at `i`, and nowhere before.
pub open spec fn first_occurrence(s: Seq<char>, pat: Seq<char>, i: int) -> bool {
    occurs_at(s, pat, i) && forall|j: int| 0 <= j < i ==> !occurs_at(s, pat, j)
}

/// Where `pat` first stands in `s`.
pub open spec fn find_spec(s: Seq<char>, pat: Seq<char>) -> Option<int> {
    if contains_text(s, pat) {
        Some(choose|i: int| first_occurrence(s, pat, i))
    } else {
        None
    }
}

/// There is only one first occurrence.
pub proof fn lemma_find_is(s: Seq<char>, pat: Seq<char>, i: int)
    requires
        first_occurrence(s, pat, i),
    ensures
        find_spec(s, pat) == Some(i),
{
    assert(contains_text(s, pat));
    let k = choose|k: int| first_occurrence(s, pat, k);
    assert(first_occurrence(s, pat, k));
    if k < i {
        assert(!occurs_at(s, pat, k));
    }
    if i < k {
        assert(!occurs_at(s, pat, i));
    }
}

/// A text that occurs has a first occurrence.
pub proof fn lemma_find_some(s: Seq<char>, pat: Seq<char>, i: int)
    requires
        occurs_at(s, pat, i),
    ensures
        find_spec(s, pat) matches Some(k) && first_occurrence(s, pat, k) && k <= i,
    decreases i,
{
    if forall|j: int| 0 <= j < i ==> !occurs_at(s, pat, j) {
        lemma_find_is(s, pat, i);
    } else {
        let j = choose|j: int| 0 <= j < i && occurs_at(s, pat, j);
        lemma_find_some(s, pat, j);
    }
}

/// Whether `pat` stands in `s` at `i`.
fn stands_at(s: &[char], pat: &[char], i: usize) -> (r: bool)
    requires
        i + pat@.len() <= s@.len(),
    ensures
        r == occurs_at(s@, pat@, i as int),
{
    let mut k: usize = 0;
    while k < pat.len()
        invariant
            k <= pat@.len(),
            i + pat@.len() <= s.len(),
            forall|j: int| 0 <= j < k ==> s@[i + j] == pat@[j],
        decreases pat@.len() - k,
    {
        if s[i + k] != pat[k] {
            assert(s@.subrange(i as int, i + pat@.len())[k as int] != pat@[k as int]);
            return false;
        }
        k = k + 1;
    }
    assert(s@.subrange(i as int, i + pat@.len()) =~= pat@);
    true
}

/// The position at which `pat` first stands in `s`.
pub fn find(s: &[char], pat: &[char]) -> (r: Option<usize>)
    ensures
        match r {
            Some(i) => first_occurrence(s@, pat@, i as int) && find_spec(s@, pat@) == Some(i as int),
            None => find_spec(s@, pat@) is None && !contains_text(s@, pat@),
        },
{
    if pat.len() > s.len() {
        return None;
    }
    let mut i: usize = 0;
    while i <= s.len() - pat.len()
        invariant
            i <= s@.len() - pat@.len() + 1,
            pat@.len() <= s@.len(),
            forall|j: int| 0 <= j < i ==> !occurs_at(s@, pat@, j),
        decreases s@.len() - i,
    {
        if stands_at(s, pat, i) {
            proof {
                lemma_find_is(s@, pat@, i as int);
            }
            return Some(i);
        }
        if i == s.len() - pat.len() {
            return None;
        }
        i = i + 1;
    }
    None
}

/// Whether `s` begins with `pat`.
pub fn starts_with(s: &[char], pat: &[char]) -> (r: bool)
    ensures
        r == pat@.is_prefix_of(s@),
{
    if pat.len() > s.len() {
        return false;
    }
    stands_at(s, pat, 0)
}

/// Whether `s` ends with `pat`.
pub fn ends_with(s: &[char], pat: &[char]) -> (r: bool)
    ensures
        r == pat@.is_suffix_of(s@),
{
    if pat.len() > s.len() {
        return false;
    }
    stands_at(s, pat, s.len() - pat.len())
}

/// What stands before the suffix `pat`, if `s` ends with it.
pub open spec fn before_suffix(s: Seq<char>, pat: Seq<char>) -> Option<Seq<char>> {
    if pat.is_suffix_of(s) {
        Some(s.take(s.len() - pat.len()))
    } else {
        None
    }
}

/// Removes the suffix `pat` from `s`, if `s` ends with it.
pub fn strip_suffix<'a>(s: &'a [char], pat: &[char]) -> (r: Option<&'a [char]>)
    ensures
        match r {
            Some(t) => before_suffix(s@, pat@) == Some(t@),
            None => before_suffix(s@, pat@) is None,
        },
{
    if ends_with(s, pat) {
        Some(slice_subrange(s, 0, s.len() - pat.len()))
    } else {
        None
    }
}

/// What stands behind the prefix `pat`, if `s` begins with it.
pub open spec fn after_prefix(s: Seq<char>, pat: Seq<char>) -> Option<Seq<char>> {
    if pat.is_prefix_of(s) {
        Some(s.skip(pat.len() as int))
    } else {
        None
    }
}

/// Removes the prefix `pat` from `s`, if `s` begins with it.
pub fn strip_prefix<'a>(s: &'a [char], pat: &[char]) -> (r: Option<&'a [char]>)
    ensures
        match r {
            Some(t) => after_prefix(s@, pat@) == Some(t@),
            None => after_prefix(s@, pat@) is None,
        },
{
    if starts_with(s, pat) {
        Some(slice_subrange(s, pat.len(), s.len()))
    } else {
        None
    }
}

// ---------------------------------------------------------------------------
// Splitting
// ---------------------------------------------------------------------------

/// The position of the first `c` in `s`, or the length of `s` where there is none.
pub open spec fn index_of(s: Seq<char>, c: char) -> int
    decreases s.len(),
{
    if s.len() == 0 || s[0] == c {
        0
    } else {
        1 + index_of(s.skip(1), c)
    }
}

/// What `index_of` finds is the first `c`.
pub proof fn lemma_index_of(s: Seq<char>, c: char)
    ensures
        0 <= index_of(s, c) <= s.len(),
        forall|j: int| 0 <= j < index_of(s, c) ==> s[j] != c,
        index_of(s, c) < s.len() ==> s[index_of(s, c)] == c,
    decreases s.len(),
{
    if s.len() != 0 && s[0] != c {
        lemma_index_of(s.skip(1), c);
        let k = index_of(s.skip(1), c);
        assert forall|j: int| 0 <= j < k + 1 implies s[j] != c by {
            if j > 0 {
                assert(s[j] == s.skip(1)[j - 1]);
            }
        }
    }
}

/// The first `c` is at `i`, where no earlier character is `c` and `i` holds `c` or is the end.
pub proof fn lemma_index_of_is(s: Seq<char>, c: char, i: int)
    requires
        0 <= i <= s.len(),
        forall|j: int| 0 <= j < i ==> s[j] != c,
        i < s.len() ==> s[i] == c,
    ensures
        index_of(s, c) == i,
{
    lemma_index_of(s, c);
    let k = index_of(s, c);
    if k < i {
        assert(s[k] != c);
    }
    if i < k {
        assert(s[i] != c);
    }
}

/// The position of the first `c` at or behind `from`, or the end.
fn next_char(s: &[char], c: char, from: usize) -> (r: usize)
    requires
        from <= s@.len(),
    ensures
        from <= r <= s@.len(),
        r - from == index_of(s@.skip(from as int), c),
        r < s@.len() ==> s@[r as int] == c,
{
    let mut i: usize = from;
    while i < s.len() && s[i] != c
        invariant
            from <= i <= s@.len(),
            forall|j: int| from <= j < i ==> s@[j] != c,
        decreases s@.len() - i,
    {
        i = i + 1;
    }
    proof {
        lemma_index_of_is(s@.skip(from as int), c, i - from);
    }
    i
}

/// The pieces of `s` between the occurrences of `c`: one more than there are `c`s.
pub open spec fn split_spec(s: Seq<char>, c: char) -> Seq<Seq<char>>
    decreases s.len(),
{
    let i = index_of(s, c);
    if 0 <= i < s.len() {
        seq![s.take(i)] + split_spec(s.skip(i + 1), c)
    } else {
        seq![s]
    }
}

/// Splits `s` at every `c`.
pub fn split<'a>(s: &'a [char], c: char) -> (r: Vec<&'a [char]>)
    ensures
        runs(r@) == split_spec(s@, c),
        r@.len() >= 1,
{
    let mut out: Vec<&'a [char]> = Vec::new();
    let mut from: usize = 0;
    assert(s@.skip(0) =~= s@);
    assert(runs(out@) + split_spec(s@, c) =~= split_spec(s@, c));
    loop
        invariant_except_break
            from <= s@.len(),
            runs(out@) + split_spec(s@.skip(from as int), c) == split_spec(s@, c),
        ensures
            runs(out@) == split_spec(s@, c),
            out@.len() >= 1,
        decreases s@.len() - from,
    {
        let ghost rest = s@.skip(from as int);
        let ghost before = out@;
        let i = next_char(s, c, from);
        proof {
            lemma_index_of(rest, c);
        }
        let piece = slice_subrange(s, from, i);
        out.push(piece);
        assert(piece@ =~= rest.take(i - from));
        assert(runs(out@) =~= runs(before).push(piece@));
        if i == s.len() {
            assert(rest.take(i - from) =~= rest);
            assert(runs(out@) =~= runs(before) + split_spec(rest, c));
            break;
        }
        assert(rest.skip(i - from + 1) =~= s@.skip(i + 1));
        assert(runs(out@) + split_spec(s@.skip(i + 1), c) =~= runs(before) + split_spec(rest, c));
        from = i + 1;
    }
    out
}

/// What stands before and behind the first `c`, if there is one.
pub open spec fn split_once_spec(s: Seq<char>, c: char) -> Option<(Seq<char>, Seq<char>)> {
    let i = index_of(s, c);
    if i < s.len() {
        Some((s.take(i), s.skip(i + 1)))
    } else {
        None
    }
}

/// Splits `s` at the first `c`.
pub fn split_once<'a>(s: &'a [char], c: char) -> (r: Option<(&'a [char], &'a [char])>)
    ensures
        match r {
            Some((a, b)) => split_once_spec(s@, c) == Some((a@, b@)),
            None => split_once_spec(s@, c) is None,
        },
{
    assert(s@.skip(0) =~= s@);
    let i = next_char(s, c, 0);
    if i < s.len() {
        Some((slice_subrange(s, 0, i), slice_subrange(s, i + 1, s.len())))
    } else {
        None
    }
}

/// A text without `c` is one piece.
pub proof fn lemma_split_none(s: Seq<char>, c: char)
    requires
        !s.contains(c),
    ensures
        split_spec(s, c) == seq![s],
{
    assert forall|j: int| 0 <= j < s.len() implies s[j] != c by {
        assert(s.contains(s[j]));
    }
    lemma_index_of_is(s, c, s.len() as int);
}

/// The piece before the first `c` is the first of the pieces.
pub proof fn lemma_split_cons(a: Seq<char>, c: char, rest: Seq<char>)
    requires
        !a.contains(c),
    ensures
        split_spec(a + seq![c] + rest, c) == seq![a] + split_spec(rest, c),
{
    let s = a + seq![c] + rest;
    assert forall|j: int| 0 <= j < a.len() implies s[j] != c by {
        assert(a.contains(a[j]));
    }
    lemma_index_of_is(s, c, a.len() as int);
    assert(s.take(a.len() as int) =~= a);
    assert(s.skip(a.len() as int + 1) =~= rest);
}

/// With more than one piece, the first stands before the first `c`, and the
/// others are the pieces of what follows; a single piece is the whole text.
pub proof fn lemma_split_first(s: Seq<char>, c: char) -> (rest: Seq<char>)
    ensures
        split_spec(s, c).len() >= 1,
        !split_spec(s, c)[0].contains(c),
        split_spec(s, c).len() == 1 ==> s == split_spec(s, c)[0],
        split_spec(s, c).len() > 1 ==> s == split_spec(s, c)[0] + seq![c] + rest && split_spec(
            rest,
            c,
        ) == split_spec(s, c).skip(1),
{
    lemma_index_of(s, c);
    let i = index_of(s, c);
    let rest = s.skip(i + 1);
    if i < s.len() {
        assert(s =~= s.take(i) + seq![c] + rest);
        assert(split_spec(s, c).skip(1) =~= split_spec(rest, c));
        lemma_index_of(rest, c);
    }
    rest
}

// ---------------------------------------------------------------------------
// Trimming
// ---------------------------------------------------------------------------

/// The characters with the Unicode property White_Space.
pub open spec fn is_white(c: char) -> bool {
    ||| '\u{9}' <= c <= '\u{d}'
    ||| c == ' '
    ||| c == '\u{85}'
    ||| c == '\u{a0}'
    ||| c == '\u{1680}'
    ||| '\u{2000}' <= c <= '\u{200a}'
    ||| c == '\u{2028}'
    ||| c == '\u{2029}'
    ||| c == '\u{202f}'
    ||| c == '\u{205f}'
    ||| c == '\u{3000}'
}

/// Whether `c` has the Unicode property White_Space.
pub fn white(c: char) -> (r: bool)
    ensures
        r == is_white(c),
{
    ('\u{9}' <= c && c <= '\u{d}') || c == ' ' || c == '\u{85}' || c == '\u{a0}' || c == '\u{1680}'
        || ('\u{2000}' <= c && c <= '\u{200a}') || c == '\u{2028}' || c == '\u{2029}' || c
        == '\u{202f}' || c == '\u{205f}' || c == '\u{3000}'
}

/// `s` without the white space at its start.
pub open spec fn trim_start_spec(s: Seq<char>) -> Seq<char>
    decreases s.len(),
{
    if s.len() > 0 && is_white(s[0]) {
        trim_start_spec(s.skip(1))
    } else {
        s
    }
}

/// `s` without the white space at its end.
pub open spec fn trim_end_spec(s: Seq<char>) -> Seq<char>
    decreases s.len(),
{
    if s.len() > 0 && is_white(s.last()) {
        trim_end_spec(s.drop_last())
    } else {
        s
    }
}

/// `s` without the white space at either end.
pub open spec fn trim_spec(s: Seq<char>) -> Seq<char> {
    trim_end_spec(trim_start_spec(s))
}

/// Removes the white space at either end.
pub fn trim<'a>(s: &'a [char]) -> (r: &'a [char])
    ensures
        r@ == trim_spec(s@),
{
    let mut a: usize = 0;
    assert(s@.skip(0) =~= s@);
    while a < s.len() && white(s[a])
        invariant
            a <= s@.len(),
            trim_start_spec(s@.skip(a as int)) == trim_start_spec(s@),
        decreases s@.len() - a,
    {
        assert(s@.skip(a as int).skip(1) =~= s@.skip(a + 1));
        a = a + 1;
    }
    let mut b: usize = s.len();
    assert(s@.subrange(a as int, b as int) =~= s@.skip(a as int));
    while a < b && white(s[b - 1])
        invariant
            a <= b <= s@.len(),
            trim_end_spec(s@.subrange(a as int, b as int)) == trim_spec(s@),
        decreases b,
    {
        assert(s@.subrange(a as int, b as int).drop_last() =~= s@.subrange(a as int, b - 1));
        b = b - 1;
    }
    slice_subrange(s, a, b)
}

/// A text that neither begins nor ends with white space is left as it is.
pub proof fn lemma_trim_nothing(s: Seq<char>)
    requires
        s.len() > 0 ==> !is_white(s[0]) && !is_white(s.last()),
    ensures
        trim_spec(s) == s,
{
}

/// A path separator.
pub open spec fn is_slash(c: char) -> bool {
    c == '\\' || c == '/'
}

/// `s` without the path separators at its start.
pub open spec fn trim_slashes_start(s: Seq<char>) -> Seq<char>
    decreases s.len(),
{
    if s.len() > 0 && is_slash(s[0]) {
        trim_slashes_start(s.skip(1))
    } else {
        s
    }
}

/// `s` without the path separators at its end.
pub open spec fn trim_slashes_end(s: Seq<char>) -> Seq<char>
    decreases s.len(),
{
    if s.len() > 0 && is_slash(s.last()) {
        trim_slashes_end(s.drop_last())
    } else {
        s
    }
}

/// `s` without the path separators at either end.
pub open spec fn trim_slashes_spec(s: Seq<char>) -> Seq<char> {
    trim_slashes_end(trim_slashes_start(s))
}

/// Removes the path separators at either end.
pub fn trim_slashes<'a>(s: &'a [char]) -> (r: &'a [char])
    ensures
        r@ == trim_slashes_spec(s@),
{
    let mut a: usize = 0;
    assert(s@.skip(0) =~= s@);
    while a < s.len() && (s[a] == '\\' || s[a] == '/')
        invariant
            a <= s@.len(),
            trim_slashes_start(s@.skip(a as int)) == trim_slashes_start(s@),
        decreases s@.len() - a,
    {
        assert(s@.skip(a as int).skip(1) =~= s@.skip(a + 1));
        a = a + 1;
    }
    let mut b: usize = s.len();
    assert(s@.subrange(a as int, b as int) =~= s@.skip(a as int));
    while a < b && (s[b - 1] == '\\' || s[b - 1] == '/')
        invariant
            a <= b <= s@.len(),
            trim_slashes_end(s@.subrange(a as int, b as int)) == trim_slashes_spec(s@),
        decreases b,
    {
        assert(s@.subrange(a as int, b as int).drop_last() =~= s@.subrange(a as int, b - 1));
        b = b - 1;
    }
    slice_subrange(s, a, b)
}

// ---------------------------------------------------------------------------
// ASCII letter case
// ---------------------------------------------------------------------------

/// `c` with an ASCII capital letter made small.
pub open spec fn lower_char(c: char) -> char {
    if 'A' <= c <= 'Z' {
        (c as u8 + 32) as char
    } else {
        c
    }
}

/// `c` with an ASCII small letter made capital.
pub open spec fn upper_char(c: char) -> char {
    if 'a' <= c <= 'z' {
        (c as u8 - 32) as char
    } else {
        c
    }
}

/// `s` with its ASCII capital letters made small.
pub open spec fn lower_spec(s: Seq<char>) -> Seq<char> {
    s.map_values(|c: char| lower_char(c))
}

/// `s` with its ASCII small letters made capital.
pub open spec fn upper_spec(s: Seq<char>) -> Seq<char> {
    s.map_values(|c: char| upper_char(c))
}

/// The two texts differ in the case of ASCII letters at most.
pub open spec fn same_ignoring_case(a: Seq<char>, b: Seq<char>) -> bool {
    lower_spec(a) == lower_spec(b)
}

/// Makes an ASCII capital letter small.
pub fn lower_one(c: char) -> (r: char)
    ensures
        r == lower_char(c),
{
    if 'A' <= c && c <= 'Z' {
        (c as u8 + 32) as char
    } else {
        c
    }
}

/// Makes an ASCII small letter capital.
pub fn upper_one(c: char) -> (r: char)
    ensures
        r == upper_char(c),
{
    if 'a' <= c && c <= 'z' {
        (c as u8 - 32) as char
    } else {
        c
    }
}

/// Makes the ASCII capital letters of `s` small.
pub fn to_lower(s: &[char]) -> (r: String)
    ensures
        r@ == lower_spec(s@),
{
    let mut out = String::new();
    let mut i: usize = 0;
    while i < s.len()
        invariant
            i <= s@.len(),
            out@ == lower_spec(s@.take(i as int)),
        decreases s@.len() - i,
    {
        out.push(lower_one(s[i]));
        i = i + 1;
        assert(out@ =~= lower_spec(s@.take(i as int)));
    }
    assert(s@.take(s@.len() as int) =~= s@);
    out
}

/// Makes the ASCII small letters of `s` capital.
pub fn to_upper(s: &[char]) -> (r: String)
    ensures
        r@ == upper_spec(s@),
{
    let mut out = String::new();
    let mut i: usize = 0;
    while i < s.len()
        invariant
            i <= s@.len(),
            out@ == upper_spec(s@.take(i as int)),
        decreases s@.len() - i,
    {
        out.push(upper_one(s[i]));
        i = i + 1;
        assert(out@ =~= upper_spec(s@.take(i as int)));
    }
    assert(s@.take(s@.len() as int) =~= s@);
    out
}

/// Whether the two texts differ in the case of ASCII letters at most.
pub fn same_but_case(a: &[char], b: &[char]) -> (r: bool)
    ensures
        r == same_ignoring_case(a@, b@),
{
    if a.len() != b.len() {
        assert(lower_spec(a@).len() != lower_spec(b@).len());
        return false;
    }
    let mut i: usize = 0;
    while i < a.len()
        invariant
            i <= a@.len(),
            a@.len() == b@.len(),
            forall|j: int| 0 <= j < i ==> lower_char(a@[j]) == lower_char(b@[j]),
        decreases a@.len() - i,
    {
        if lower_one(a[i]) != lower_one(b[i]) {
            assert(lower_spec(a@)[i as int] != lower_spec(b@)[i as int]);
            return false;
        }
        i = i + 1;
    }
    assert(lower_spec(a@) =~= lower_spec(b@));
    true
}

// ---------------------------------------------------------------------------
// Joining
// ---------------------------------------------------------------------------

/// The texts one after another, with `sep` between them.
pub open spec fn join_spec(parts: Seq<Seq<char>>, sep: Seq<char>) -> Seq<char>
    decreases parts.len(),
{
    if parts.len() == 0 {
        seq![]
    } else if parts.len() == 1 {
        parts[0]
    } else {
        join_spec(parts.drop_last(), sep) + sep + parts.last()
    }
}

/// Joins the texts, with `sep` between them.
pub fn join(parts: &Vec<String>, sep: &str) -> (r: String)
    ensures
        r@ == join_spec(views(parts@), sep@),
{
    let mut out = String::new();
    let mut i: usize = 0;
    while i < parts.len()
        invariant
            i <= parts@.len(),
            out@ == join_spec(views(parts@).take(i as int), sep@),
        decreases parts@.len() - i,
    {
        let ghost done = views(parts@).take(i as int);
        let ghost next = views(parts@).take(i + 1);
        assert(next.drop_last() =~= done);
        assert(next.last() == parts@[i as int]@);
        if i > 0 {
            out.append(sep);
        }
        out.append(parts[i].as_str());
        assert(out@ =~= join_spec(next, sep@));
        i = i + 1;
    }
    assert(views(parts@).take(parts@.len() as int) =~= views(parts@));
    out
}

// ---------------------------------------------------------------------------
// Laws
// ---------------------------------------------------------------------------

/// Trimming takes away white space at the ends, all of it, and nothing else.
pub proof fn law_trim(s: Seq<char>) -> (ends: (Seq<char>, Seq<char>))
    ensures
        s == ends.0 + trim_spec(s) + ends.1,
        forall|i: int| 0 <= i < ends.0.len() ==> is_white(#[trigger] ends.0[i]),
        forall|i: int| 0 <= i < ends.1.len() ==> is_white(#[trigger] ends.1[i]),
        trim_spec(s).len() > 0 ==> !is_white(trim_spec(s)[0]) && !is_white(trim_spec(s).last()),
{
    let a = lemma_trim_start(s);
    let t = trim_start_spec(s);
    let b = lemma_trim_end(t);
    let r = trim_spec(s);
    if r.len() > 0 {
        assert(t[0] == r[0]);
    }
    assert(s =~= a + r + b);
    (a, b)
}

/// What trimming takes away at the start.
proof fn lemma_trim_start(s: Seq<char>) -> (a: Seq<char>)
    ensures
        s == a + trim_start_spec(s),
        forall|i: int| 0 <= i < a.len() ==> is_white(#[trigger] a[i]),
        trim_start_spec(s).len() > 0 ==> !is_white(trim_start_spec(s)[0]),
    decreases s.len(),
{
    if s.len() > 0 && is_white(s[0]) {
        let b = lemma_trim_start(s.skip(1));
        let a = seq![s[0]] + b;
        assert(s =~= seq![s[0]] + s.skip(1));
        assert(seq![s[0]] + (b + trim_start_spec(s)) =~= a + trim_start_spec(s));
        assert forall|i: int| 0 <= i < a.len() implies is_white(#[trigger] a[i]) by {
            if i > 0 {
                assert(a[i] == b[i - 1]);
            }
        }
        a
    } else {
        assert(s =~= Seq::<char>::empty() + s);
        Seq::<char>::empty()
    }
}

/// What trimming takes away at the end.
proof fn lemma_trim_end(s: Seq<char>) -> (a: Seq<char>)
    ensures
        s == trim_end_spec(s) + a,
        forall|i: int| 0 <= i < a.len() ==> is_white(#[trigger] a[i]),
        trim_end_spec(s).len() > 0 ==> !is_white(trim_end_spec(s).last()),
    decreases s.len(),
{
    if s.len() > 0 && is_white(s.last()) {
        let b = lemma_trim_end(s.drop_last());
        let a = b.push(s.last());
        assert(s =~= s.drop_last().push(s.last()));
        assert((trim_end_spec(s) + b).push(s.last()) =~= trim_end_spec(s) + a);
        a
    } else {
        assert(s =~= s + Seq::<char>::empty());
        Seq::<char>::empty()
    }
}

/// Removing the slashes at the ends takes away all of them, and nothing else.
pub proof fn law_trim_slashes(s: Seq<char>) -> (ends: (Seq<char>, Seq<char>))
    ensures
        s == ends.0 + trim_slashes_spec(s) + ends.1,
        forall|i: int| 0 <= i < ends.0.len() ==> #[trigger] ends.0[i] == '/' || ends.0[i] == '\\',
        forall|i: int| 0 <= i < ends.1.len() ==> #[trigger] ends.1[i] == '/' || ends.1[i] == '\\',
        trim_slashes_spec(s).len() > 0 ==> {
            let r = trim_slashes_spec(s);
            r[0] != '/' && r[0] != '\\' && r.last() != '/' && r.last() != '\\'
        },
{
    let a = lemma_slashes_start(s);
    let t = trim_slashes_start(s);
    let b = lemma_slashes_end(t);
    let r = trim_slashes_spec(s);
    if r.len() > 0 {
        assert(t[0] == r[0]);
    }
    assert(s =~= a + r + b);
    (a, b)
}

/// The slashes at the start.
proof fn lemma_slashes_start(s: Seq<char>) -> (a: Seq<char>)
    ensures
        s == a + trim_slashes_start(s),
        forall|i: int| 0 <= i < a.len() ==> #[trigger] a[i] == '/' || a[i] == '\\',
        trim_slashes_start(s).len() > 0 ==> trim_slashes_start(s)[0] != '/' && trim_slashes_start(
            s,
        )[0] != '\\',
    decreases s.len(),
{
    if s.len() > 0 && is_slash(s[0]) {
        let b = lemma_slashes_start(s.skip(1));
        let a = seq![s[0]] + b;
        assert(s =~= seq![s[0]] + s.skip(1));
        assert(seq![s[0]] + (b + trim_slashes_start(s)) =~= a + trim_slashes_start(s));
        assert forall|i: int| 0 <= i < a.len() implies #[trigger] a[i] == '/' || a[i] == '\\' by {
            if i > 0 {
                assert(a[i] == b[i - 1]);
            }
        }
        a
    } else {
        assert(s =~= Seq::<char>::empty() + s);
        Seq::<char>::empty()
    }
}

/// The slashes at the end.
proof fn lemma_slashes_end(s: Seq<char>) -> (a: Seq<char>)
    ensures
        s == trim_slashes_end(s) + a,
        forall|i: int| 0 <= i < a.len() ==> #[trigger] a[i] == '/' || a[i] == '\\',
        trim_slashes_end(s).len() > 0 ==> trim_slashes_end(s).last() != '/' && trim_slashes_end(
            s,
        ).last() != '\\',
    decreases s.len(),
{
    if s.len() > 0 && is_slash(s.last()) {
        let b = lemma_slashes_end(s.drop_last());
        let a = b.push(s.last());
        assert(s =~= s.drop_last().push(s.last()));
        assert((trim_slashes_end(s) + b).push(s.last()) =~= trim_slashes_end(s) + a);
        a
    } else {
        assert(s =~= s + Seq::<char>::empty());
        Seq::<char>::empty()
    }
}

/// Splitting leaves out just the separators: the pieces hold none, and with
/// one between each two they make up the text. The first `c` is where the
/// first piece ends.
pub proof fn law_split(s: Seq<char>, c: char)
    ensures
        split_spec(s, c).len() >= 1,
        join_spec(split_spec(s, c), seq![c]) == s,
        forall|i: int| 0 <= i < split_spec(s, c).len() ==> !(#[trigger] split_spec(s, c)[i]).contains(c),
        match split_once_spec(s, c) {
            Some((a, b)) => s == a + seq![c] + b && !a.contains(c),
            None => !s.contains(c),
        },
    decreases s.len(),
{
    lemma_index_of(s, c);
    let i = index_of(s, c);
    if i < s.len() {
        let rest = s.skip(i + 1);
        law_split(rest, c);
        let tail = split_spec(rest, c);
        let all = split_spec(s, c);
        assert(s =~= s.take(i) + seq![c] + rest);
        lemma_join_front(s.take(i), tail, seq![c]);
        assert forall|k: int| 0 <= k < all.len() implies !(#[trigger] all[k]).contains(c) by {
            if k > 0 {
                assert(all[k] == tail[k - 1]);
            }
        }
    } else {
        assert(!s.contains(c));
        assert(split_spec(s, c)[0] == s);
    }
}

/// A text in front of joined ones.
proof fn lemma_join_front(x: Seq<char>, parts: Seq<Seq<char>>, sep: Seq<char>)
    requires
        parts.len() >= 1,
    ensures
        join_spec(seq![x] + parts, sep) == x + sep + join_spec(parts, sep),
    decreases parts.len(),
{
    let all = seq![x] + parts;
    assert(all.last() == parts.last());
    if parts.len() == 1 {
        assert(all.drop_last() =~= seq![x]);
        assert(join_spec(seq![x], sep) == x);
        assert(join_spec(parts, sep) == parts[0]);
    } else {
        assert(all.drop_last() =~= seq![x] + parts.drop_last());
        lemma_join_front(x, parts.drop_last(), sep);
        assert(join_spec(all, sep) =~= x + sep + join_spec(parts, sep));
    }
}

/// Joining puts the separator between each two texts, and nowhere else.
pub proof fn law_join(a: Seq<Seq<char>>, b: Seq<Seq<char>>, x: Seq<char>, sep: Seq<char>)
    ensures
        join_spec(Seq::<Seq<char>>::empty(), sep).len() == 0,
        join_spec(seq![x], sep) == x,
        a.len() > 0 && b.len() > 0 ==> join_spec(a + b, sep) == join_spec(a, sep) + sep
            + join_spec(b, sep),
    decreases b.len(),
{
    if a.len() > 0 && b.len() > 0 {
        assert((a + b).last() == b.last());
        assert((a + b).drop_last() =~= a + b.drop_last());
        if b.len() == 1 {
            assert(a + b.drop_last() =~= a);
        } else {
            law_join(a, b.drop_last(), x, sep);
            assert(join_spec(a + b, sep) =~= join_spec(a, sep) + sep + join_spec(b, sep));
        }
    }
}

/// Letter case is changed letter by letter, of the 26 letters of ASCII only.
pub proof fn law_letter_case(s: Seq<char>, i: int)
    requires
        0 <= i < s.len(),
    ensures
        lower_spec(s).len() == s.len(),
        upper_spec(s).len() == s.len(),
        'A' <= s[i] <= 'Z' ==> lower_spec(s)[i] as int == s[i] as int + 32,
        !('A' <= s[i] <= 'Z') ==> lower_spec(s)[i] == s[i],
        'a' <= s[i] <= 'z' ==> upper_spec(s)[i] as int == s[i] as int - 32,
        !('a' <= s[i] <= 'z') ==> upper_spec(s)[i] == s[i],
{
}

/// White space is what Unicode calls so: these characters, and no others.
pub proof fn law_white(c: char)
    ensures
        is_white(c) <==> {
            let n = c as u32;
            ||| n == 9 || n == 10 || n == 11 || n == 12 || n == 13
            ||| n == 32 || n == 133 || n == 160 || n == 5760
            ||| 8192 <= n && n <= 8202
            ||| n == 8232 || n == 8233 || n == 8239 || n == 8287 || n == 12288
        },
{
}

/// `s` is `pat` with `x` in front and `y` behind.
pub open spec fn surrounds(s: Seq<char>, x: Seq<char>, pat: Seq<char>, y: Seq<char>) -> bool {
    s == x + pat + y
}

/// A text holds another if and only if it is that one with something, or
/// nothing, round it; and it is found where it first stands.
pub proof fn law_find(s: Seq<char>, pat: Seq<char>)
    ensures
        contains_text(s, pat) <==> exists|x: Seq<char>, y: Seq<char>| #[trigger]
            surrounds(s, x, pat, y),
        !contains_text(s, pat) ==> find_spec(s, pat) is None,
        contains_text(s, pat) ==> {
            let i = find_spec(s, pat)->0;
            &&& find_spec(s, pat) is Some && 0 <= i && i + pat.len() <= s.len()
            &&& surrounds(s, s.take(i), pat, s.skip(i + pat.len()))
            &&& forall|x: Seq<char>, y: Seq<char>| #[trigger]
                surrounds(s, x, pat, y) ==> i <= x.len()
        },
{
    assert forall|x: Seq<char>, y: Seq<char>| #[trigger] surrounds(s, x, pat, y) implies
        contains_text(s, pat) && (find_spec(s, pat) matches Some(i) && i <= x.len()) by {
        assert(s.subrange(x.len() as int, x.len() as int + pat.len()) =~= pat);
        assert(occurs_at(s, pat, x.len() as int));
        lemma_find_some(s, pat, x.len() as int);
    }
    if contains_text(s, pat) {
        let j = choose|j: int| occurs_at(s, pat, j);
        lemma_find_some(s, pat, j);
        let i = find_spec(s, pat)->0;
        assert(s.subrange(i, i + pat.len()) == pat);
        assert(s =~= s.take(i) + pat + s.skip(i + pat.len()));
        assert(surrounds(s, s.take(i), pat, s.skip(i + pat.len())));
    }
}

/// What is left of a text without its beginning, or without its end.
pub proof fn law_affixes(s: Seq<char>, a: Seq<char>, pat: Seq<char>)
    ensures
        before_suffix(a + pat, pat) == Some(a),
        after_prefix(pat + a, pat) == Some(a),
        before_suffix(s, pat) matches Some(x) ==> s == x + pat,
        after_prefix(s, pat) matches Some(x) ==> s == pat + x,
{
    let t = a + pat;
    assert(t.subrange(t.len() - pat.len(), t.len() as int) =~= pat);
    assert(t.take(t.len() - pat.len()) =~= a);
    let u = pat + a;
    assert(u.subrange(0, pat.len() as int) =~= pat);
    assert(u.skip(pat.len() as int) =~= a);
    if pat.is_suffix_of(s) {
        assert(s.subrange(s.len() - pat.len(), s.len() as int) == pat);
        assert(s =~= s.take(s.len() - pat.len()) + pat);
    }
    if pat.is_prefix_of(s) {
        assert(s.subrange(0, pat.len() as int) == pat);
        assert(s =~= pat + s.skip(pat.len() as int));
    }
}

} // verus!
