//! Character level text operations shared by the parsers and renderers.
//!
//! Text is handled as a sequence of characters.  Every function here states
//! its result over `Seq<char>`, the view of `str`, `String`, `&[char]` and
//! `Vec<char>`.

use vstd::prelude::*;
use vstd::slice::*;
use vstd::string::*;

verus! {

/// `String::push` appends one character.
pub assume_specification[ String::push ](s: &mut String, c: char)
    ensures
        final(s)@ == old(s)@.push(c),
;

/// The `Debug` rendering of a string: quoted, with escapes.
pub uninterp spec fn debug_text(s: Seq<char>) -> Seq<char>;

/// `<str as Debug>::fmt`, reached through `{:?}`.  The rendering is a function
/// of the characters of `s`; which escapes it uses is left unsaid.
#[verifier::external_body]
pub(crate) fn quoted(s: &str) -> (r: String)
    ensures
        r@ == debug_text(s@),
{
    format!("{s:?}")
}

/// `std::str::from_utf8` on the whole slice: succeeds exactly on valid UTF-8,
/// and the text it returns encodes to the bytes it was given.
#[verifier::external_body]
pub(crate) fn utf8_text(bytes: &[u8]) -> (r: Option<String>)
    ensures
        r is Some <==> vstd::utf8::valid_utf8(bytes@),
        r matches Some(s) ==> s@ == vstd::utf8::decode_utf8(bytes@),
{
    std::str::from_utf8(bytes).ok().map(|s| s.to_string())
}

/// The text of bytes that may not be UTF-8.
pub uninterp spec fn lossy(bytes: Seq<u8>) -> Seq<char>;

/// `String::from_utf8_lossy`: valid UTF-8 is decoded; otherwise the text is a
/// function of the bytes, and which of them are replaced is left unsaid.
#[verifier::external_body]
pub(crate) fn lossy_text(bytes: &[u8]) -> (r: String)
    ensures
        r@ == lossy(bytes@),
        vstd::utf8::valid_utf8(bytes@) ==> r@ == vstd::utf8::decode_utf8(bytes@),
{
    String::from_utf8_lossy(bytes).into_owned()
}

// ---------------------------------------------------------------------
// conversions
// ---------------------------------------------------------------------

/// The characters of `s`.
pub fn chars_of(s: &str) -> (v: Vec<char>)
    ensures
        v@ == s@,
{
    let mut v: Vec<char> = Vec::new();
    for c in it: s.chars()
        invariant
            it.seq() == s@,
            v@ == s@.take(it.index() as int),
    {
        v.push(c);
        assert(v@ =~= s@.take(it.index() + 1));
    }
    assert(v@ =~= s@);
    v
}

/// The string made of `chars`.
pub fn text_of(chars: &[char]) -> (s: String)
    ensures
        s@ == chars@,
{
    let mut s: String = String::new();
    let mut i: usize = 0;
    while i < chars.len()
        invariant
            i <= chars@.len(),
            s@ == chars@.take(i as int),
        decreases chars@.len() - i,
    {
        s.push(chars[i]);
        i = i + 1;
        assert(s@ =~= chars@.take(i as int));
    }
    assert(s@ =~= chars@);
    s
}

/// Whether two character slices hold the same text.
pub fn same_chars(a: &[char], b: &[char]) -> (r: bool)
    ensures
        r == (a@ == b@),
{
    if a.len() != b.len() {
        return false;
    }
    let mut i: usize = 0;
    while i < a.len()
        invariant
            i <= a@.len(),
            a@.len() == b@.len(),
            forall|j: int| 0 <= j < i ==> a@[j] == b@[j],
        decreases a@.len() - i,
    {
        if a[i] != b[i] {
            return false;
        }
        i = i + 1;
    }
    assert(a@ =~= b@);
    true
}

/// Whether a character slice holds the text of `s`.
pub fn is_text(a: &[char], s: &str) -> (r: bool)
    ensures
        r == (a@ == s@),
{
    let b = chars_of(s);
    same_chars(a, b.as_slice())
}

/// Whether two strings hold the same text.
pub fn same_text(a: &str, b: &str) -> (r: bool)
    ensures
        r == (a@ == b@),
{
    let x = chars_of(a);
    is_text(x.as_slice(), b)
}

/// The text of an optional string.
pub open spec fn opt_text(o: Option<String>) -> Option<Seq<char>> {
    match o {
        Some(s) => Some(s@),
        None => None,
    }
}

/// A copy of an optional string.
pub fn copy_text(o: &Option<String>) -> (r: Option<String>)
    ensures
        opt_text(r) == opt_text(*o),
{
    match o {
        Some(s) => Some(s.clone()),
        None => None,
    }
}

/// The texts of a list of strings.
pub open spec fn texts(v: Seq<String>) -> Seq<Seq<char>> {
    v.map_values(|s: String| s@)
}

/// The first `n` texts joined by `sep`.
pub open spec fn joined(items: Seq<Seq<char>>, sep: Seq<char>, n: int) -> Seq<char>
    decreases n,
{
    if n <= 0 {
        Seq::empty()
    } else if n == 1 {
        items[0]
    } else {
        joined(items, sep, n - 1) + sep + items[n - 1]
    }
}

/// The texts joined by `sep`.
pub open spec fn join(items: Seq<Seq<char>>, sep: Seq<char>) -> Seq<char> {
    joined(items, sep, items.len() as int)
}

/// Append the texts of `items`, joined by `sep`.
pub fn push_joined(out: &mut String, items: &[String], sep: &str)
    ensures
        final(out)@ == old(out)@ + join(texts(items@), sep@),
{
    let mut i: usize = 0;
    assert(out@ =~= old(out)@ + joined(texts(items@), sep@, 0));
    while i < items.len()
        invariant
            i <= items@.len(),
            out@ == old(out)@ + joined(texts(items@), sep@, i as int),
        decreases items@.len() - i,
    {
        if i > 0 {
            out.append(sep);
        }
        out.append(items[i].as_str());
        i = i + 1;
        assert(out@ =~= old(out)@ + joined(texts(items@), sep@, i as int));
    }
}

// ---------------------------------------------------------------------
// searching
// ---------------------------------------------------------------------

/// Position of the first `c` at or after `i`; the length when there is none.
pub open spec fn first_from(s: Seq<char>, c: char, i: int) -> int
    decreases s.len() - i,
{
    if i < 0 || i >= s.len() {
        s.len() as int
    } else if s[i] == c {
        i
    } else {
        first_from(s, c, i + 1)
    }
}

/// [`first_from`] is the least position holding `c`.
pub proof fn lemma_first_from(s: Seq<char>, c: char, i: int)
    requires
        0 <= i <= s.len(),
    ensures
        i <= first_from(s, c, i) <= s.len(),
        first_from(s, c, i) < s.len() ==> s[first_from(s, c, i)] == c,
        forall|j: int| i <= j < first_from(s, c, i) ==> s[j] != c,
    decreases s.len() - i,
{
    if i < s.len() && s[i] != c {
        lemma_first_from(s, c, i + 1);
    }
}

/// A position that holds `c` with no `c` before it is the first one.
pub proof fn lemma_first_from_is(s: Seq<char>, c: char, i: int, k: int)
    requires
        0 <= i <= k <= s.len(),
        forall|j: int| i <= j < k ==> s[j] != c,
        k < s.len() ==> s[k] == c,
    ensures
        first_from(s, c, i) == k,
    decreases k - i,
{
    if i < k {
        lemma_first_from_is(s, c, i + 1, k);
    }
}

/// Position of the first `c` at or after `i`; the length when there is none.
pub fn find_from(s: &[char], c: char, i: usize) -> (r: usize)
    requires
        i <= s@.len(),
    ensures
        r == first_from(s@, c, i as int),
        i <= r <= s@.len(),
        r < s@.len() ==> s@[r as int] == c,
        forall|j: int| i <= j < r ==> s@[j] != c,
{
    let mut k: usize = i;
    while k < s.len() && s[k] != c
        invariant
            i <= k <= s@.len(),
            forall|j: int| i <= j < k ==> s@[j] != c,
        decreases s@.len() - k,
    {
        k = k + 1;
    }
    proof {
        lemma_first_from_is(s@, c, i as int, k as int);
    }
    k
}

/// The texts before and after the first `c` of `s`.
pub open spec fn cut(s: Seq<char>, c: char) -> Option<(Seq<char>, Seq<char>)> {
    let k = first_from(s, c, 0);
    if k < s.len() {
        Some((s.take(k), s.skip(k + 1)))
    } else {
        None
    }
}

/// Split `s` at its first `c`.
pub fn cut_at(s: &[char], c: char) -> (r: Option<(&[char], &[char])>)
    ensures
        r matches Some(p) ==> cut(s@, c) == Some((p.0@, p.1@)),
        r is None ==> cut(s@, c) is None,
{
    let k: usize = find_from(s, c, 0);
    if k < s.len() {
        let head = slice_subrange(s, 0, k);
        let tail = slice_subrange(s, k + 1, s.len());
        assert(head@ =~= s@.take(k as int));
        assert(tail@ =~= s@.skip(k + 1));
        Some((head, tail))
    } else {
        None
    }
}

/// Position of the last `c` before `i`; -1 when there is none.
pub open spec fn last_before(s: Seq<char>, c: char, i: int) -> int
    decreases i,
{
    if i <= 0 || i > s.len() {
        -1
    } else if s[i - 1] == c {
        i - 1
    } else {
        last_before(s, c, i - 1)
    }
}

/// [`last_before`] is the greatest position holding `c`.
pub proof fn lemma_last_before(s: Seq<char>, c: char, i: int)
    requires
        0 <= i <= s.len(),
    ensures
        -1 <= last_before(s, c, i) < i,
        last_before(s, c, i) >= 0 ==> s[last_before(s, c, i)] == c,
        forall|j: int| last_before(s, c, i) < j < i ==> s[j] != c,
    decreases i,
{
    if i > 0 && s[i - 1] != c {
        lemma_last_before(s, c, i - 1);
    }
}

/// Position of the last `c` in `s`.
pub fn find_last(s: &[char], c: char) -> (r: Option<usize>)
    ensures
        r matches Some(k) ==> k < s@.len() && k == last_before(s@, c, s@.len() as int),
        r is None ==> last_before(s@, c, s@.len() as int) == -1,
{
    let mut k: usize = s.len();
    while k > 0
        invariant
            k <= s@.len(),
            last_before(s@, c, s@.len() as int) == last_before(s@, c, k as int),
        decreases k,
    {
        if s[k - 1] == c {
            return Some(k - 1);
        }
        k = k - 1;
    }
    None
}

/// Whether `pat` stands in `s` at position `i`.
pub open spec fn occurs_at(s: Seq<char>, pat: Seq<char>, i: int) -> bool {
    0 <= i && i + pat.len() <= s.len() && s.subrange(i, i + pat.len()) == pat
}

/// Whether `pat` stands in `s` at position `i`.
pub fn matches_at(s: &[char], pat: &[char], i: usize) -> (r: bool)
    requires
        i <= s@.len(),
    ensures
        r == occurs_at(s@, pat@, i as int),
{
    let n: usize = s.len();
    if n - i < pat.len() {
        return false;
    }
    let mut k: usize = 0;
    while k < pat.len()
        invariant
            k <= pat@.len(),
            n == s@.len(),
            i + pat@.len() <= s@.len(),
            forall|j: int| 0 <= j < k ==> s@[i + j] == pat@[j],
        decreases pat@.len() - k,
    {
        if s[i + k] != pat[k] {
            assert(s@.subrange(i as int, i + pat@.len())[k as int] != pat@[k as int]);
            return false;
        }
        k = k + 1;
    }
    assert(s@.subrange(i as int, i + pat@.len()) =~= pat@);
    true
}

/// Whether `s` begins with `pat`.
pub open spec fn begins_with(s: Seq<char>, pat: Seq<char>) -> bool {
    occurs_at(s, pat, 0)
}

/// Whether `s` begins with the text `pat`.
pub fn has_prefix(s: &[char], pat: &str) -> (r: bool)
    ensures
        r == begins_with(s@, pat@),
{
    let p = chars_of(pat);
    matches_at(s, p.as_slice(), 0)
}

/// Position of the first occurrence of `pat` at or after `i`; -1 when there is none.
pub open spec fn first_match(s: Seq<char>, pat: Seq<char>, i: int) -> int
    decreases s.len() + 1 - i,
{
    if i < 0 || i > s.len() {
        -1
    } else if occurs_at(s, pat, i) {
        i
    } else {
        first_match(s, pat, i + 1)
    }
}

/// Position of the first occurrence of `pat` at or after `i`.
pub fn find_text(s: &[char], pat: &[char], i: usize) -> (r: Option<usize>)
    requires
        i <= s@.len(),
    ensures
        r matches Some(k) ==> i <= k && k == first_match(s@, pat@, i as int) && occurs_at(s@, pat@, k as int),
        r is None ==> first_match(s@, pat@, i as int) == -1,
{
    let mut k: usize = i;
    while k < s.len()
        invariant
            i <= k <= s@.len(),
            first_match(s@, pat@, i as int) == first_match(s@, pat@, k as int),
        decreases s@.len() - k,
    {
        if matches_at(s, pat, k) {
            return Some(k);
        }
        k = k + 1;
    }
    if matches_at(s, pat, k) {
        Some(k)
    } else {
        assert(first_match(s@, pat@, k + 1) == -1);
        None
    }
}

/// `s[i..]` with every occurrence of `pat` replaced by `with`, from left to
/// right.
pub open spec fn replaced_from(s: Seq<char>, pat: Seq<char>, with: Seq<char>, i: int) -> Seq<char>
    decreases s.len() - i,
{
    if i < 0 || i >= s.len() {
        Seq::empty()
    } else if pat.len() > 0 && occurs_at(s, pat, i) {
        with + replaced_from(s, pat, with, i + pat.len())
    } else {
        seq![s[i]] + replaced_from(s, pat, with, i + 1)
    }
}

/// `s` with every occurrence of `pat` replaced by `with` (`str::replace`).
pub open spec fn replaced(s: Seq<char>, pat: Seq<char>, with: Seq<char>) -> Seq<char> {
    replaced_from(s, pat, with, 0)
}

/// Replace every occurrence of `pat`, which is not empty.
pub fn replace_all(s: &[char], pat: &str, with: &str) -> (r: Vec<char>)
    requires
        pat@.len() > 0,
    ensures
        r@ == replaced(s@, pat@, with@),
{
    let pattern = chars_of(pat);
    let filler = chars_of(with);
    let mut out: Vec<char> = Vec::new();
    let n: usize = s.len();
    let mut i: usize = 0;
    while i < n
        invariant
            i <= n,
            n == s@.len(),
            pattern@ == pat@,
            filler@ == with@,
            pat@.len() > 0,
            out@ + replaced_from(s@, pat@, with@, i as int) == replaced(s@, pat@, with@),
        decreases n - i,
    {
        let ghost before = out@;
        if matches_at(s, pattern.as_slice(), i) {
            out.extend_from_slice(filler.as_slice());
            assert(out@ =~= before + with@);
            assert(before + replaced_from(s@, pat@, with@, i as int) =~= out@ + replaced_from(
                s@,
                pat@,
                with@,
                i + pat@.len(),
            ));
            assert(i + pattern@.len() <= n);
            i = i + pattern.len();
        } else {
            out.push(s[i]);
            assert(before + replaced_from(s@, pat@, with@, i as int) =~= out@ + replaced_from(
                s@,
                pat@,
                with@,
                i + 1,
            ));
            i = i + 1;
        }
    }
    assert(out@ + replaced_from(s@, pat@, with@, i as int) =~= out@);
    out
}

/// The first position at or after `i` that does not hold `c`.
pub open spec fn run_end(s: Seq<char>, c: char, i: int) -> int
    decreases s.len() - i,
{
    if 0 <= i < s.len() && s[i] == c {
        run_end(s, c, i + 1)
    } else {
        i
    }
}

/// The position behind the last character before `i` that is not `c`.
pub open spec fn run_start(s: Seq<char>, c: char, i: int) -> int
    decreases i,
{
    if 0 < i <= s.len() && s[i - 1] == c {
        run_start(s, c, i - 1)
    } else {
        i
    }
}

/// `s` without the characters `c` at its start (`str::trim_start_matches`).
pub open spec fn strip_start(s: Seq<char>, c: char) -> Seq<char> {
    s.skip(run_end(s, c, 0))
}

/// `s` without the characters `c` at its end (`str::trim_end_matches`).
pub open spec fn strip_end(s: Seq<char>, c: char) -> Seq<char> {
    s.take(run_start(s, c, s.len() as int))
}

/// `s` without the characters `c` at its start.
pub fn stripped_start(s: &[char], c: char) -> (r: &[char])
    ensures
        r@ == strip_start(s@, c),
{
    let mut i: usize = 0;
    while i < s.len() && s[i] == c
        invariant
            i <= s@.len(),
            run_end(s@, c, 0) == run_end(s@, c, i as int),
        decreases s@.len() - i,
    {
        i = i + 1;
    }
    let r = slice_subrange(s, i, s.len());
    assert(r@ =~= strip_start(s@, c));
    r
}

/// `s` without the characters `c` at its end.
pub fn stripped_end(s: &[char], c: char) -> (r: &[char])
    ensures
        r@ == strip_end(s@, c),
{
    let mut i: usize = s.len();
    while i > 0 && s[i - 1] == c
        invariant
            i <= s@.len(),
            run_start(s@, c, s@.len() as int) == run_start(s@, c, i as int),
        decreases i,
    {
        i = i - 1;
    }
    let r = slice_subrange(s, 0, i);
    assert(r@ =~= strip_end(s@, c));
    r
}

// ---------------------------------------------------------------------
// letter case and white space
// ---------------------------------------------------------------------

/// ASCII lower case of one character.
pub open spec fn lower_char(c: char) -> char {
    if 'A' <= c && c <= 'Z' {
        ((c as u32 + 32) as u32) as char
    } else {
        c
    }
}

/// ASCII lower case of a text.
pub open spec fn lower(s: Seq<char>) -> Seq<char> {
    s.map_values(|c: char| lower_char(c))
}

/// ASCII lower case of one character.
pub fn to_lower_char(c: char) -> (r: char)
    ensures
        r == lower_char(c),
{
    if 'A' <= c && c <= 'Z' {
        let b: u8 = c as u8;
        (b + 32) as char
    } else {
        c
    }
}

/// ASCII lower case of a text (`str::to_ascii_lowercase`).
pub fn to_lower(s: &[char]) -> (r: Vec<char>)
    ensures
        r@ == lower(s@),
{
    let mut r: Vec<char> = Vec::new();
    let mut i: usize = 0;
    while i < s.len()
        invariant
            i <= s@.len(),
            r@ == lower(s@.take(i as int)),
        decreases s@.len() - i,
    {
        r.push(to_lower_char(s[i]));
        i = i + 1;
        assert(r@ =~= lower(s@.take(i as int)));
    }
    assert(s@.take(i as int) =~= s@);
    r
}

/// Equality up to ASCII letter case (`str::eq_ignore_ascii_case`).
pub fn same_ignoring_case(a: &[char], b: &str) -> (r: bool)
    ensures
        r == (lower(a@) == lower(b@)),
{
    let x = to_lower(a);
    let b_chars = chars_of(b);
    let y = to_lower(b_chars.as_slice());
    same_chars(x.as_slice(), y.as_slice())
}

/// The Unicode `White_Space` property.
pub open spec fn is_space(c: char) -> bool {
    let u = c as u32;
    ||| 0x9 <= u <= 0xd
    ||| u == 0x20
    ||| u == 0x85
    ||| u == 0xa0
    ||| u == 0x1680
    ||| 0x2000 <= u <= 0x200a
    ||| u == 0x2028
    ||| u == 0x2029
    ||| u == 0x202f
    ||| u == 0x205f
    ||| u == 0x3000
}

/// The Unicode `White_Space` property (`char::is_whitespace`).
pub fn is_space_char(c: char) -> (r: bool)
    ensures
        r == is_space(c),
{
    let u: u32 = c as u32;
    (0x9 <= u && u <= 0xd) || u == 0x20 || u == 0x85 || u == 0xa0 || u == 0x1680 || (0x2000 <= u && u
        <= 0x200a) || u == 0x2028 || u == 0x2029 || u == 0x202f || u == 0x205f || u == 0x3000
}

/// Length of the white space at the front of `s[i..]`, as the position after it.
pub open spec fn space_end(s: Seq<char>, i: int) -> int
    decreases s.len() - i,
{
    if i < 0 || i >= s.len() || !is_space(s[i]) {
        i
    } else {
        space_end(s, i + 1)
    }
}

/// Position before the white space at the end of `s[..i]`.
pub open spec fn space_start(s: Seq<char>, i: int) -> int
    decreases i,
{
    if i <= 0 || i > s.len() || !is_space(s[i - 1]) {
        i
    } else {
        space_start(s, i - 1)
    }
}

/// `s` without the white space at its end.
pub open spec fn trim_end(s: Seq<char>) -> Seq<char> {
    s.take(space_start(s, s.len() as int))
}

/// `s` without the white space at its front.
pub open spec fn trim_start(s: Seq<char>) -> Seq<char> {
    s.skip(space_end(s, 0))
}

/// `s` without the white space at its two ends.
pub open spec fn trim(s: Seq<char>) -> Seq<char> {
    trim_end(trim_start(s))
}

/// [`space_start`] lies in the text.
pub proof fn lemma_space_start(s: Seq<char>, i: int)
    requires
        0 <= i <= s.len(),
    ensures
        0 <= space_start(s, i) <= i,
    decreases i,
{
    if i > 0 && is_space(s[i - 1]) {
        lemma_space_start(s, i - 1);
    }
}

proof fn lemma_space_end(s: Seq<char>, i: int)
    requires
        0 <= i <= s.len(),
    ensures
        i <= space_end(s, i) <= s.len(),
    decreases s.len() - i,
{
    if i < s.len() && is_space(s[i]) {
        lemma_space_end(s, i + 1);
    }
}

/// `s` without the white space at its end (`str::trim_end`).
pub fn trimmed_end(s: &[char]) -> (r: &[char])
    ensures
        r@ == trim_end(s@),
{
    let mut k: usize = s.len();
    while k > 0 && is_space_char(s[k - 1])
        invariant
            k <= s@.len(),
            space_start(s@, s@.len() as int) == space_start(s@, k as int),
        decreases k,
    {
        k = k - 1;
    }
    let r = slice_subrange(s, 0, k);
    assert(r@ =~= trim_end(s@));
    r
}

/// `s` without the white space at its front (`str::trim_start`).
pub fn trimmed_start(s: &[char]) -> (r: &[char])
    ensures
        r@ == trim_start(s@),
{
    let mut k: usize = 0;
    while k < s.len() && is_space_char(s[k])
        invariant
            k <= s@.len(),
            space_end(s@, 0) == space_end(s@, k as int),
        decreases s@.len() - k,
    {
        k = k + 1;
    }
    let r = slice_subrange(s, k, s.len());
    assert(r@ =~= trim_start(s@));
    r
}

/// `s` without the white space at its two ends (`str::trim`).
pub fn trimmed(s: &[char]) -> (r: &[char])
    ensures
        r@ == trim(s@),
{
    trimmed_end(trimmed_start(s))
}

// ---------------------------------------------------------------------
// lines and pieces
// ---------------------------------------------------------------------

/// The texts held by a vector of character vectors.
pub open spec fn views(v: Seq<Vec<char>>) -> Seq<Seq<char>> {
    Seq::new(v.len(), |i: int| v[i]@)
}

/// One line: `s[i..e]`, without the carriage return that stands before a line
/// feed at `e`.
pub open spec fn line_text(s: Seq<char>, i: int, e: int) -> Seq<char> {
    if e < s.len() && i < e && s[e - 1] == '\r' {
        s.subrange(i, e - 1)
    } else {
        s.subrange(i, e)
    }
}

/// The lines of `s[i..]`.  A line ends with a line feed or at the end of the
/// text; nothing follows a final line feed.
pub open spec fn lines_from(s: Seq<char>, i: int) -> Seq<Seq<char>>
    decreases s.len() + 1 - i,
    when 0 <= i
    via lines_from_decreases
{
    if i >= s.len() {
        Seq::empty()
    } else {
        let e = first_from(s, '\n', i);
        seq![line_text(s, i, e)] + lines_from(s, e + 1)
    }
}

#[via_fn]
proof fn lines_from_decreases(s: Seq<char>, i: int) {
    if i < s.len() {
        lemma_first_from(s, '\n', i);
    }
}

/// The lines of `s` (`str::lines`).
pub open spec fn lines(s: Seq<char>) -> Seq<Seq<char>> {
    lines_from(s, 0)
}

/// The lines of `s` (`str::lines`).
pub fn lines_of(s: &[char]) -> (r: Vec<Vec<char>>)
    ensures
        views(r@) == lines(s@),
{
    let mut r: Vec<Vec<char>> = Vec::new();
    let mut i: usize = 0;
    assert(views(r@) + lines_from(s@, 0) =~= lines(s@));
    while i < s.len()
        invariant
            i <= s@.len(),
            views(r@) + lines_from(s@, i as int) == lines(s@),
        decreases s@.len() - i,
    {
        let e: usize = find_from(s, '\n', i);
        let ghost before = views(r@);
        let end: usize = if e < s.len() && i < e && s[e - 1] == '\r' {
            e - 1
        } else {
            e
        };
        let line: Vec<char> = slice_to_vec(slice_subrange(s, i, end));
        assert(line@ =~= line_text(s@, i as int, e as int));
        r.push(line);
        proof {
            assert(views(r@) =~= before + seq![line_text(s@, i as int, e as int)]);
            assert(views(r@) + lines_from(s@, e + 1) =~= before + lines_from(s@, i as int));
        }
        if e < s.len() {
            i = e + 1;
        } else {
            i = e;
            assert(lines_from(s@, e as int) =~= lines_from(s@, e + 1));
        }
    }
    assert(views(r@) =~= lines(s@));
    r
}

/// The pieces of `s[i..]` between the separators `c`; never empty.
pub open spec fn pieces_from(s: Seq<char>, c: char, i: int) -> Seq<Seq<char>>
    decreases s.len() - i,
    when 0 <= i <= s.len()
    via pieces_from_decreases
{
    let e = first_from(s, c, i);
    if e >= s.len() {
        seq![s.subrange(i, s.len() as int)]
    } else {
        seq![s.subrange(i, e)] + pieces_from(s, c, e + 1)
    }
}

#[via_fn]
proof fn pieces_from_decreases(s: Seq<char>, c: char, i: int) {
    lemma_first_from(s, c, i);
}

/// The pieces of `s` between the separators `c` (`str::split`).
pub open spec fn pieces(s: Seq<char>, c: char) -> Seq<Seq<char>> {
    pieces_from(s, c, 0)
}

/// The pieces of `s` between the separators `c` (`str::split`).
pub fn pieces_of(s: &[char], c: char) -> (r: Vec<Vec<char>>)
    ensures
        views(r@) == pieces(s@, c),
        r@.len() > 0,
{
    let mut r: Vec<Vec<char>> = Vec::new();
    let mut i: usize = 0;
    assert(views(r@) + pieces_from(s@, c, 0) =~= pieces(s@, c));
    let mut e: usize = find_from(s, c, i);
    while e < s.len()
        invariant
            i <= e <= s@.len(),
            e == first_from(s@, c, i as int),
            views(r@) + pieces_from(s@, c, i as int) == pieces(s@, c),
        decreases s@.len() - i,
    {
        let ghost before = views(r@);
        let piece: Vec<char> = slice_to_vec(slice_subrange(s, i, e));
        r.push(piece);
        proof {
            assert(views(r@) =~= before + seq![s@.subrange(i as int, e as int)]);
            assert(views(r@) + pieces_from(s@, c, e + 1) =~= before + pieces_from(s@, c, i as int));
        }
        i = e + 1;
        e = find_from(s, c, i);
    }
    let ghost before = views(r@);
    r.push(slice_to_vec(slice_subrange(s, i, s.len())));
    assert(views(r@) =~= before + pieces_from(s@, c, i as int));
    r
}

/// A separator and a piece behind a text add one piece.
proof fn lemma_pieces_push(a: Seq<char>, c: char, b: Seq<char>, i: int)
    requires
        0 <= i <= a.len(),
        !b.contains(c),
    ensures
        pieces_from(a + seq![c] + b, c, i) == pieces_from(a, c, i).push(b),
    decreases a.len() - i,
{
    let s = a + seq![c] + b;
    let n = a.len() as int;
    let e = first_from(a, c, i);
    lemma_first_from(a, c, i);
    if e < n {
        lemma_first_from_is(s, c, i, e);
        lemma_pieces_push(a, c, b, e + 1);
        assert(s.subrange(i, e) =~= a.subrange(i, e));
        assert(seq![a.subrange(i, e)] + pieces_from(a, c, e + 1).push(b) =~= (seq![a.subrange(i, e)]
            + pieces_from(a, c, e + 1)).push(b));
    } else {
        lemma_first_from_is(s, c, i, n);
        assert forall|j: int| n + 1 <= j < s.len() implies s[j] != c by {
            assert(s[j] == b[j - n - 1]);
        }
        lemma_first_from_is(s, c, n + 1, s.len() as int);
        assert(s.subrange(n + 1, s.len() as int) =~= b);
        assert(s.subrange(i, n) =~= a.subrange(i, n));
        assert(pieces_from(s, c, n + 1) =~= seq![b]);
        assert(pieces_from(s, c, i) =~= seq![a.subrange(i, n)] + pieces_from(s, c, n + 1));
        assert(pieces_from(s, c, i) =~= seq![a.subrange(i, n), b]);
        assert(pieces_from(a, c, i).push(b) =~= seq![a.subrange(i, n), b]);
    }
}

/// Splitting a joined list at the separator gives back the list.
pub proof fn lemma_pieces_of_join(items: Seq<Seq<char>>, c: char, n: int)
    requires
        0 < n <= items.len(),
        forall|i: int| 0 <= i < n ==> !(#[trigger] items[i]).contains(c),
    ensures
        pieces(joined(items, seq![c], n), c) == items.take(n),
    decreases n,
{
    if n == 1 {
        let s = items[0];
        assert forall|j: int| 0 <= j < s.len() implies s[j] != c by {}
        lemma_first_from_is(s, c, 0, s.len() as int);
        assert(s.subrange(0, s.len() as int) =~= s);
        assert(pieces(s, c) =~= items.take(1));
    } else {
        lemma_pieces_of_join(items, c, n - 1);
        lemma_pieces_push(joined(items, seq![c], n - 1), c, items[n - 1], 0);
        assert(items.take(n) =~= items.take(n - 1).push(items[n - 1]));
    }
}

proof fn lemma_space_end_is(s: Seq<char>, i: int, k: int)
    requires
        0 <= i <= k < s.len(),
        forall|j: int| i <= j < k ==> is_space(#[trigger] s[j]),
        !is_space(s[k]),
    ensures
        space_end(s, i) == k,
    decreases k - i,
{
    if i < k {
        assert(is_space(s[i]));
        lemma_space_end_is(s, i + 1, k);
    }
}

proof fn lemma_space_start_is(s: Seq<char>, i: int, k: int)
    requires
        0 < k <= i <= s.len(),
        forall|j: int| k <= j < i ==> is_space(#[trigger] s[j]),
        !is_space(s[k - 1]),
    ensures
        space_start(s, i) == k,
    decreases i - k,
{
    if k < i {
        assert(is_space(s[i - 1]));
        lemma_space_start_is(s, i - 1, k);
    }
}

/// Of a text between white space, trimming leaves exactly the text, when the
/// text itself neither starts nor ends with white space.
pub proof fn white_space_around_a_text_is_trimmed(front: Seq<char>, body: Seq<char>, back: Seq<char>)
    requires
        forall|j: int| 0 <= j < front.len() ==> is_space(#[trigger] front[j]),
        forall|j: int| 0 <= j < back.len() ==> is_space(#[trigger] back[j]),
        body.len() > 0,
        !is_space(body[0]),
        !is_space(body.last()),
    ensures
        trim(front + body + back) == body,
        is_space(' ') && is_space('\t') && is_space('\r') && is_space('\n') && !is_space('0') && !is_space('x'),
{
    let s = front + body + back;
    let n = front.len() as int;
    assert forall|j: int| 0 <= j < n implies is_space(#[trigger] s[j]) by {
        assert(s[j] == front[j]);
    }
    assert(s[n] == body[0]);
    lemma_space_end_is(s, 0, n);
    let t = trim_start(s);
    assert(t =~= body + back);
    let k = body.len() as int;
    assert forall|j: int| k <= j < t.len() implies is_space(#[trigger] t[j]) by {
        assert(t[j] == back[j - k]);
    }
    assert(t[k - 1] == body.last());
    lemma_space_start_is(t, t.len() as int, k);
    assert(trim_end(t) =~= body);
}

/// Trimming the end takes the white space behind a text away.
pub proof fn lemma_trimmed_end(body: Seq<char>, back: Seq<char>)
    requires
        forall|j: int| 0 <= j < back.len() ==> is_space(#[trigger] back[j]),
        body.len() > 0,
        !is_space(body.last()),
    ensures
        trim_end(body + back) == body,
{
    let t = body + back;
    let k = body.len() as int;
    assert forall|j: int| k <= j < t.len() implies is_space(#[trigger] t[j]) by {
        assert(t[j] == back[j - k]);
    }
    assert(t[k - 1] == body.last());
    lemma_space_start_is(t, t.len() as int, k);
    assert(trim_end(t) =~= body);
}

/// Of white space alone, trimming leaves nothing.
pub proof fn white_space_alone_is_trimmed_away(s: Seq<char>)
    requires
        forall|j: int| 0 <= j < s.len() ==> is_space(#[trigger] s[j]),
    ensures
        trim(s).len() == 0,
{
    lemma_all_space(s, 0);
    assert(trim_start(s) =~= Seq::<char>::empty());
}

proof fn lemma_all_space(s: Seq<char>, i: int)
    requires
        0 <= i <= s.len(),
        forall|j: int| 0 <= j < s.len() ==> is_space(#[trigger] s[j]),
    ensures
        space_end(s, i) == s.len(),
    decreases s.len() - i,
{
    if i < s.len() {
        assert(is_space(s[i]));
        lemma_all_space(s, i + 1);
    }
}

/// A text is cut at its first separator, which belongs to neither part.
pub proof fn the_first_separator_cuts(a: Seq<char>, c: char, b: Seq<char>)
    requires
        !a.contains(c),
    ensures
        cut(a + seq![c] + b, c) == Some((a, b)),
        cut(a, c) is None,
{
    let s = a + seq![c] + b;
    let n = a.len() as int;
    assert forall|j: int| 0 <= j < n implies s[j] != c && a[j] != c by {
        assert(s[j] == a[j]);
        assert(a.contains(a[j]));
    }
    lemma_first_from_is(s, c, 0, n);
    lemma_first_from_is(a, c, 0, n);
    assert(s.take(n) =~= a);
    assert(s.skip(n + 1) =~= b);
}

proof fn lemma_lines_behind(head: Seq<char>, s: Seq<char>, i: int)
    requires
        0 <= i,
    ensures
        lines_from(head + s, head.len() + i) == lines_from(s, i),
    decreases s.len() + 1 - i,
{
    let t = head + s;
    let n = head.len() as int;
    if i < s.len() {
        let e = first_from(s, '\n', i);
        lemma_first_from(s, '\n', i);
        assert forall|j: int| n + i <= j < n + e implies t[j] != '\n' by {
            assert(t[j] == s[j - n]);
        }
        if e < s.len() {
            assert(t[n + e] == s[e]);
        }
        lemma_first_from_is(t, '\n', n + i, n + e);
        assert(line_text(t, n + i, n + e) =~= line_text(s, i, e));
        lemma_lines_behind(head, s, e + 1);
    }
}

/// A line ends at its line feed, with or without a carriage return, and the
/// lines behind it are those of the rest of the text.
pub proof fn a_line_ends_at_its_feed(line: Seq<char>, rest: Seq<char>)
    requires
        !line.contains('\n'),
        line.len() > 0 ==> line.last() != '\r',
    ensures
        lines(line + seq!['\n'] + rest) == seq![line] + lines(rest),
        lines(line + seq!['\r', '\n'] + rest) == seq![line] + lines(rest),
        line.len() > 0 ==> lines(line) == seq![line],
        lines(Seq::empty()).len() == 0,
{
    let n = line.len() as int;
    let a = line + seq!['\n'];
    let s = a + rest;
    assert forall|j: int| 0 <= j < n implies s[j] != '\n' && line[j] != '\n' by {
        assert(s[j] == line[j]);
        assert(line.contains(line[j]));
    }
    lemma_first_from_is(s, '\n', 0, n);
    if n > 0 {
        assert(s[n - 1] == line.last());
    }
    assert(line_text(s, 0, n) =~= line);
    lemma_lines_behind(a, rest, 0);
    let b = line + seq!['\r', '\n'];
    let t = b + rest;
    assert forall|j: int| 0 <= j < n + 1 implies t[j] != '\n' by {
        if j < n {
            assert(t[j] == line[j]);
        } else {
            assert(t[j] == '\r');
        }
    }
    assert(t[n + 1] == '\n');
    lemma_first_from_is(t, '\n', 0, n + 1);
    assert(t[n] == '\r');
    assert(line_text(t, 0, n + 1) =~= line);
    lemma_lines_behind(b, rest, 0);
    lemma_first_from_is(line, '\n', 0, n);
    if n > 0 {
        assert(line_text(line, 0, n) =~= line);
        assert(lines_from(line, n + 1) =~= Seq::<Seq<char>>::empty());
        assert(lines(line) =~= seq![line]);
    }
}

/// Lower case holds no capital letter, changes nothing else, and takes a
/// capital to the letter at its own place in the alphabet.
pub proof fn lower_case_keeps_the_letters(c: char)
    ensures
        'A' <= c && c <= 'Z' ==> lower_char(c) as int - 'a' as int == c as int - 'A' as int,
        !('A' <= c && c <= 'Z') ==> lower_char(c) == c,
{
    if 'A' <= c && c <= 'Z' {
        assert((c as u32 + 32) as u32 <= 122);
    }
}

proof fn lemma_joined_prefix(items: Seq<Seq<char>>, all: Seq<Seq<char>>, sep: Seq<char>, n: int)
    requires
        0 <= n <= items.len() <= all.len(),
        forall|i: int| 0 <= i < items.len() ==> #[trigger] all[i] == items[i],
    ensures
        joined(all, sep, n) == joined(items, sep, n),
    decreases n,
{
    if n > 0 {
        assert(all[n - 1] == items[n - 1]);
        assert(all[0] == items[0]);
        lemma_joined_prefix(items, all, sep, n - 1);
    }
}

/// One more text is joined behind a separator.
pub proof fn lemma_join_push(items: Seq<Seq<char>>, item: Seq<char>, sep: Seq<char>)
    ensures
        items.len() > 0 ==> join(items.push(item), sep) == join(items, sep) + sep + item,
        items.len() == 0 ==> join(items.push(item), sep) == item,
{
    lemma_joined_prefix(items, items.push(item), sep, items.len() as int);
}

/// The first text stands in front of the others and a separator.
proof fn lemma_joined_front(items: Seq<Seq<char>>, sep: Seq<char>, n: int)
    requires
        1 < n <= items.len(),
    ensures
        joined(items, sep, n) == items[0] + sep + joined(items.drop_first(), sep, n - 1),
    decreases n,
{
    let rest = items.drop_first();
    assert(rest[n - 2] == items[n - 1]);
    if n > 2 {
        lemma_joined_front(items, sep, n - 1);
        assert(joined(items, sep, n) =~= items[0] + sep + joined(rest, sep, n - 1));
    } else {
        assert(joined(items, sep, 1) == items[0]);
        assert(joined(rest, sep, 1) == rest[0]);
    }
}

/// Lines joined by line feeds read back, when none of them is empty, holds a
/// line feed or ends with a carriage return.
pub proof fn joined_lines_read_back(items: Seq<Seq<char>>)
    requires
        items.len() > 0,
        forall|i: int|
            0 <= i < items.len() ==> (#[trigger] items[i]).len() > 0 && !items[i].contains('\n') && items[i].last()
                != '\r',
    ensures
        lines(join(items, seq!['\n'])) == items,
    decreases items.len(),
{
    let first = items[0];
    let rest = items.drop_first();
    if items.len() == 1 {
        a_line_ends_at_its_feed(first, Seq::empty());
        assert(lines(first) =~= items);
    } else {
        lemma_joined_front(items, seq!['\n'], items.len() as int);
        assert forall|i: int| 0 <= i < rest.len() implies (#[trigger] rest[i]).len() > 0 && !rest[i].contains('\n')
            && rest[i].last() != '\r' by {
            assert(rest[i] == items[i + 1]);
        }
        joined_lines_read_back(rest);
        a_line_ends_at_its_feed(first, join(rest, seq!['\n']));
        assert(seq![first] + rest =~= items);
    }
}

} // verus!
