//! Character-level text primitives with exact specifications.
//!
//! Every string the library reads or writes is handled here as a sequence of `char`s:
//! trimming, searching, splitting into lines and words, replacing, and converting
//! numbers to and from decimal. The spec functions say what each operation means on a
//! `Seq<char>`; the executable functions are proved to compute exactly that.
use vstd::prelude::*;

verus! {

broadcast use vstd::seq_lib::group_seq_properties;

// ---------------------------------------------------------------------------------
// Conversions between `str`/`String` and character vectors
// ---------------------------------------------------------------------------------

/// The characters of `s`, one per element.
pub fn chars_of(s: &str) -> (v: Vec<char>)
    ensures
        v@ == s@,
{
    broadcast use vstd::string::group_string_axioms;

    let mut v: Vec<char> = Vec::new();
    for c in it: s.chars()
        invariant
            it.seq() == s@,
            v@ == it.seq().take(it.index()),
    {
        v.push(c);
        assert(v@ == it.seq().take(it.index() + 1));
    }
    v
}

/// Appends one character to a `String` (`String::push`).
#[verifier::external_body]
fn push_char(s: &mut String, c: char)
    ensures
        final(s)@ == old(s)@.push(c),
{
    s.push(c);
}

/// A string holding exactly the given characters.
pub fn string_of(v: &[char]) -> (s: String)
    ensures
        s@ == v@,
{
    let mut s = String::new();
    let mut i: usize = 0;
    while i < v.len()
        invariant
            i <= v.len(),
            s@ == v@.take(i as int),
        decreases v.len() - i,
    {
        push_char(&mut s, v[i]);
        i = i + 1;
        assert(s@ == v@.take(i as int));
    }
    assert(v@.take(v.len() as int) == v@);
    s
}

/// Appends every character of `src` to `dst`.
pub fn push_all(dst: &mut Vec<char>, src: &[char])
    ensures
        final(dst)@ == old(dst)@ + src@,
{
    let mut i: usize = 0;
    while i < src.len()
        invariant
            i <= src.len(),
            dst@ == old(dst)@ + src@.take(i as int),
        decreases src.len() - i,
    {
        dst.push(src[i]);
        i = i + 1;
        assert(dst@ == old(dst)@ + src@.take(i as int));
    }
    assert(src@.take(src.len() as int) == src@);
}

/// Appends the characters of a string slice to `dst`.
pub fn push_str(dst: &mut Vec<char>, src: &str)
    ensures
        final(dst)@ == old(dst)@ + src@,
{
    let v = chars_of(src);
    push_all(dst, &v);
}

/// The text held by each string of a sequence.
pub open spec fn views(v: Seq<String>) -> Seq<Seq<char>> {
    v.map_values(|x: String| x@)
}

/// The text of an optional string.
pub open spec fn opt_view(o: Option<String>) -> Option<Seq<char>> {
    match o {
        Some(s) => Some(s@),
        None => None,
    }
}

/// An owned copy of a string slice.
pub fn owned(s: &str) -> (r: String)
    ensures
        r@ == s@,
{
    s.to_owned()
}

/// A name for the text `String::from_utf8_lossy` makes of a byte sequence.
pub uninterp spec fn utf8_lossy(bytes: Seq<u8>) -> Seq<char>;

/// `String::from_utf8_lossy`: the bytes decoded as UTF-8, each invalid sequence
/// replaced by U+FFFD. The result is a function of the bytes alone; what it is for a
/// given input is left to the name.
#[verifier::external_body]
pub(crate) fn from_utf8_lossy(bytes: &[u8]) -> (s: String)
    ensures
        s@ == utf8_lossy(bytes@),
{
    String::from_utf8_lossy(bytes).into_owned()
}

/// A name for the text `String::from_utf16_lossy` makes of a sequence of UTF-16 code
/// units.
pub uninterp spec fn utf16_lossy(units: Seq<u16>) -> Seq<char>;

/// `String::from_utf16_lossy`: the code units decoded, each unpaired surrogate
/// replaced by U+FFFD. The result is a function of the units alone; what it is for a
/// given input is left to the name.
#[verifier::external_body]
pub(crate) fn from_utf16_lossy(units: &[u16]) -> (s: String)
    ensures
        s@ == utf16_lossy(units@),
{
    String::from_utf16_lossy(units)
}

/// The elements `from..to` of `s`, copied.
pub fn slice_of(s: &[char], from: usize, to: usize) -> (r: Vec<char>)
    requires
        from <= to <= s.len(),
    ensures
        r@ == s@.subrange(from as int, to as int),
{
    let mut r: Vec<char> = Vec::new();
    let mut i: usize = from;
    while i < to
        invariant
            from <= i <= to <= s.len(),
            r@ == s@.subrange(from as int, i as int),
        decreases to - i,
    {
        r.push(s[i]);
        i = i + 1;
        assert(r@ == s@.subrange(from as int, i as int));
    }
    r
}

/// Whether two character sequences are equal.
pub fn chars_eq(a: &[char], b: &[char]) -> (r: bool)
    ensures
        r == (a@ == b@),
{
    if a.len() != b.len() {
        return false;
    }
    let mut i: usize = 0;
    while i < a.len()
        invariant
            a.len() == b.len(),
            i <= a.len(),
            forall|j: int| 0 <= j < i ==> a@[j] == b@[j],
        decreases a.len() - i,
    {
        if a[i] != b[i] {
            return false;
        }
        i = i + 1;
    }
    assert(a@ =~= b@);
    true
}

/// Whether `s` equals the string literal or slice `lit`.
pub fn chars_eq_str(s: &[char], lit: &str) -> (r: bool)
    ensures
        r == (s@ == lit@),
{
    let l = chars_of(lit);
    chars_eq(s, &l)
}

/// Whether two strings hold the same characters.
pub fn str_eq(a: &str, b: &str) -> (r: bool)
    ensures
        r == (a@ == b@),
{
    let l = chars_of(a);
    chars_eq_str(&l, b)
}

// ---------------------------------------------------------------------------------
// Whitespace and trimming
// ---------------------------------------------------------------------------------

/// Unicode `White_Space`, the set `char::is_whitespace` and `str::trim` use.
pub open spec fn is_ws(c: char) -> bool {
    let n = c as u32;
    ||| 9 <= n <= 13
    ||| n == 32
    ||| n == 0x85
    ||| n == 0xA0
    ||| n == 0x1680
    ||| 0x2000 <= n <= 0x200A
    ||| n == 0x2028
    ||| n == 0x2029
    ||| n == 0x202F
    ||| n == 0x205F
    ||| n == 0x3000
}

/// `char::is_whitespace`.
pub fn is_whitespace(c: char) -> (b: bool)
    ensures
        b == is_ws(c),
{
    let n = c as u32;
    (9 <= n && n <= 13) || n == 32 || n == 0x85 || n == 0xA0 || n == 0x1680 || (0x2000 <= n
        && n <= 0x200A) || n == 0x2028 || n == 0x2029 || n == 0x202F || n == 0x205F || n
        == 0x3000
}

/// `s` with leading whitespace removed.
pub open spec fn trim_start(s: Seq<char>) -> Seq<char>
    decreases s.len(),
{
    if s.len() > 0 && is_ws(s[0]) {
        trim_start(s.drop_first())
    } else {
        s
    }
}

/// `s` with trailing whitespace removed.
pub open spec fn trim_end(s: Seq<char>) -> Seq<char>
    decreases s.len(),
{
    if s.len() > 0 && is_ws(s.last()) {
        trim_end(s.drop_last())
    } else {
        s
    }
}

/// `str::trim`.
pub open spec fn trim(s: Seq<char>) -> Seq<char> {
    trim_end(trim_start(s))
}

proof fn lemma_trim_start_skip(s: Seq<char>, i: int)
    requires
        0 <= i <= s.len(),
        forall|j: int| 0 <= j < i ==> is_ws(#[trigger] s[j]),
    ensures
        trim_start(s) == trim_start(s.skip(i)),
    decreases i,
{
    if i > 0 {
        assert(s.skip(1) == s.drop_first());
        lemma_trim_start_skip(s.drop_first(), i - 1);
        assert(s.drop_first().skip(i - 1) == s.skip(i));
    } else {
        assert(s.skip(0) == s);
    }
}

proof fn lemma_trim_end_take(s: Seq<char>, i: int)
    requires
        0 <= i <= s.len(),
        forall|j: int| i <= j < s.len() ==> is_ws(#[trigger] s[j]),
    ensures
        trim_end(s) == trim_end(s.take(i)),
    decreases s.len() - i,
{
    if i < s.len() {
        assert(s.take(s.len() - 1) == s.drop_last());
        lemma_trim_end_take(s.drop_last(), i);
        assert(s.drop_last().take(i) == s.take(i));
    } else {
        assert(s.take(i) == s);
    }
}

/// The index of the first non-whitespace character, or the length when there is none.
fn ws_prefix_len(s: &[char]) -> (n: usize)
    ensures
        n <= s.len(),
        forall|j: int| 0 <= j < n ==> is_ws(#[trigger] s@[j]),
        n < s.len() ==> !is_ws(s@[n as int]),
{
    let mut i: usize = 0;
    while i < s.len() && is_whitespace(s[i])
        invariant
            i <= s.len(),
            forall|j: int| 0 <= j < i ==> is_ws(#[trigger] s@[j]),
        decreases s.len() - i,
    {
        i = i + 1;
    }
    i
}

/// The length left once trailing whitespace is removed.
fn trimmed_end_len(s: &[char]) -> (n: usize)
    ensures
        n <= s.len(),
        forall|j: int| n <= j < s.len() ==> is_ws(#[trigger] s@[j]),
        n > 0 ==> !is_ws(s@[n - 1]),
{
    let mut i: usize = s.len();
    while i > 0 && is_whitespace(s[i - 1])
        invariant
            i <= s.len(),
            forall|j: int| i <= j < s.len() ==> is_ws(#[trigger] s@[j]),
        decreases i,
    {
        i = i - 1;
    }
    i
}

/// `str::trim_start`.
pub fn trim_start_chars(s: &[char]) -> (r: Vec<char>)
    ensures
        r@ == trim_start(s@),
{
    let n = ws_prefix_len(s);
    proof {
        lemma_trim_start_skip(s@, n as int);
        assert(s@.skip(n as int).len() == 0 || !is_ws(s@.skip(n as int)[0]));
    }
    slice_of(s, n, s.len())
}

/// `str::trim_end`.
pub fn trim_end_chars(s: &[char]) -> (r: Vec<char>)
    ensures
        r@ == trim_end(s@),
{
    let n = trimmed_end_len(s);
    proof {
        lemma_trim_end_take(s@, n as int);
        assert(s@.take(n as int).len() == 0 || !is_ws(s@.take(n as int).last()));
    }
    slice_of(s, 0, n)
}

/// `str::trim`.
pub fn trim_chars(s: &[char]) -> (r: Vec<char>)
    ensures
        r@ == trim(s@),
{
    let a = trim_start_chars(s);
    trim_end_chars(&a)
}

/// `s` with every leading and trailing `c` removed (`str::trim_matches` with one char).
pub open spec fn trim_matches(s: Seq<char>, c: char) -> Seq<char>
    decreases s.len(),
{
    if s.len() > 0 && s[0] == c {
        trim_matches(s.drop_first(), c)
    } else if s.len() > 0 && s.last() == c {
        trim_matches(s.drop_last(), c)
    } else {
        s
    }
}

/// `str::trim_matches` for one character.
pub fn trim_matches_chars(s: &[char], c: char) -> (r: Vec<char>)
    ensures
        r@ == trim_matches(s@, c),
    decreases s.len(),
{
    if s.len() > 0 && s[0] == c {
        let rest = slice_of(s, 1, s.len());
        assert(rest@ == s@.drop_first());
        trim_matches_chars(&rest, c)
    } else if s.len() > 0 && s[s.len() - 1] == c {
        let rest = slice_of(s, 0, s.len() - 1);
        assert(rest@ == s@.drop_last());
        trim_matches_chars(&rest, c)
    } else {
        slice_of(s, 0, s.len())
    }
}

/// `s` with every trailing `c` removed (`str::trim_end_matches` with one char).
pub open spec fn trim_end_matches(s: Seq<char>, c: char) -> Seq<char>
    decreases s.len(),
{
    if s.len() > 0 && s.last() == c {
        trim_end_matches(s.drop_last(), c)
    } else {
        s
    }
}

/// `str::trim_end_matches` for one character.
pub fn trim_end_matches_chars(s: &[char], c: char) -> (r: Vec<char>)
    ensures
        r@ == trim_end_matches(s@, c),
{
    let mut n: usize = s.len();
    assert(s@.take(n as int) == s@);
    while n > 0 && s[n - 1] == c
        invariant
            n <= s.len(),
            trim_end_matches(s@, c) == trim_end_matches(s@.take(n as int), c),
        decreases n,
    {
        assert(s@.take(n as int).drop_last() == s@.take(n - 1));
        n = n - 1;
    }
    slice_of(s, 0, n)
}

/// `s` with every leading `c` removed (`str::trim_start_matches` with one char).
pub open spec fn trim_start_matches(s: Seq<char>, c: char) -> Seq<char>
    decreases s.len(),
{
    if s.len() > 0 && s[0] == c {
        trim_start_matches(s.drop_first(), c)
    } else {
        s
    }
}

/// `str::trim_start_matches` for one character.
pub fn trim_start_matches_chars(s: &[char], c: char) -> (r: Vec<char>)
    ensures
        r@ == trim_start_matches(s@, c),
{
    let mut n: usize = 0;
    assert(s@.skip(0) == s@);
    while n < s.len() && s[n] == c
        invariant
            n <= s.len(),
            trim_start_matches(s@, c) == trim_start_matches(s@.skip(n as int), c),
        decreases s.len() - n,
    {
        assert(s@.skip(n as int).drop_first() == s@.skip(n + 1));
        n = n + 1;
    }
    slice_of(s, n, s.len())
}

/// A name for what `str::to_lowercase` makes of a text: Unicode's lowercase mapping,
/// which can change a text's length.
pub uninterp spec fn lowercase(s: Seq<char>) -> Seq<char>;

/// `str::to_lowercase`. The result is a function of the text alone; what it is for a
/// given text is left to the name.
#[verifier::external_body]
pub(crate) fn to_lowercase(s: &str) -> (r: String)
    ensures
        r@ == lowercase(s@),
{
    s.to_lowercase()
}

// ---------------------------------------------------------------------------------
// Prefixes, suffixes and searching
// ---------------------------------------------------------------------------------

/// `str::starts_with`.
pub open spec fn starts_with(s: Seq<char>, p: Seq<char>) -> bool {
    p.len() <= s.len() && s.take(p.len() as int) == p
}

/// `str::ends_with`.
pub open spec fn ends_with(s: Seq<char>, p: Seq<char>) -> bool {
    p.len() <= s.len() && s.skip(s.len() - p.len()) == p
}

/// Whether `p` occurs in `s` at index `i`.
pub open spec fn occurs_at(s: Seq<char>, p: Seq<char>, i: int) -> bool {
    0 <= i && i + p.len() <= s.len() && s.subrange(i, i + p.len()) == p
}

/// The first index at or after `from` where `p` occurs in `s`.
pub open spec fn find_from(s: Seq<char>, p: Seq<char>, from: int) -> Option<int>
    decreases s.len() + 1 - from,
{
    if from < 0 || from + p.len() > s.len() {
        None
    } else if occurs_at(s, p, from) {
        Some(from)
    } else {
        find_from(s, p, from + 1)
    }
}

/// `str::find`.
pub open spec fn find(s: Seq<char>, p: Seq<char>) -> Option<int> {
    find_from(s, p, 0)
}

/// `str::contains`.
pub open spec fn contains(s: Seq<char>, p: Seq<char>) -> bool {
    find(s, p) is Some
}

/// Whether `p` occurs in `s` at index `i`.
pub fn occurs_at_exec(s: &[char], p: &[char], i: usize) -> (r: bool)
    ensures
        r == occurs_at(s@, p@, i as int),
{
    if i > s.len() || p.len() > s.len() - i {
        return false;
    }
    let mut k: usize = 0;
    while k < p.len()
        invariant
            i + p.len() <= s.len(),
            k <= p.len(),
            forall|j: int| 0 <= j < k ==> s@[i + j] == p@[j],
        decreases p.len() - k,
    {
        if s[i + k] != p[k] {
            assert(s@.subrange(i as int, i + p.len())[k as int] != p@[k as int]);
            return false;
        }
        k = k + 1;
    }
    assert(s@.subrange(i as int, i + p.len()) =~= p@);
    true
}

/// `str::starts_with`.
pub fn starts_with_chars(s: &[char], p: &[char]) -> (r: bool)
    ensures
        r == starts_with(s@, p@),
{
    let r = occurs_at_exec(s, p, 0);
    proof {
        if p@.len() <= s@.len() {
            assert(s@.subrange(0, p@.len() as int) == s@.take(p@.len() as int));
        }
    }
    r
}

/// `str::starts_with` against a literal or slice.
pub fn starts_with_str(s: &[char], p: &str) -> (r: bool)
    ensures
        r == starts_with(s@, p@),
{
    let pv = chars_of(p);
    starts_with_chars(s, &pv)
}

/// `str::ends_with`.
pub fn ends_with_chars(s: &[char], p: &[char]) -> (r: bool)
    ensures
        r == ends_with(s@, p@),
{
    if p.len() > s.len() {
        return false;
    }
    let r = occurs_at_exec(s, p, s.len() - p.len());
    proof {
        assert(s@.subrange(s@.len() - p@.len(), s@.len() as int) == s@.skip(
            s@.len() - p@.len(),
        ));
    }
    r
}

/// `str::ends_with` against a literal or slice.
pub fn ends_with_str(s: &[char], p: &str) -> (r: bool)
    ensures
        r == ends_with(s@, p@),
{
    let pv = chars_of(p);
    ends_with_chars(s, &pv)
}

/// The first index at or after `from` where `p` occurs.
pub fn find_from_exec(s: &[char], p: &[char], from: usize) -> (r: Option<usize>)
    ensures
        match r {
            Some(i) => find_from(s@, p@, from as int) == Some(i as int),
            None => find_from(s@, p@, from as int) is None,
        },
{
    if from > s.len() || p.len() > s.len() - from {
        return None;
    }
    if p.len() == 0 {
        assert(s@.subrange(from as int, from as int) =~= p@);
        return Some(from);
    }
    let last = s.len() - p.len();
    let mut i: usize = from;
    while i <= last
        invariant
            p.len() > 0,
            last == s.len() - p.len(),
            from <= i <= last + 1,
            find_from(s@, p@, from as int) == find_from(s@, p@, i as int),
        decreases last + 1 - i,
    {
        if occurs_at_exec(s, p, i) {
            return Some(i);
        }
        i = i + 1;
    }
    None
}

/// `str::find`.
pub fn find_chars(s: &[char], p: &[char]) -> (r: Option<usize>)
    ensures
        match r {
            Some(i) => find(s@, p@) == Some(i as int),
            None => find(s@, p@) is None,
        },
{
    find_from_exec(s, p, 0)
}

/// `str::find` against a literal or slice.
pub fn find_str(s: &[char], p: &str) -> (r: Option<usize>)
    ensures
        match r {
            Some(i) => find(s@, p@) == Some(i as int),
            None => find(s@, p@) is None,
        },
{
    let pv = chars_of(p);
    find_chars(s, &pv)
}

/// `str::contains`.
pub fn contains_str(s: &[char], p: &str) -> (r: bool)
    ensures
        r == contains(s@, p@),
{
    find_str(s, p).is_some()
}

proof fn lemma_find_from_bounds(s: Seq<char>, p: Seq<char>, from: int)
    ensures
        find_from(s, p, from) matches Some(i) ==> from <= i && occurs_at(s, p, i),
        find_from(s, p, from) matches Some(i) ==> forall|j: int|
            from <= j < i ==> !occurs_at(s, p, j),
    decreases s.len() + 1 - from,
{
    if from < 0 || from + p.len() > s.len() {
    } else if occurs_at(s, p, from) {
    } else {
        lemma_find_from_bounds(s, p, from + 1);
    }
}

/// What `find` promises about the index it returns.
pub proof fn lemma_find(s: Seq<char>, p: Seq<char>)
    ensures
        find(s, p) matches Some(i) ==> 0 <= i && i + p.len() <= s.len() && s.subrange(
            i,
            i + p.len(),
        ) == p,
        find(s, p) matches Some(i) ==> forall|j: int| 0 <= j < i ==> !occurs_at(s, p, j),
{
    lemma_find_from_bounds(s, p, 0);
}

// ---------------------------------------------------------------------------------
// Replacement
// ---------------------------------------------------------------------------------

/// `str::replace`: every non-overlapping occurrence of `p`, left to right, becomes `r`.
pub open spec fn replace_all(s: Seq<char>, p: Seq<char>, r: Seq<char>) -> Seq<char>
    decreases s.len(),
{
    if s.len() == 0 || p.len() == 0 {
        s
    } else if starts_with(s, p) {
        r + replace_all(s.skip(p.len() as int), p, r)
    } else {
        seq![s[0]] + replace_all(s.drop_first(), p, r)
    }
}

/// `str::replace` for a non-empty pattern.
pub fn replace_chars(s: &[char], p: &[char], r: &[char]) -> (out: Vec<char>)
    requires
        p.len() > 0,
    ensures
        out@ == replace_all(s@, p@, r@),
{
    let mut out: Vec<char> = Vec::new();
    let mut i: usize = 0;
    assert(s@.skip(0) == s@);
    while i < s.len()
        invariant
            p.len() > 0,
            i <= s.len(),
            out@ + replace_all(s@.skip(i as int), p@, r@) == replace_all(s@, p@, r@),
        decreases s.len() - i,
    {
        let ghost rest = s@.skip(i as int);
        if occurs_at_exec(s, p, i) {
            assert(rest.take(p@.len() as int) == s@.subrange(i as int, i + p@.len()));
            assert(starts_with(rest, p@));
            assert(rest.skip(p@.len() as int) == s@.skip(i + p@.len()));
            push_all(&mut out, r);
            i = i + p.len();
        } else {
            proof {
                if starts_with(rest, p@) {
                    assert(rest.take(p@.len() as int) == s@.subrange(i as int, i + p@.len()));
                }
            }
            assert(rest.drop_first() == s@.skip(i + 1));
            out.push(s[i]);
            i = i + 1;
        }
    }
    assert(s@.skip(i as int).len() == 0);
    out
}

/// `str::replace` with literal pattern and replacement.
pub fn replace_str(s: &[char], p: &str, r: &str) -> (out: Vec<char>)
    requires
        p@.len() > 0,
    ensures
        out@ == replace_all(s@, p@, r@),
{
    let pv = chars_of(p);
    let rv = chars_of(r);
    replace_chars(s, &pv, &rv)
}

/// Each character of `s` replaced by the text `f` gives for it, in order.
pub open spec fn flat_map(s: Seq<char>, f: spec_fn(char) -> Seq<char>) -> Seq<char>
    decreases s.len(),
{
    if s.len() == 0 {
        seq![]
    } else {
        f(s[0]) + flat_map(s.drop_first(), f)
    }
}

/// Mapping every character to itself gives the text back.
pub proof fn lemma_flat_map_identity(s: Seq<char>)
    ensures
        flat_map(s, |c: char| seq![c]) == s,
    decreases s.len(),
{
    if s.len() > 0 {
        lemma_flat_map_identity(s.drop_first());
        assert(seq![s[0]] + s.drop_first() =~= s);
    }
}

/// Replacing a one-character pattern works piece by piece.
pub proof fn lemma_replace_single_concat(x: Seq<char>, y: Seq<char>, t: char, r: Seq<char>)
    ensures
        replace_all(x + y, seq![t], r) == replace_all(x, seq![t], r) + replace_all(
            y,
            seq![t],
            r,
        ),
    decreases x.len(),
{
    let p = seq![t];
    if x.len() == 0 {
        assert(x + y =~= y);
        assert(replace_all(x, p, r) =~= Seq::<char>::empty());
    } else {
        let s = x + y;
        assert(s.take(1) =~= seq![x[0]]);
        assert(x.take(1) =~= seq![x[0]]);
        assert(s.skip(1) =~= x.skip(1) + y);
        assert(s.drop_first() =~= x.drop_first() + y);
        assert(x.skip(1) =~= x.drop_first());
        lemma_replace_single_concat(x.drop_first(), y, t, r);
        if x[0] == t {
            assert(starts_with(s, p));
            assert(starts_with(x, p));
            assert(replace_all(s, p, r) =~= r + replace_all(x.drop_first() + y, p, r));
        } else {
            if starts_with(s, p) {
                assert(s.take(1)[0] == p[0]);
            }
            if starts_with(x, p) {
                assert(x.take(1)[0] == p[0]);
            }
        }
    }
}

/// Replacing a one-character pattern in a text made character by character replaces it
/// in the piece each character became.
pub proof fn lemma_replace_single_flat(
    s: Seq<char>,
    f: spec_fn(char) -> Seq<char>,
    t: char,
    r: Seq<char>,
)
    ensures
        replace_all(flat_map(s, f), seq![t], r) == flat_map(
            s,
            |c: char| replace_all(f(c), seq![t], r),
        ),
    decreases s.len(),
{
    if s.len() == 0 {
        assert(replace_all(flat_map(s, f), seq![t], r) =~= Seq::<char>::empty());
    } else {
        lemma_replace_single_concat(f(s[0]), flat_map(s.drop_first(), f), t, r);
        lemma_replace_single_flat(s.drop_first(), f, t, r);
    }
}

/// A text without the pattern's one character is left as it is.
pub proof fn lemma_replace_single_absent(x: Seq<char>, t: char, r: Seq<char>)
    requires
        forall|i: int| 0 <= i < x.len() ==> x[i] != t,
    ensures
        replace_all(x, seq![t], r) == x,
    decreases x.len(),
{
    if x.len() > 0 {
        assert(x.take(1) =~= seq![x[0]]);
        lemma_replace_single_absent(x.drop_first(), t, r);
        assert(seq![x[0]] + x.drop_first() =~= x);
    }
}

/// Replacing in a text that starts with a piece at which the pattern cannot start, nor
/// anywhere inside it, keeps the piece and replaces in the rest.
proof fn lemma_replace_keeps_piece(x: Seq<char>, y: Seq<char>, p: Seq<char>, r: Seq<char>)
    requires
        p.len() > 0,
        forall|i: int| 0 <= i < x.len() ==> !starts_with(#[trigger] (x + y).skip(i), p),
    ensures
        replace_all(x + y, p, r) == x + replace_all(y, p, r),
    decreases x.len(),
{
    if x.len() == 0 {
        assert(x + y =~= y);
    } else {
        assert((x + y).skip(0) =~= x + y);
        assert((x + y).drop_first() =~= x.drop_first() + y);
        assert forall|i: int| 0 <= i < x.drop_first().len() implies !starts_with(
            #[trigger] (x.drop_first() + y).skip(i),
            p,
        ) by {
            assert((x.drop_first() + y).skip(i) =~= (x + y).skip(i + 1));
        }
        lemma_replace_keeps_piece(x.drop_first(), y, p, r);
        assert(x =~= seq![x[0]] + x.drop_first());
    }
}

/// Replacing a pattern that starts with `&` in a text made character by character, where
/// each piece holds `&` at most at its start and either is the pattern or differs from
/// it at its second or third character, replaces exactly the pieces equal to it.
pub proof fn lemma_replace_entity_flat(
    s: Seq<char>,
    f: spec_fn(char) -> Seq<char>,
    g: spec_fn(char) -> Seq<char>,
    p: Seq<char>,
    r: Seq<char>,
)
    requires
        p.len() >= 3,
        p[0] == '&',
        forall|c: char| (#[trigger] f(c)).len() > 0,
        forall|c: char, i: int| 0 < i < f(c).len() ==> #[trigger] f(c)[i] != '&',
        forall|c: char|
            (#[trigger] f(c) == p && g(c) == r) || (g(c) == f(c) && (f(c)[0] != '&' || (f(
                c,
            ).len() >= 3 && (f(c)[1] != p[1] || f(c)[2] != p[2])))),
    ensures
        replace_all(flat_map(s, f), p, r) == flat_map(s, g),
    decreases s.len(),
{
    if s.len() == 0 {
        assert(replace_all(flat_map(s, f), p, r) =~= Seq::<char>::empty());
    } else {
        let x = f(s[0]);
        let y = flat_map(s.drop_first(), f);
        lemma_replace_entity_flat(s.drop_first(), f, g, p, r);
        if x == p {
            assert(starts_with(x + y, p)) by {
                assert((x + y).take(p.len() as int) =~= p);
            }
            assert((x + y).skip(p.len() as int) =~= y);
        } else {
            assert forall|i: int| 0 <= i < x.len() implies !starts_with(
                #[trigger] (x + y).skip(i),
                p,
            ) by {
                if starts_with((x + y).skip(i), p) {
                    assert((x + y).skip(i).take(p.len() as int)[0] == (x + y)[i]);
                    assert((x + y)[i] == x[i]);
                    if i == 0 {
                        assert((x + y).skip(i).take(p.len() as int)[1] == x[1]);
                        assert((x + y).skip(i).take(p.len() as int)[2] == x[2]);
                    }
                }
            }
            lemma_replace_keeps_piece(x, y, p, r);
        }
    }
}

/// The character sequences held by a vector of character vectors.
pub open spec fn seqs_of(v: Seq<Vec<char>>) -> Seq<Seq<char>> {
    v.map_values(|x: Vec<char>| x@)
}

pub proof fn lemma_seqs_of_push(v: Seq<Vec<char>>, x: Vec<char>)
    ensures
        seqs_of(v.push(x)) == seqs_of(v).push(x@),
{
    assert(seqs_of(v.push(x)) =~= seqs_of(v).push(x@));
}

// ---------------------------------------------------------------------------------
// Lines and words
// ---------------------------------------------------------------------------------

/// One line as `str::lines` yields it: a `\r` directly before the `\n` is dropped.
pub open spec fn strip_cr(l: Seq<char>) -> Seq<char> {
    if l.len() > 0 && l.last() == '\r' {
        l.drop_last()
    } else {
        l
    }
}

/// `str::lines`.
pub open spec fn lines(s: Seq<char>) -> Seq<Seq<char>>
    decreases s.len(),
{
    if s.len() == 0 {
        seq![]
    } else {
        match find(s, seq!['\n']) {
            Some(i) => if 0 <= i < s.len() {
                seq![strip_cr(s.take(i))] + lines(s.skip(i + 1))
            } else {
                seq![s]
            },
            None => seq![s],
        }
    }
}

proof fn lemma_find_newline_concat(s: Seq<char>, t: Seq<char>, from: int)
    requires
        0 <= from,
        find_from(s, seq!['\n'], from) is Some,
    ensures
        find_from(s + t, seq!['\n'], from) == find_from(s, seq!['\n'], from),
    decreases s.len() + 1 - from,
{
    let nl = seq!['\n'];
    if from + 1 > s.len() {
    } else if occurs_at(s, nl, from) {
        assert((s + t).subrange(from, from + 1) =~= s.subrange(from, from + 1));
    } else {
        assert((s + t).subrange(from, from + 1) =~= s.subrange(from, from + 1));
        lemma_find_newline_concat(s, t, from + 1);
    }
}

proof fn lemma_find_newline_absent(s: Seq<char>, from: int)
    requires
        0 <= from,
        forall|k: int| 0 <= k < s.len() ==> s[k] != '\n',
    ensures
        find_from(s, seq!['\n'], from) is None,
    decreases s.len() + 1 - from,
{
    if from + 1 <= s.len() {
        assert(s.subrange(from, from + 1)[0] == s[from]);
        lemma_find_newline_absent(s, from + 1);
    }
}

/// The lines of a text that ends with a newline, followed by more text, are its lines
/// followed by the lines of the rest.
pub proof fn lemma_lines_concat(s: Seq<char>, t: Seq<char>)
    requires
        s.len() > 0,
        s.last() == '\n',
    ensures
        lines(s + t) == lines(s) + lines(t),
    decreases s.len(),
{
    let nl = seq!['\n'];
    assert(occurs_at(s, nl, s.len() - 1)) by {
        assert(s.subrange(s.len() - 1, s.len() as int) =~= nl);
    }
    lemma_find_from_bounds(s, nl, 0);
    lemma_find_first_some(s, nl, 0, s.len() - 1);
    lemma_find_newline_concat(s, t, 0);
    let i = find(s, nl)->0;
    lemma_find(s, nl);
    assert((s + t).take(i) =~= s.take(i));
    let x = strip_cr(s.take(i));
    assert(lines(s + t) == seq![x] + lines((s + t).skip(i + 1)));
    assert(lines(s) == seq![x] + lines(s.skip(i + 1)));
    if i + 1 == s.len() {
        assert((s + t).skip(i + 1) =~= t);
        assert(s.skip(i + 1) =~= Seq::<char>::empty());
        assert(lines(s.skip(i + 1)) =~= Seq::<Seq<char>>::empty());
        assert(lines(s + t) =~= lines(s) + lines(t));
    } else {
        let rest = s.skip(i + 1);
        assert((s + t).skip(i + 1) =~= rest + t);
        assert(rest.last() == '\n');
        lemma_lines_concat(rest, t);
        assert(lines(s + t) =~= lines(s) + lines(t));
    }
}

/// A search from `from` finds something when the pattern occurs at or after it.
pub proof fn lemma_find_first_some(s: Seq<char>, p: Seq<char>, from: int, at: int)
    requires
        0 <= from <= at,
        occurs_at(s, p, at),
    ensures
        find_from(s, p, from) is Some,
    decreases at - from,
{
    if from < at && !occurs_at(s, p, from) {
        lemma_find_first_some(s, p, from + 1, at);
    }
}

/// A single line without a newline, ended by one, is one line (a trailing carriage
/// return dropped).
pub proof fn lemma_one_line(l: Seq<char>)
    requires
        forall|k: int| 0 <= k < l.len() ==> l[k] != '\n',
    ensures
        lines(l + seq!['\n']) == seq![strip_cr(l)],
{
    let s = l + seq!['\n'];
    let nl = seq!['\n'];
    lemma_find_newline_absent(l, 0);
    assert(occurs_at(s, nl, l.len() as int)) by {
        assert(s.subrange(l.len() as int, l.len() + 1 as int) =~= nl);
    }
    lemma_find_first_some(s, nl, 0, l.len() as int);
    lemma_find(s, nl);
    let i = find(s, nl)->0;
    assert(i == l.len()) by {
        if i < l.len() {
            assert(s.subrange(i, i + 1)[0] == s[i]);
            assert(s[i] == l[i]);
        }
        if i > l.len() {
            assert(!occurs_at(s, nl, l.len() as int));
        }
    }
    assert(s.take(i) =~= l);
    assert(s.skip(i + 1) =~= Seq::<char>::empty());
    assert(lines(s) == seq![strip_cr(s.take(i))] + lines(s.skip(i + 1)));
    assert(lines(s.skip(i + 1)) =~= Seq::<Seq<char>>::empty());
    assert(lines(s) =~= seq![strip_cr(l)]);
}

proof fn lemma_trim_start_same(s: Seq<char>)
    ensures
        trim_start(s).len() <= s.len(),
        trim_start(s).len() == s.len() ==> trim_start(s) == s,
    decreases s.len(),
{
    if s.len() > 0 && is_ws(s[0]) {
        lemma_trim_start_same(s.drop_first());
    }
}

proof fn lemma_trim_end_len(s: Seq<char>)
    ensures
        trim_end(s).len() <= s.len(),
        s.len() > 0 && is_ws(s.last()) ==> trim_end(s).len() < s.len(),
    decreases s.len(),
{
    if s.len() > 0 && is_ws(s.last()) {
        lemma_trim_end_len(s.drop_last());
    }
}

/// A trimmed text does not end with a carriage return, so a line holding it alone
/// reads back as it.
pub proof fn lemma_trimmed_has_no_cr(e: Seq<char>)
    requires
        trim(e) == e,
    ensures
        strip_cr(e) == e,
{
    lemma_trim_start_same(e);
    lemma_trim_end_len(trim_start(e));
    if e.len() > 0 && e.last() == '\r' {
        assert(is_ws('\r'));
        if trim_start(e).len() == e.len() {
            assert(trim_start(e) == e);
        }
    }
}

/// `str::lines`.
pub fn lines_of(s: &[char]) -> (ls: Vec<Vec<char>>)
    ensures
        seqs_of(ls@) == lines(s@),
{
    let mut ls: Vec<Vec<char>> = Vec::new();
    let mut rest: Vec<char> = slice_of(s, 0, s.len());
    let nl: Vec<char> = vec!['\n'];
    assert(nl@ == seq!['\n']);
    while rest.len() > 0
        invariant
            nl@ == seq!['\n'],
            seqs_of(ls@) + lines(rest@) == lines(s@),
        decreases rest.len(),
    {
        proof {
            lemma_find(rest@, nl@);
        }
        match find_chars(&rest, &nl) {
            Some(i) => {
                let mut line = slice_of(&rest, 0, i);
                if line.len() > 0 && line[line.len() - 1] == '\r' {
                    line = slice_of(&line, 0, line.len() - 1);
                }
                let next = slice_of(&rest, i + 1, rest.len());
                let ghost old_v = ls@;
                proof {
                    lemma_seqs_of_push(old_v, line);
                }
                ls.push(line);
                rest = next;
            },
            None => {
                let ghost old_v = ls@;
                proof {
                    lemma_seqs_of_push(old_v, rest);
                }
                ls.push(rest);
                rest = Vec::new();
            },
        }
    }
    ls
}

/// The length of the run of non-whitespace characters at the start of `s`.
pub open spec fn word_len(s: Seq<char>) -> nat
    decreases s.len(),
{
    if s.len() == 0 || is_ws(s[0]) {
        0
    } else {
        1 + word_len(s.drop_first())
    }
}

proof fn lemma_word_len(s: Seq<char>)
    ensures
        word_len(s) <= s.len(),
        forall|j: int| 0 <= j < word_len(s) ==> !is_ws(#[trigger] s[j]),
        word_len(s) < s.len() ==> is_ws(s[word_len(s) as int]),
    decreases s.len(),
{
    if s.len() > 0 && !is_ws(s[0]) {
        lemma_word_len(s.drop_first());
        assert forall|j: int| 0 <= j < word_len(s) implies !is_ws(#[trigger] s[j]) by {
            if j > 0 {
                assert(s[j] == s.drop_first()[j - 1]);
            }
        }
    }
}

proof fn lemma_word_len_exact(s: Seq<char>, n: int)
    requires
        0 <= n <= s.len(),
        forall|j: int| 0 <= j < n ==> !is_ws(#[trigger] s[j]),
        n < s.len() ==> is_ws(s[n]),
    ensures
        word_len(s) == n,
    decreases n,
{
    if n > 0 {
        assert forall|j: int| 0 <= j < n - 1 implies !is_ws(#[trigger] s.drop_first()[j]) by {
            assert(s.drop_first()[j] == s[j + 1]);
        }
        lemma_word_len_exact(s.drop_first(), n - 1);
    }
}

/// `str::split_whitespace`.
pub open spec fn words(s: Seq<char>) -> Seq<Seq<char>>
    decreases s.len(),
{
    let t = trim_start(s);
    if t.len() == 0 {
        seq![]
    } else {
        let n = word_len(t);
        if 0 < n <= t.len() && t.len() <= s.len() {
            seq![t.take(n as int)] + words(t.skip(n as int))
        } else {
            seq![]
        }
    }
}

/// The first whitespace-separated word of `s`, or the empty sequence.
pub open spec fn first_word(s: Seq<char>) -> Seq<char> {
    let w = words(s);
    if w.len() > 0 {
        w[0]
    } else {
        seq![]
    }
}

proof fn lemma_trim_start_len(s: Seq<char>)
    ensures
        trim_start(s).len() <= s.len(),
        trim_start(s).len() == 0 || !is_ws(trim_start(s)[0]),
    decreases s.len(),
{
    if s.len() > 0 && is_ws(s[0]) {
        lemma_trim_start_len(s.drop_first());
    }
}

/// `str::split_whitespace`.
pub fn words_of(s: &[char]) -> (ws: Vec<Vec<char>>)
    ensures
        seqs_of(ws@) == words(s@),
{
    let mut ws: Vec<Vec<char>> = Vec::new();
    let mut rest: Vec<char> = slice_of(s, 0, s.len());
    loop
        invariant
            seqs_of(ws@) + words(rest@) == words(s@),
        decreases rest.len(),
    {
        let t = trim_start_chars(&rest);
        proof {
            lemma_trim_start_len(rest@);
        }
        if t.len() == 0 {
            assert(words(rest@) == Seq::<Seq<char>>::empty());
            assert(seqs_of(ws@) == words(s@));
            return ws;
        }
        let mut n: usize = 0;
        while n < t.len() && !is_whitespace(t[n])
            invariant
                n <= t.len(),
                forall|j: int| 0 <= j < n ==> !is_ws(#[trigger] t@[j]),
            decreases t.len() - n,
        {
            n = n + 1;
        }
        proof {
            lemma_word_len_exact(t@, n as int);
        }
        let w = slice_of(&t, 0, n);
        let next = slice_of(&t, n, t.len());
        let ghost old_v = ws@;
        proof {
            lemma_seqs_of_push(old_v, w);
        }
        ws.push(w);
        assert(words(rest@) == seq![t@.take(n as int)] + words(next@));
        rest = next;
    }
}

/// The first whitespace-separated word of `s`.
pub fn first_word_chars(s: &[char]) -> (w: Vec<char>)
    ensures
        w@ == first_word(s@),
{
    let ws = words_of(s);
    if ws.len() > 0 {
        assert(seqs_of(ws@)[0] == ws@[0]@);
        slice_of(&ws[0], 0, ws[0].len())
    } else {
        Vec::new()
    }
}

/// The part of `s` before the first `c`, or all of `s` when there is none.
pub open spec fn before_char(s: Seq<char>, c: char) -> Seq<char> {
    match find(s, seq![c]) {
        Some(i) => s.take(i),
        None => s,
    }
}

/// The first piece of `str::split(c)`.
pub fn before_char_chars(s: &[char], c: char) -> (r: Vec<char>)
    ensures
        r@ == before_char(s@, c),
{
    let pat = vec![c];
    assert(pat@ == seq![c]);
    proof {
        lemma_find(s@, pat@);
    }
    match find_chars(s, &pat) {
        Some(i) => slice_of(s, 0, i),
        None => slice_of(s, 0, s.len()),
    }
}

// ---------------------------------------------------------------------------------
// ASCII helpers
// ---------------------------------------------------------------------------------

/// `char::to_ascii_lowercase`.
pub open spec fn ascii_lower(c: char) -> char {
    if 'A' <= c <= 'Z' {
        ((c as u32) + 32) as char
    } else {
        c
    }
}

/// `char::to_ascii_lowercase`.
pub fn ascii_lower_char(c: char) -> (r: char)
    ensures
        r == ascii_lower(c),
{
    if 'A' <= c && c <= 'Z' {
        let n = (c as u32) + 32;
        assert(0x61 <= n <= 0x7A);
        char_from_ascii(n)
    } else {
        c
    }
}

/// A character in the ASCII range, from its code.
pub(crate) fn char_from_ascii(n: u32) -> (c: char)
    requires
        n < 128,
    ensures
        c as u32 == n,
        c == n as char,
{
    let b: u8 = n as u8;
    b as char
}

/// `str::to_ascii_lowercase`.
pub open spec fn ascii_lowercase(s: Seq<char>) -> Seq<char> {
    s.map_values(|c: char| ascii_lower(c))
}

/// `str::to_ascii_lowercase`.
pub fn ascii_lowercase_chars(s: &[char]) -> (r: Vec<char>)
    ensures
        r@ == ascii_lowercase(s@),
{
    let mut r: Vec<char> = Vec::new();
    let mut i: usize = 0;
    while i < s.len()
        invariant
            i <= s.len(),
            r@ == s@.take(i as int).map_values(|c: char| ascii_lower(c)),
        decreases s.len() - i,
    {
        r.push(ascii_lower_char(s[i]));
        i = i + 1;
        assert(r@ == s@.take(i as int).map_values(|c: char| ascii_lower(c)));
    }
    assert(s@.take(s.len() as int) == s@);
    r
}

/// `str::eq_ignore_ascii_case`.
pub open spec fn eq_ignore_ascii_case(a: Seq<char>, b: Seq<char>) -> bool {
    ascii_lowercase(a) == ascii_lowercase(b)
}

/// `str::eq_ignore_ascii_case`.
pub fn eq_ignore_ascii_case_chars(a: &[char], b: &[char]) -> (r: bool)
    ensures
        r == eq_ignore_ascii_case(a@, b@),
{
    let la = ascii_lowercase_chars(a);
    let lb = ascii_lowercase_chars(b);
    chars_eq(&la, &lb)
}

/// `char::is_ascii_hexdigit`.
pub open spec fn is_hex_digit(c: char) -> bool {
    ('0' <= c <= '9') || ('a' <= c <= 'f') || ('A' <= c <= 'F')
}

/// `char::is_ascii_digit`.
pub open spec fn is_digit(c: char) -> bool {
    '0' <= c <= '9'
}

// ---------------------------------------------------------------------------------
// Decimal numbers
// ---------------------------------------------------------------------------------

/// The ASCII digit for `d < 10`.
pub open spec fn digit_char(d: nat) -> char {
    ((d + 48) as u32) as char
}

/// `n` in decimal, as `u64::to_string` writes it.
pub open spec fn decimal(n: nat) -> Seq<char>
    decreases n,
{
    if n < 10 {
        seq![digit_char(n)]
    } else {
        decimal(n / 10).push(digit_char(n % 10))
    }
}

fn digit_of(d: u64) -> (c: char)
    requires
        d < 10,
    ensures
        c == digit_char(d as nat),
{
    char_from_ascii((d as u32) + 48)
}

/// `u64::to_string`.
pub fn decimal_chars(n: u64) -> (r: Vec<char>)
    ensures
        r@ == decimal(n as nat),
    decreases n,
{
    if n < 10 {
        vec![digit_of(n)]
    } else {
        let mut r = decimal_chars(n / 10);
        r.push(digit_of(n % 10));
        r
    }
}

/// `n` in decimal with a leading `-` when negative, as `i64::to_string` writes it.
pub open spec fn signed_decimal(n: int) -> Seq<char> {
    if n < 0 {
        seq!['-'] + decimal((-n) as nat)
    } else {
        decimal(n as nat)
    }
}

/// `i64::to_string`.
pub fn signed_decimal_chars(n: i64) -> (r: Vec<char>)
    ensures
        r@ == signed_decimal(n as int),
{
    if n < 0 {
        let m: u64 = if n == i64::MIN {
            9223372036854775808u64
        } else {
            (-n) as u64
        };
        let mut r: Vec<char> = vec!['-'];
        let d = decimal_chars(m);
        push_all(&mut r, &d);
        r
    } else {
        decimal_chars(n as u64)
    }
}

/// The value of a run of ASCII digits.
pub open spec fn digits_value(s: Seq<char>) -> nat
    decreases s.len(),
{
    if s.len() == 0 {
        0
    } else {
        digits_value(s.drop_last()) * 10 + ((s.last() as u32) - 48) as nat
    }
}

/// Whether every character of `d` is an ASCII digit.
pub open spec fn all_digits(d: Seq<char>) -> bool {
    forall|j: int| 0 <= j < d.len() ==> is_digit(#[trigger] d[j])
}

/// `s` without one leading `+`.
pub open spec fn unsigned_part(s: Seq<char>) -> Seq<char> {
    if s.len() > 0 && s[0] == '+' {
        s.drop_first()
    } else {
        s
    }
}

/// `u64::from_str`: an optional `+`, then one or more ASCII digits, within range.
pub open spec fn parse_u64(s: Seq<char>) -> Option<u64> {
    let d = unsigned_part(s);
    if d.len() > 0 && all_digits(d) && digits_value(d) <= u64::MAX {
        Some(digits_value(d) as u64)
    } else {
        None
    }
}

proof fn lemma_digits_value_mono(s: Seq<char>, i: int)
    requires
        0 <= i <= s.len(),
        forall|j: int| 0 <= j < s.len() ==> is_digit(#[trigger] s[j]),
    ensures
        digits_value(s.take(i)) <= digits_value(s),
    decreases s.len() - i,
{
    if i < s.len() {
        assert(s.drop_last().take(i) == s.take(i));
        assert forall|j: int| 0 <= j < s.drop_last().len() implies is_digit(
            #[trigger] s.drop_last()[j],
        ) by {
            assert(s.drop_last()[j] == s[j]);
        }
        lemma_digits_value_mono(s.drop_last(), i);
    } else {
        assert(s.take(i) == s);
    }
}

proof fn lemma_digits_value_step(d: Seq<char>, k: int)
    requires
        0 <= k < d.len(),
    ensures
        digits_value(d.take(k + 1)) == digits_value(d.take(k)) * 10 + ((d[k] as u32) - 48) as nat,
{
    assert(d.take(k + 1).drop_last() == d.take(k));
    assert(d.take(k + 1).last() == d[k]);
}

proof fn lemma_parse_overflow(d: Seq<char>, k: int, value: nat, digit: nat)
    requires
        0 <= k < d.len(),
        value == digits_value(d.take(k)),
        digit == ((d[k] as u32) - 48) as nat,
        value * 10 + digit > u64::MAX,
    ensures
        !(all_digits(d) && digits_value(d) <= u64::MAX),
{
    lemma_digits_value_step(d, k);
    if all_digits(d) {
        lemma_digits_value_mono(d, k + 1);
    }
}

/// `u64::from_str`.
pub fn parse_u64_chars(s: &[char]) -> (r: Option<u64>)
    ensures
        r == parse_u64(s@),
{
    let start: usize = if s.len() > 0 && s[0] == '+' {
        1
    } else {
        0
    };
    let d = slice_of(s, start, s.len());
    assert(d@ == unsigned_part(s@));
    if d.len() == 0 {
        return None;
    }
    let mut i: usize = 0;
    let mut value: u64 = 0;
    while i < d.len()
        invariant
            i <= d.len(),
            d@ == unsigned_part(s@),
            forall|j: int| 0 <= j < i ==> is_digit(#[trigger] d@[j]),
            value as nat == digits_value(d@.take(i as int)),
        decreases d.len() - i,
    {
        let c = d[i];
        if !('0' <= c && c <= '9') {
            assert(!is_digit(d@[i as int]));
            return None;
        }
        let digit = (c as u64) - 48;
        proof {
            lemma_digits_value_step(d@, i as int);
        }
        if value > (u64::MAX - digit) / 10 {
            assert(value * 10 + digit > u64::MAX) by (nonlinear_arith)
                requires
                    value > (u64::MAX - digit) / 10,
                    digit < 10,
            ;
            proof {
                lemma_parse_overflow(d@, i as int, value as nat, digit as nat);
            }
            return None;
        }
        assert(value * 10 + digit <= u64::MAX) by (nonlinear_arith)
            requires
                value <= (u64::MAX - digit) / 10,
                digit < 10,
        ;
        value = value * 10 + digit;
        i = i + 1;
    }
    assert(d@.take(i as int) == d@);
    Some(value)
}

} // verus!
