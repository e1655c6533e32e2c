//! Character-level text toolkit.
//!
//! Every routine works on sequences of `char` and is stated against a spec
//! function over `Seq<char>` that says what the matching `str` operation of
//! the standard library yields (`trim`, `find`, `contains`, `replace`,
//! `lines`, `split_whitespace`, `join`, byte length in UTF-8, and decimal
//! rendering of integers).
use vstd::prelude::*;
use vstd::std_specs::iter::IteratorSpec;

verus! {

// ===================================================================
// Characters
// ===================================================================

/// `char::is_whitespace`: the Unicode `White_Space` property.
pub open spec fn is_ws(c: char) -> bool {
    let u = c as u32;
    (0x09 <= u && u <= 0x0D) || u == 0x20 || u == 0x85 || u == 0xA0 || u == 0x1680
        || (0x2000 <= u && u <= 0x200A) || u == 0x2028 || u == 0x2029 || u == 0x202F
        || u == 0x205F || u == 0x3000
}

/// `char::is_ascii_whitespace`: space, tab, line feed, form feed, carriage return.
pub open spec fn is_ascii_ws(c: char) -> bool {
    c == ' ' || c == '\t' || c == '\n' || c == '\x0C' || c == '\r'
}

/// `char::is_ascii_digit`.
pub open spec fn is_digit(c: char) -> bool {
    '0' <= c && c <= '9'
}

/// `char::len_utf8`: the number of bytes of the character in UTF-8.
pub open spec fn utf8_width(c: char) -> nat {
    let u = c as u32;
    if u < 0x80 {
        1
    } else if u < 0x800 {
        2
    } else if u < 0x10000 {
        3
    } else {
        4
    }
}

/// `str::len`: the number of bytes of the text in UTF-8.
pub open spec fn utf8_len(s: Seq<char>) -> nat
    decreases s.len(),
{
    if s.len() == 0 {
        0
    } else {
        utf8_len(s.drop_last()) + utf8_width(s.last())
    }
}

pub fn is_ws_char(c: char) -> (b: bool)
    ensures
        b == is_ws(c),
{
    let u = c as u32;
    (0x09 <= u && u <= 0x0D) || u == 0x20 || u == 0x85 || u == 0xA0 || u == 0x1680 || (0x2000
        <= u && u <= 0x200A) || u == 0x2028 || u == 0x2029 || u == 0x202F || u == 0x205F || u
        == 0x3000
}

pub fn is_digit_char(c: char) -> (b: bool)
    ensures
        b == is_digit(c),
{
    '0' <= c && c <= '9'
}

pub fn utf8_width_of(c: char) -> (w: usize)
    ensures
        w == utf8_width(c),
        1 <= w <= 4,
{
    let u = c as u32;
    if u < 0x80 {
        1
    } else if u < 0x800 {
        2
    } else if u < 0x10000 {
        3
    } else {
        4
    }
}

// ===================================================================
// Conversions between `str`, `String` and `Vec<char>`
// ===================================================================

/// `String::push` (std): appends the character to the end of the string, as
/// its documentation says; the contract claims exactly that of the view.
#[verifier::external_body]
fn push_char(s: &mut String, c: char)
    ensures
        final(s)@ == old(s)@.push(c),
{
    s.push(c);
}

/// The characters of a string slice, in order.
pub fn chars_of(s: &str) -> (v: Vec<char>)
    ensures
        v@ == s@,
{
    broadcast use vstd::string::group_string_axioms;

    let mut v: Vec<char> = Vec::new();
    for c in it: s.chars()
        invariant
            it.seq() == s@,
            v@ == s@.take(it.index() as int),
    {
        v.push(c);
    }
    v
}

/// The string made of the given characters.
pub fn string_of(v: &Vec<char>) -> (s: String)
    ensures
        s@ == v@,
{
    let mut s = String::new();
    let mut i: usize = 0;
    while i < v.len()
        invariant
            i <= v.len(),
            s@ == v@.take(i as int),
        decreases v.len() - i,
    {
        push_char(&mut s, v[i]);
        i = i + 1;
        assert(s@ == v@.take(i as int));
    }
    assert(v@.take(v.len() as int) == v@);
    s
}

/// Appends the characters of `t` to `v`.
pub fn extend(v: &mut Vec<char>, t: &Vec<char>)
    ensures
        final(v)@ == old(v)@ + t@,
{
    let mut i: usize = 0;
    while i < t.len()
        invariant
            i <= t.len(),
            v@ == old(v)@ + t@.take(i as int),
        decreases t.len() - i,
    {
        v.push(t[i]);
        i = i + 1;
        assert(v@ == old(v)@ + t@.take(i as int));
    }
    assert(t@.take(t.len() as int) == t@);
}

/// Appends the characters of the string slice `t` to `v`.
pub fn extend_str(v: &mut Vec<char>, t: &str)
    ensures
        final(v)@ == old(v)@ + t@,
{
    let c = chars_of(t);
    extend(v, &c);
}

/// A copy of the characters `s[from..to]`.
pub fn slice(s: &Vec<char>, from: usize, to: usize) -> (r: Vec<char>)
    requires
        from <= to <= s.len(),
    ensures
        r@ == s@.subrange(from as int, to as int),
{
    let mut r: Vec<char> = Vec::new();
    let mut i: usize = from;
    while i < to
        invariant
            from <= i <= to <= s.len(),
            r@ == s@.subrange(from as int, i as int),
        decreases to - i,
    {
        r.push(s[i]);
        i = i + 1;
        assert(r@ == s@.subrange(from as int, i as int));
    }
    r
}

/// Whether two character sequences are equal.
pub fn same(a: &Vec<char>, b: &Vec<char>) -> (r: bool)
    ensures
        r == (a@ == b@),
{
    if a.len() != b.len() {
        return false;
    }
    let mut i: usize = 0;
    while i < a.len()
        invariant
            a.len() == b.len(),
            i <= a.len(),
            a@.take(i as int) == b@.take(i as int),
        decreases a.len() - i,
    {
        if a[i] != b[i] {
            assert(a@[i as int] != b@[i as int]);
            return false;
        }
        i = i + 1;
        assert(a@.take(i as int) =~= b@.take(i as int));
    }
    assert(a@ =~= a@.take(a.len() as int));
    assert(b@ =~= b@.take(b.len() as int));
    true
}

/// Whether a character sequence equals the string slice `t`.
pub fn same_str(a: &Vec<char>, t: &str) -> (r: bool)
    ensures
        r == (a@ == t@),
{
    let c = chars_of(t);
    same(a, &c)
}

// ===================================================================
// Prefixes, suffixes and search
// ===================================================================

/// `p` occurs in `s` at position `i`.
pub open spec fn match_at(s: Seq<char>, p: Seq<char>, i: int) -> bool {
    0 <= i && i + p.len() <= s.len() && s.subrange(i, i + p.len()) == p
}

/// `str::starts_with`.
pub open spec fn starts_with(s: Seq<char>, p: Seq<char>) -> bool {
    match_at(s, p, 0)
}

/// `str::ends_with`.
pub open spec fn ends_with(s: Seq<char>, p: Seq<char>) -> bool {
    p.len() <= s.len() && match_at(s, p, s.len() - p.len())
}

/// The first position at or after `i` where `p` occurs in `s`.
pub open spec fn find_from(s: Seq<char>, p: Seq<char>, i: int) -> Option<int>
    decreases s.len() - i,
{
    if i < 0 || i + p.len() > s.len() {
        None
    } else if match_at(s, p, i) {
        Some(i)
    } else if i >= s.len() {
        None
    } else {
        find_from(s, p, i + 1)
    }
}

/// `str::find`: the first position where `p` occurs in `s`, counted in characters.
pub open spec fn find(s: Seq<char>, p: Seq<char>) -> Option<int> {
    find_from(s, p, 0)
}

/// `str::contains`.
pub open spec fn contains(s: Seq<char>, p: Seq<char>) -> bool {
    find(s, p) is Some
}

pub proof fn lemma_find_from_bounds(s: Seq<char>, p: Seq<char>, i: int)
    requires
        0 <= i,
    ensures
        find_from(s, p, i) matches Some(k) ==> i <= k && match_at(s, p, k) && (forall|j: int|
            i <= j < k ==> !match_at(s, p, j)),
        find_from(s, p, i) is None ==> (forall|j: int| i <= j ==> !match_at(s, p, j)),
    decreases s.len() - i,
{
    if i < 0 || i + p.len() > s.len() {
    } else if match_at(s, p, i) {
    } else if i >= s.len() {
    } else {
        lemma_find_from_bounds(s, p, i + 1);
    }
}

/// Whether `p` occurs in `s` at position `i`.
pub fn matches_at(s: &Vec<char>, p: &Vec<char>, i: usize) -> (r: bool)
    ensures
        r == match_at(s@, p@, i as int),
{
    if i > s.len() || p.len() > s.len() - i {
        return false;
    }
    let mut k: usize = 0;
    while k < p.len()
        invariant
            i + p.len() <= s.len(),
            k <= p.len(),
            s@.subrange(i as int, i + k) == p@.take(k as int),
        decreases p.len() - k,
    {
        if s[i + k] != p[k] {
            assert(s@.subrange(i as int, i + p.len())[k as int] != p@[k as int]);
            return false;
        }
        k = k + 1;
        assert(s@.subrange(i as int, i + k) =~= p@.take(k as int));
    }
    assert(p@.take(p.len() as int) == p@);
    true
}

/// `str::find`, with the position counted in characters.
pub fn find_chars(s: &Vec<char>, p: &Vec<char>) -> (r: Option<usize>)
    ensures
        r matches Some(k) ==> find(s@, p@) == Some(k as int),
        r is None ==> find(s@, p@) is None,
{
    if p.len() > s.len() {
        return None;
    }
    let mut i: usize = 0;
    while i <= s.len() - p.len()
        invariant
            p.len() <= s.len(),
            i <= s.len() - p.len() + 1,
            find(s@, p@) == find_from(s@, p@, i as int),
        decreases s.len() + 1 - i,
    {
        if matches_at(s, p, i) {
            return Some(i);
        }
        if i == s.len() - p.len() {
            assert(find_from(s@, p@, i + 1) is None);
            return None;
        }
        i = i + 1;
    }
    None
}

pub fn find_str(s: &Vec<char>, p: &str) -> (r: Option<usize>)
    ensures
        r matches Some(k) ==> find(s@, p@) == Some(k as int),
        r is None ==> find(s@, p@) is None,
{
    let pc = chars_of(p);
    find_chars(s, &pc)
}

/// `str::contains`.
pub fn has(s: &Vec<char>, p: &str) -> (r: bool)
    ensures
        r == contains(s@, p@),
{
    let pc = chars_of(p);
    find_chars(s, &pc).is_some()
}

/// `str::contains` with a pattern given as characters.
pub fn has_chars(s: &Vec<char>, p: &Vec<char>) -> (r: bool)
    ensures
        r == contains(s@, p@),
{
    find_chars(s, p).is_some()
}

/// `str::starts_with`.
pub fn begins_with(s: &Vec<char>, p: &str) -> (r: bool)
    ensures
        r == starts_with(s@, p@),
{
    let pc = chars_of(p);
    matches_at(s, &pc, 0)
}

/// `str::ends_with`.
pub fn finishes_with(s: &Vec<char>, p: &str) -> (r: bool)
    ensures
        r == ends_with(s@, p@),
{
    let pc = chars_of(p);
    if pc.len() > s.len() {
        false
    } else {
        matches_at(s, &pc, s.len() - pc.len())
    }
}

// ===================================================================
// Trimming
// ===================================================================

/// The first position at or after `i` that holds no whitespace.
pub open spec fn skip_ws(s: Seq<char>, i: int) -> int
    decreases s.len() - i,
{
    if i < 0 || i >= s.len() || !is_ws(s[i]) {
        i
    } else {
        skip_ws(s, i + 1)
    }
}

/// The end of `s.take(j)` once trailing whitespace is dropped.
pub open spec fn back_ws(s: Seq<char>, j: int) -> int
    decreases j,
{
    if j <= 0 || j > s.len() || !is_ws(s[j - 1]) {
        j
    } else {
        back_ws(s, j - 1)
    }
}

/// `str::trim_start`.
pub open spec fn trim_start(s: Seq<char>) -> Seq<char> {
    s.skip(skip_ws(s, 0))
}

/// `str::trim_end`.
pub open spec fn trim_end(s: Seq<char>) -> Seq<char> {
    s.take(back_ws(s, s.len() as int))
}

/// `str::trim`.
pub open spec fn trim(s: Seq<char>) -> Seq<char> {
    trim_end(trim_start(s))
}

pub proof fn lemma_skip_ws_bounds(s: Seq<char>, i: int)
    requires
        0 <= i <= s.len(),
    ensures
        i <= skip_ws(s, i) <= s.len(),
        forall|k: int| i <= k < skip_ws(s, i) ==> is_ws(#[trigger] s[k]),
        skip_ws(s, i) < s.len() ==> !is_ws(s[skip_ws(s, i)]),
    decreases s.len() - i,
{
    if i < s.len() && is_ws(s[i]) {
        lemma_skip_ws_bounds(s, i + 1);
    }
}

pub proof fn lemma_back_ws_bounds(s: Seq<char>, j: int)
    requires
        0 <= j <= s.len(),
    ensures
        0 <= back_ws(s, j) <= j,
        forall|k: int| back_ws(s, j) <= k < j ==> is_ws(#[trigger] s[k]),
        back_ws(s, j) > 0 ==> !is_ws(s[back_ws(s, j) - 1]),
    decreases j,
{
    if j > 0 && is_ws(s[j - 1]) {
        lemma_back_ws_bounds(s, j - 1);
    }
}

/// What `trim` gives has no whitespace at either end.
pub proof fn lemma_trim_ends(s: Seq<char>)
    ensures
        trim(s).len() > 0 ==> !is_ws(trim(s)[0]) && !is_ws(trim(s).last()),
        trim(s).len() <= s.len(),
{
    let a = skip_ws(s, 0);
    lemma_skip_ws_bounds(s, 0);
    let t = s.skip(a);
    lemma_back_ws_bounds(t, t.len() as int);
    let b = back_ws(t, t.len() as int);
    if b > 0 {
        assert(t[0] == s[a]);
        if b == 0 {
        }
        assert(!is_ws(t[b - 1]));
        if a < s.len() {
            assert(!is_ws(s[a]));
        }
    }
}

/// The concatenation of a sequence of texts.
pub open spec fn concat_all(ts: Seq<Seq<char>>) -> Seq<char>
    decreases ts.len(),
{
    if ts.len() == 0 {
        seq![]
    } else {
        concat_all(ts.drop_last()) + ts.last()
    }
}

pub proof fn lemma_concat_push(x: Seq<Seq<char>>, e: Seq<char>)
    ensures
        concat_all(x.push(e)) == concat_all(x) + e,
{
    assert(x.push(e).drop_last() =~= x);
}

pub proof fn lemma_concat_prepend(e: Seq<char>, x: Seq<Seq<char>>)
    ensures
        concat_all(seq![e] + x) == e + concat_all(x),
    decreases x.len(),
{
    if x.len() == 0 {
        assert(seq![e] + x =~= seq![e]);
        assert(seq![e].drop_last() =~= Seq::<Seq<char>>::empty());
        assert(concat_all(seq![e]) == concat_all(seq![e].drop_last()) + seq![e].last());
        assert(Seq::<char>::empty() + e =~= e);
        assert(e + Seq::<char>::empty() =~= e);
    } else {
        lemma_concat_prepend(e, x.drop_last());
        assert((seq![e] + x).drop_last() =~= seq![e] + x.drop_last());
        assert((seq![e] + x).last() == x.last());
        assert(e + concat_all(x.drop_last()) + x.last() =~= e + (concat_all(x.drop_last())
            + x.last()));
    }
}

pub proof fn lemma_concat_append(a: Seq<Seq<char>>, b: Seq<Seq<char>>)
    ensures
        concat_all(a + b) == concat_all(a) + concat_all(b),
    decreases b.len(),
{
    if b.len() == 0 {
        assert(a + b =~= a);
        assert(concat_all(a) + Seq::<char>::empty() =~= concat_all(a));
    } else {
        lemma_concat_append(a, b.drop_last());
        assert((a + b).drop_last() =~= a + b.drop_last());
        assert((a + b).last() == b.last());
        assert(concat_all(a) + concat_all(b.drop_last()) + b.last() =~= concat_all(a) + (
        concat_all(b.drop_last()) + b.last()));
    }
}

/// Every character is whitespace.
pub open spec fn all_ws(s: Seq<char>) -> bool {
    forall|j: int| 0 <= j < s.len() ==> is_ws(#[trigger] s[j])
}

/// A text trims to nothing exactly when it is all whitespace.
pub proof fn lemma_trim_empty(s: Seq<char>)
    ensures
        (trim(s).len() == 0) == all_ws(s),
{
    let a = skip_ws(s, 0);
    lemma_skip_ws_bounds(s, 0);
    let t = s.skip(a);
    lemma_back_ws_bounds(t, t.len() as int);
    if a < s.len() {
        assert(!is_ws(s[a]));
        assert(t[0] == s[a]);
        assert(back_ws(t, t.len() as int) > 0);
        assert(!all_ws(s));
    } else {
        assert(t.len() == 0);
        assert forall|j: int| 0 <= j < s.len() implies is_ws(#[trigger] s[j]) by {}
    }
}

/// `str::trim` on characters.
pub fn trim_chars(s: &Vec<char>) -> (r: Vec<char>)
    ensures
        r@ == trim(s@),
{
    let mut i: usize = 0;
    while i < s.len() && is_ws_char(s[i])
        invariant
            i <= s.len(),
            skip_ws(s@, 0) == skip_ws(s@, i as int),
        decreases s.len() - i,
    {
        i = i + 1;
    }
    let ghost t = s@.skip(i as int);
    let mut j: usize = s.len();
    while j > i && is_ws_char(s[j - 1])
        invariant
            i <= j <= s.len(),
            t == s@.skip(i as int),
            back_ws(t, t.len() as int) == back_ws(t, j - i),
        decreases j,
    {
        assert(t[j - i - 1] == s@[j - 1]);
        j = j - 1;
    }
    proof {
        if j > i {
            assert(t[j - i - 1] == s@[j - 1]);
        }
    }
    let r = slice(s, i, j);
    assert(r@ =~= t.take(j - i));
    r
}

/// `str::trim` from a string slice to characters.
pub fn trim_str(s: &str) -> (r: Vec<char>)
    ensures
        r@ == trim(s@),
{
    let c = chars_of(s);
    trim_chars(&c)
}

/// `str::trim_start_matches` with a string pattern: drops every leading copy of `p`.
pub open spec fn trim_start_matches(s: Seq<char>, p: Seq<char>) -> Seq<char>
    decreases s.len(),
{
    if p.len() > 0 && starts_with(s, p) {
        trim_start_matches(s.skip(p.len() as int), p)
    } else {
        s
    }
}

pub fn trim_start_matches_chars(s: &Vec<char>, p: &Vec<char>) -> (r: Vec<char>)
    ensures
        r@ == trim_start_matches(s@, p@),
{
    let mut i: usize = 0;
    assert(s@.skip(0) =~= s@);
    while p.len() > 0 && i <= s.len() && p.len() <= s.len() - i && matches_at(s, p, i)
        invariant
            i <= s.len(),
            trim_start_matches(s@, p@) == trim_start_matches(s@.skip(i as int), p@),
        decreases s.len() - i,
    {
        assert(starts_with(s@.skip(i as int), p@)) by {
            assert(s@.skip(i as int).subrange(0, p.len() as int) =~= s@.subrange(
                i as int,
                i + p.len(),
            ));
        }
        assert(s@.skip(i as int).skip(p.len() as int) =~= s@.skip(i + p.len()));
        i = i + p.len();
    }
    proof {
        let t = s@.skip(i as int);
        if p.len() > 0 && starts_with(t, p@) {
            assert(t.subrange(0, p.len() as int) =~= s@.subrange(i as int, i + p.len()));
            assert(match_at(s@, p@, i as int));
        }
    }
    slice(s, i, s.len())
}

// ===================================================================
// Replacing and filtering
// ===================================================================

/// `str::replace` from position `i` on: every non-overlapping occurrence of
/// `f`, leftmost first, becomes `t`.
pub open spec fn replace_from(s: Seq<char>, f: Seq<char>, t: Seq<char>, i: int) -> Seq<char>
    decreases s.len() - i,
{
    if i < 0 || i >= s.len() || f.len() == 0 {
        s.skip(i)
    } else if match_at(s, f, i) {
        t + replace_from(s, f, t, i + f.len())
    } else {
        seq![s[i]] + replace_from(s, f, t, i + 1)
    }
}

/// `str::replace` for a non-empty pattern.
pub open spec fn replace(s: Seq<char>, f: Seq<char>, t: Seq<char>) -> Seq<char> {
    replace_from(s, f, t, 0)
}

pub fn replace_chars(s: &Vec<char>, f: &Vec<char>, t: &Vec<char>) -> (r: Vec<char>)
    requires
        f.len() > 0,
    ensures
        r@ == replace(s@, f@, t@),
{
    let mut out: Vec<char> = Vec::new();
    let mut i: usize = 0;
    while i < s.len()
        invariant
            f.len() > 0,
            i <= s.len(),
            out@ + replace_from(s@, f@, t@, i as int) == replace(s@, f@, t@),
        decreases s.len() - i,
    {
        if matches_at(s, f, i) {
            extend(&mut out, t);
            i = i + f.len();
        } else {
            out.push(s[i]);
            i = i + 1;
        }
    }
    assert(replace_from(s@, f@, t@, i as int) =~= Seq::<char>::empty());
    assert(out@ + Seq::<char>::empty() =~= out@);
    out
}

/// `str::replace` with string slice arguments.
pub fn replace_str(s: &Vec<char>, f: &str, t: &str) -> (r: Vec<char>)
    requires
        f@.len() > 0,
    ensures
        r@ == replace(s@, f@, t@),
{
    let fc = chars_of(f);
    let tc = chars_of(t);
    replace_chars(s, &fc, &tc)
}

// ===================================================================
// Lines and words
// ===================================================================

/// Drops one trailing carriage return.
pub open spec fn strip_cr(s: Seq<char>) -> Seq<char> {
    if s.len() > 0 && s.last() == '\r' {
        s.drop_last()
    } else {
        s
    }
}

/// `str::lines`, scanning from `i` with the current line begun at `start`.
pub open spec fn lines_from(s: Seq<char>, i: int, start: int) -> Seq<Seq<char>>
    decreases s.len() - i,
{
    if i < 0 || i >= s.len() {
        if 0 <= start < s.len() {
            seq![s.subrange(start, s.len() as int)]
        } else {
            seq![]
        }
    } else if s[i] == '\n' {
        seq![strip_cr(s.subrange(start, i))] + lines_from(s, i + 1, i + 1)
    } else {
        lines_from(s, i + 1, start)
    }
}

/// `str::lines`: the text cut at each line feed, a carriage return before a
/// line feed dropped, and no empty line after a final line feed.
pub open spec fn lines(s: Seq<char>) -> Seq<Seq<char>> {
    lines_from(s, 0, 0)
}

pub fn lines_of(s: &Vec<char>) -> (r: Vec<Vec<char>>)
    ensures
        r@.map_values(|l: Vec<char>| l@) == lines(s@),
{
    let mut out: Vec<Vec<char>> = Vec::new();
    let mut start: usize = 0;
    let mut i: usize = 0;
    while i < s.len()
        invariant
            start <= i <= s.len(),
            out@.map_values(|l: Vec<char>| l@) + lines_from(s@, i as int, start as int) == lines(
                s@,
            ),
        decreases s.len() - i,
    {
        if s[i] == '\n' {
            let mut line = slice(s, start, i);
            if line.len() > 0 && line[line.len() - 1] == '\r' {
                line.pop();
            }
            let ghost before = out@.map_values(|l: Vec<char>| l@);
            assert(line@ == strip_cr(s@.subrange(start as int, i as int)));
            out.push(line);
            assert(out@.map_values(|l: Vec<char>| l@) =~= before.push(line@));
            start = i + 1;
        }
        i = i + 1;
    }
    if start < s.len() {
        let line = slice(s, start, s.len());
        let ghost before = out@.map_values(|l: Vec<char>| l@);
        out.push(line);
        assert(out@.map_values(|l: Vec<char>| l@) =~= before.push(line@));
    } else {
        assert(out@.map_values(|l: Vec<char>| l@) + Seq::<Seq<char>>::empty() =~= out@.map_values(
            |l: Vec<char>| l@,
        ));
    }
    out
}

/// `str::split_whitespace`, scanning from `i` with the current word begun at `start`.
pub open spec fn words_from(s: Seq<char>, i: int, start: int) -> Seq<Seq<char>>
    decreases s.len() - i,
{
    if i < 0 || i >= s.len() {
        if 0 <= start < s.len() {
            seq![s.subrange(start, s.len() as int)]
        } else {
            seq![]
        }
    } else if is_ws(s[i]) {
        (if start < i {
            seq![s.subrange(start, i)]
        } else {
            seq![]
        }) + words_from(s, i + 1, i + 1)
    } else {
        words_from(s, i + 1, start)
    }
}

/// `str::split_whitespace`: the maximal runs of non-whitespace characters.
pub open spec fn words(s: Seq<char>) -> Seq<Seq<char>> {
    words_from(s, 0, 0)
}

pub fn words_of(s: &Vec<char>) -> (r: Vec<Vec<char>>)
    ensures
        r@.map_values(|l: Vec<char>| l@) == words(s@),
{
    let mut out: Vec<Vec<char>> = Vec::new();
    let mut start: usize = 0;
    let mut i: usize = 0;
    while i < s.len()
        invariant
            start <= i <= s.len(),
            out@.map_values(|l: Vec<char>| l@) + words_from(s@, i as int, start as int) == words(
                s@,
            ),
        decreases s.len() - i,
    {
        if is_ws_char(s[i]) {
            let ghost before = out@.map_values(|l: Vec<char>| l@);
            if start < i {
                let w = slice(s, start, i);
                out.push(w);
                assert(out@.map_values(|l: Vec<char>| l@) =~= before.push(w@));
                assert(before + (seq![w@] + words_from(s@, i + 1, i + 1)) =~= before.push(w@)
                    + words_from(s@, i + 1, i + 1));
            } else {
                assert(Seq::<Seq<char>>::empty() + words_from(s@, i + 1, i + 1) =~= words_from(
                    s@,
                    i + 1,
                    i + 1,
                ));
            }
            start = i + 1;
        }
        i = i + 1;
    }
    if start < s.len() {
        let w = slice(s, start, s.len());
        let ghost before = out@.map_values(|l: Vec<char>| l@);
        out.push(w);
        assert(out@.map_values(|l: Vec<char>| l@) =~= before.push(w@));
    } else {
        assert(out@.map_values(|l: Vec<char>| l@) + Seq::<Seq<char>>::empty() =~= out@.map_values(
            |l: Vec<char>| l@,
        ));
    }
    out
}

/// `str::split` on one character, scanning from `i` with the current piece
/// begun at `start`.
pub open spec fn split_from(s: Seq<char>, c: char, i: int, start: int) -> Seq<Seq<char>>
    decreases s.len() - i,
{
    if i < 0 || i >= s.len() {
        seq![s.subrange(start, s.len() as int)]
    } else if s[i] == c {
        seq![s.subrange(start, i)] + split_from(s, c, i + 1, i + 1)
    } else {
        split_from(s, c, i + 1, start)
    }
}

/// `str::split(c)`: the text cut at every `c`, empty pieces kept, so `n`
/// separators give `n + 1` pieces.
pub open spec fn split_on(s: Seq<char>, c: char) -> Seq<Seq<char>> {
    split_from(s, c, 0, 0)
}

pub fn split_chars(s: &Vec<char>, c: char) -> (r: Vec<Vec<char>>)
    ensures
        r@.map_values(|l: Vec<char>| l@) == split_on(s@, c),
{
    let mut out: Vec<Vec<char>> = Vec::new();
    let mut start: usize = 0;
    let mut i: usize = 0;
    while i < s.len()
        invariant
            start <= i <= s.len(),
            out@.map_values(|l: Vec<char>| l@) + split_from(s@, c, i as int, start as int)
                == split_on(s@, c),
        decreases s.len() - i,
    {
        if s[i] == c {
            let piece = slice(s, start, i);
            let ghost before = out@.map_values(|l: Vec<char>| l@);
            out.push(piece);
            assert(out@.map_values(|l: Vec<char>| l@) =~= before.push(piece@));
            assert(before + (seq![piece@] + split_from(s@, c, i + 1, i + 1)) =~= before.push(
                piece@,
            ) + split_from(s@, c, i + 1, i + 1));
            start = i + 1;
        }
        i = i + 1;
    }
    let last = slice(s, start, s.len());
    let ghost before = out@.map_values(|l: Vec<char>| l@);
    out.push(last);
    assert(out@.map_values(|l: Vec<char>| l@) =~= before.push(last@));
    out
}

/// `[..].join(sep)`.
pub open spec fn join(parts: Seq<Seq<char>>, sep: Seq<char>) -> Seq<char>
    decreases parts.len(),
{
    if parts.len() == 0 {
        seq![]
    } else if parts.len() == 1 {
        parts[0]
    } else {
        join(parts.drop_last(), sep) + sep + parts.last()
    }
}

pub proof fn lemma_join_prepend(a: Seq<char>, xs: Seq<Seq<char>>, sep: Seq<char>)
    ensures
        join(seq![a] + xs, sep) == if xs.len() == 0 {
            a
        } else {
            a + sep + join(xs, sep)
        },
    decreases xs.len(),
{
    let ys = seq![a] + xs;
    assert(join(seq![a], sep) == a) by {
        assert(seq![a].len() == 1);
        assert(seq![a][0] == a);
    }
    if xs.len() == 0 {
        assert(ys =~= seq![a]);
    } else if xs.len() == 1 {
        assert(ys.drop_last() =~= seq![a]);
        assert(ys.last() == xs[0]);
        assert(join(xs, sep) == xs[0]);
        assert(ys.len() == 2);
    } else {
        lemma_join_prepend(a, xs.drop_last(), sep);
        assert(ys.drop_last() =~= seq![a] + xs.drop_last());
        assert(ys.last() == xs.last());
        assert(ys.len() > 2);
        assert(join(xs, sep) == join(xs.drop_last(), sep) + sep + xs.last());
        assert(a + sep + join(xs.drop_last(), sep) + sep + xs.last() =~= a + sep + (join(
            xs.drop_last(),
            sep,
        ) + sep + xs.last()));
    }
}

/// A join of non-empty parts is empty only when there are no parts.
pub proof fn lemma_join_empty(ks: Seq<Seq<char>>, sep: Seq<char>)
    requires
        forall|k: int| 0 <= k < ks.len() ==> #[trigger] ks[k].len() > 0,
    ensures
        (join(ks, sep).len() == 0) == (ks.len() == 0),
    decreases ks.len(),
{
    if ks.len() > 1 {
        lemma_join_empty(ks.drop_last(), sep);
        assert(ks.last() == ks[ks.len() - 1]);
    } else if ks.len() == 1 {
        assert(ks[0].len() > 0);
    }
}

pub fn join_chars(parts: &Vec<Vec<char>>, sep: &Vec<char>) -> (r: Vec<char>)
    ensures
        r@ == join(parts@.map_values(|l: Vec<char>| l@), sep@),
{
    let ghost ps = parts@.map_values(|l: Vec<char>| l@);
    let mut out: Vec<char> = Vec::new();
    let mut i: usize = 0;
    while i < parts.len()
        invariant
            i <= parts.len(),
            ps == parts@.map_values(|l: Vec<char>| l@),
            out@ == join(ps.take(i as int), sep@),
        decreases parts.len() - i,
    {
        if i > 0 {
            extend(&mut out, sep);
        }
        extend(&mut out, &parts[i]);
        proof {
            let pi = ps.take(i + 1);
            assert(pi.drop_last() =~= ps.take(i as int));
            assert(pi.last() == parts@[i as int]@);
            if i == 0 {
                assert(pi.len() == 1);
                assert(out@ =~= pi[0]);
            }
        }
        i = i + 1;
    }
    assert(ps.take(parts.len() as int) =~= ps);
    out
}

// ===================================================================
// Byte length in UTF-8
// ===================================================================

pub proof fn lemma_utf8_len_push(s: Seq<char>, c: char)
    ensures
        utf8_len(s.push(c)) == utf8_len(s) + utf8_width(c),
{
    assert(s.push(c).drop_last() =~= s);
}

pub proof fn lemma_utf8_len_concat(a: Seq<char>, b: Seq<char>)
    ensures
        utf8_len(a + b) == utf8_len(a) + utf8_len(b),
    decreases b.len(),
{
    if b.len() == 0 {
        assert(a + b =~= a);
    } else {
        lemma_utf8_len_concat(a, b.drop_last());
        assert((a + b).drop_last() =~= a + b.drop_last());
    }
}

pub proof fn lemma_utf8_len_bounds(s: Seq<char>)
    ensures
        s.len() <= utf8_len(s) <= 4 * s.len(),
    decreases s.len(),
{
    if s.len() > 0 {
        lemma_utf8_len_bounds(s.drop_last());
    }
}

/// Whether the text takes more than `k` bytes in UTF-8.
pub fn utf8_len_exceeds(s: &Vec<char>, k: usize) -> (r: bool)
    ensures
        r == (utf8_len(s@) > k),
{
    let mut total: usize = 0;
    let mut i: usize = 0;
    while i < s.len()
        invariant
            i <= s.len(),
            total <= k,
            total == utf8_len(s@.take(i as int)),
        decreases s.len() - i,
    {
        let w = utf8_width_of(s[i]);
        proof {
            assert(s@.take(i + 1) =~= s@.take(i as int).push(s@[i as int]));
            lemma_utf8_len_push(s@.take(i as int), s@[i as int]);
        }
        if w > k - total {
            proof {
                lemma_utf8_len_concat(s@.take(i + 1), s@.skip(i + 1));
                assert(s@.take(i + 1) + s@.skip(i + 1) =~= s@);
            }
            return true;
        }
        total = total + w;
        i = i + 1;
    }
    assert(s@.take(s.len() as int) =~= s@);
    false
}

/// The number of characters whose UTF-8 bytes make up the first `b` bytes, if
/// `b` falls on a character boundary.
pub open spec fn char_boundary_at(s: Seq<char>, b: nat) -> Option<int> {
    if exists|k: int| 0 <= k <= s.len() && utf8_len(#[trigger] s.take(k)) == b {
        Some(choose|k: int| 0 <= k <= s.len() && utf8_len(#[trigger] s.take(k)) == b)
    } else {
        None
    }
}

pub proof fn lemma_utf8_take_mono(s: Seq<char>, i: int, j: int)
    requires
        0 <= i <= j <= s.len(),
    ensures
        utf8_len(s.take(i)) + (j - i) <= utf8_len(s.take(j)),
    decreases j - i,
{
    if i < j {
        lemma_utf8_take_mono(s, i, j - 1);
        assert(s.take(j) =~= s.take(j - 1).push(s[j - 1]));
        lemma_utf8_len_push(s.take(j - 1), s[j - 1]);
    }
}

/// A byte count falls on at most one character boundary.
pub proof fn lemma_boundary_unique(s: Seq<char>, k: int, b: nat)
    requires
        0 <= k <= s.len(),
        utf8_len(s.take(k)) == b,
    ensures
        char_boundary_at(s, b) == Some(k),
{
    assert(exists|j: int| 0 <= j <= s.len() && utf8_len(#[trigger] s.take(j)) == b);
    let c = choose|j: int| 0 <= j <= s.len() && utf8_len(#[trigger] s.take(j)) == b;
    if c < k {
        lemma_utf8_take_mono(s, c, k);
    } else if c > k {
        lemma_utf8_take_mono(s, k, c);
    }
}

/// The character count of the first `b` bytes, when `b` is a character boundary.
pub fn boundary_index(s: &Vec<char>, b: usize) -> (r: Option<usize>)
    ensures
        r matches Some(k) ==> k <= s.len() && utf8_len(s@.take(k as int)) == b,
        r is None ==> !(exists|k: int| 0 <= k <= s.len() && utf8_len(#[trigger] s@.take(k)) == b),
{
    let mut total: usize = 0;
    let mut i: usize = 0;
    while i < s.len() && total < b
        invariant
            i <= s.len(),
            total <= b,
            total == utf8_len(s@.take(i as int)),
            forall|k: int| 0 <= k < i ==> utf8_len(#[trigger] s@.take(k)) < b,
        decreases s.len() - i,
    {
        let w = utf8_width_of(s[i]);
        proof {
            assert(s@.take(i + 1) =~= s@.take(i as int).push(s@[i as int]));
            lemma_utf8_len_push(s@.take(i as int), s@[i as int]);
        }
        if w > b - total {
            proof {
                assert forall|k: int| 0 <= k <= s.len() implies utf8_len(#[trigger] s@.take(k))
                    != b by {
                    if k > i {
                        lemma_utf8_take_mono(s@, i + 1, k);
                    }
                }
            }
            return None;
        }
        total = total + w;
        i = i + 1;
    }
    if total == b {
        Some(i)
    } else {
        proof {
            assert(i == s.len());
            assert(s@.take(i as int) =~= s@);
        }
        None
    }
}

/// A text may be cut after its first `n` bytes: it is no longer, or byte
/// `n` falls between two characters (`&s[..s.len().min(n)]` does not panic).
pub open spec fn byte_cuttable(s: Seq<char>, n: nat) -> bool {
    utf8_len(s) <= n || char_boundary_at(s, n) is Some
}

/// `&s[..s.len().min(n)]`: the characters of the first `n` bytes.
pub open spec fn byte_prefix(s: Seq<char>, n: nat) -> Seq<char> {
    if utf8_len(s) <= n {
        s
    } else {
        s.take(char_boundary_at(s, n)->0)
    }
}

/// Whether a text may be cut after its first `n` bytes.
pub fn can_cut_bytes(s: &str, n: usize) -> (b: bool)
    ensures
        b == byte_cuttable(s@, n as nat),
{
    let c = chars_of(s);
    if !utf8_len_exceeds(&c, n) {
        return true;
    }
    match boundary_index(&c, n) {
        Some(k) => {
            proof {
                lemma_boundary_unique(c@, k as int, n as nat);
            }
            true
        },
        None => false,
    }
}

/// The characters of the first `n` bytes of a text that may be cut there.
pub fn byte_prefix_of(s: &Vec<char>, n: usize) -> (r: Vec<char>)
    requires
        byte_cuttable(s@, n as nat),
    ensures
        r@ == byte_prefix(s@, n as nat),
{
    if utf8_len_exceeds(s, n) {
        match boundary_index(s, n) {
            Some(k) => {
                proof {
                    lemma_boundary_unique(s@, k as int, n as nat);
                }
                slice(s, 0, k)
            },
            None => {
                assert(false);
                Vec::new()
            },
        }
    } else {
        slice(s, 0, s.len())
    }
}

/// A text of one-byte characters takes as many bytes as it has characters.
pub proof fn lemma_ascii_utf8_len(s: Seq<char>)
    requires
        forall|i: int| 0 <= i < s.len() ==> (#[trigger] s[i] as u32) < 0x80,
    ensures
        utf8_len(s) == s.len(),
    decreases s.len(),
{
    if s.len() > 0 {
        lemma_ascii_utf8_len(s.drop_last());
    }
}

// ===================================================================
// Decimal rendering and parsing
// ===================================================================

pub open spec fn digit_char(d: nat) -> char {
    if d == 0 {
        '0'
    } else if d == 1 {
        '1'
    } else if d == 2 {
        '2'
    } else if d == 3 {
        '3'
    } else if d == 4 {
        '4'
    } else if d == 5 {
        '5'
    } else if d == 6 {
        '6'
    } else if d == 7 {
        '7'
    } else if d == 8 {
        '8'
    } else {
        '9'
    }
}

/// The decimal digits of `n`, as `Display` writes them.
pub open spec fn dec(n: nat) -> Seq<char>
    decreases n,
{
    if n < 10 {
        seq![digit_char(n)]
    } else {
        dec(n / 10).push(digit_char(n % 10))
    }
}

/// A signed integer as `Display` writes it.
pub open spec fn dec_int(n: int) -> Seq<char> {
    if n < 0 {
        seq!['-'] + dec((-n) as nat)
    } else {
        dec(n as nat)
    }
}

fn digit_of(d: u64) -> (c: char)
    requires
        d < 10,
    ensures
        c == digit_char(d as nat),
{
    if d == 0 {
        '0'
    } else if d == 1 {
        '1'
    } else if d == 2 {
        '2'
    } else if d == 3 {
        '3'
    } else if d == 4 {
        '4'
    } else if d == 5 {
        '5'
    } else if d == 6 {
        '6'
    } else if d == 7 {
        '7'
    } else if d == 8 {
        '8'
    } else {
        '9'
    }
}

/// The decimal digits of `n`.
pub fn u64_chars(n: u64) -> (r: Vec<char>)
    ensures
        r@ == dec(n as nat),
    decreases n,
{
    if n < 10 {
        let mut v: Vec<char> = Vec::new();
        v.push(digit_of(n));
        v
    } else {
        let mut v = u64_chars(n / 10);
        v.push(digit_of(n % 10));
        v
    }
}

/// The decimal digits of a 128-bit count.
pub fn u128_chars(n: u128) -> (r: Vec<char>)
    ensures
        r@ == dec(n as nat),
    decreases n,
{
    if n < 10 {
        let mut v: Vec<char> = Vec::new();
        v.push(digit_of(n as u64));
        v
    } else {
        let mut v = u128_chars(n / 10);
        v.push(digit_of((n % 10) as u64));
        v
    }
}

/// A signed integer in decimal.
pub fn i64_chars(n: i64) -> (r: Vec<char>)
    ensures
        r@ == dec_int(n as int),
{
    if n < 0 {
        let m: u64 = if n == i64::MIN {
            9223372036854775808u64
        } else {
            (-n) as u64
        };
        let d = u64_chars(m);
        let mut v: Vec<char> = Vec::new();
        v.push('-');
        extend(&mut v, &d);
        v
    } else {
        u64_chars(n as u64)
    }
}

/// The value of a string of decimal digits.
pub open spec fn digits_value(s: Seq<char>) -> nat
    decreases s.len(),
{
    if s.len() == 0 {
        0
    } else {
        digits_value(s.drop_last()) * 10 + ((s.last() as u32 - '0' as u32) as nat)
    }
}

/// `str::parse::<i64>` on a string of ASCII digits: `None` when it is empty
/// or too large.
pub open spec fn parse_digits_i64(s: Seq<char>) -> Option<int> {
    if s.len() == 0 || digits_value(s) > i64::MAX {
        None
    } else {
        Some(digits_value(s) as int)
    }
}

pub fn parse_digits(s: &Vec<char>) -> (r: Option<i64>)
    requires
        forall|k: int| 0 <= k < s.len() ==> is_digit(#[trigger] s@[k]),
    ensures
        r matches Some(v) ==> parse_digits_i64(s@) == Some(v as int),
        r is None ==> parse_digits_i64(s@) is None,
{
    if s.len() == 0 {
        return None;
    }
    let mut acc: i64 = 0;
    let mut i: usize = 0;
    while i < s.len()
        invariant
            i <= s.len(),
            forall|k: int| 0 <= k < s.len() ==> is_digit(#[trigger] s@[k]),
            acc == digits_value(s@.take(i as int)),
        decreases s.len() - i,
    {
        let d = (s[i] as u32 - '0' as u32) as i64;
        proof {
            assert(s@.take(i + 1).drop_last() =~= s@.take(i as int));
            assert(s@.take(i + 1).last() == s@[i as int]);
        }
        if acc > (i64::MAX - d) / 10 {
            proof {
                assert(digits_value(s@.take(i + 1)) > i64::MAX);
                lemma_digits_value_mono(s@, i + 1);
            }
            return None;
        }
        acc = acc * 10 + d;
        i = i + 1;
    }
    assert(s@.take(s.len() as int) =~= s@);
    Some(acc)
}

pub proof fn lemma_digits_value_mono(s: Seq<char>, i: int)
    requires
        0 <= i <= s.len(),
        forall|k: int| 0 <= k < s.len() ==> is_digit(#[trigger] s[k]),
    ensures
        digits_value(s.take(i)) <= digits_value(s),
    decreases s.len() - i,
{
    if i < s.len() {
        lemma_digits_value_mono(s, i + 1);
        assert(s.take(i + 1).drop_last() =~= s.take(i));
    } else {
        assert(s.take(i) =~= s);
    }
}

} // verus!
