//! Character-level string helpers with exact specifications over `Seq<char>`.
//!
//! Every function here mirrors one operation of `str` that the rest of the
//! library relies on (`trim`, `trim_end_matches`, `starts_with`, `split`, ...),
//! stated over the character sequence of its input.
use vstd::prelude::*;

verus! {

// ---------------------------------------------------------------------------
// Character classes
// ---------------------------------------------------------------------------
/// The Unicode `White_Space` property, as `char::is_whitespace` defines it.
pub open spec fn is_white_space(c: char) -> bool {
    ||| ('\u{9}' <= c && c <= '\u{d}')
    ||| c == ' '
    ||| c == '\u{85}'
    ||| c == '\u{a0}'
    ||| c == '\u{1680}'
    ||| ('\u{2000}' <= c && c <= '\u{200a}')
    ||| c == '\u{2028}'
    ||| c == '\u{2029}'
    ||| c == '\u{202f}'
    ||| c == '\u{205f}'
    ||| c == '\u{3000}'
}

pub open spec fn is_ascii_digit(c: char) -> bool {
    '0' <= c && c <= '9'
}

pub open spec fn is_ascii_upper(c: char) -> bool {
    'A' <= c && c <= 'Z'
}

pub open spec fn is_ascii_lower(c: char) -> bool {
    'a' <= c && c <= 'z'
}

pub open spec fn is_ascii_alphanumeric(c: char) -> bool {
    is_ascii_digit(c) || is_ascii_upper(c) || is_ascii_lower(c)
}

/// `char::to_ascii_lowercase`.
pub open spec fn lower_char(c: char) -> char {
    if is_ascii_upper(c) {
        ((c as u32) + 32) as char
    } else {
        c
    }
}

/// `str::to_ascii_lowercase`, character by character.
pub open spec fn ascii_lower(s: Seq<char>) -> Seq<char> {
    s.map_values(|c: char| lower_char(c))
}

pub fn white_space(c: char) -> (b: bool)
    ensures
        b == is_white_space(c),
{
    ('\u{9}' <= c && c <= '\u{d}') || c == ' ' || c == '\u{85}' || c == '\u{a0}' || c
        == '\u{1680}' || ('\u{2000}' <= c && c <= '\u{200a}') || c == '\u{2028}' || c
        == '\u{2029}' || c == '\u{202f}' || c == '\u{205f}' || c == '\u{3000}'
}

pub fn ascii_alphanumeric(c: char) -> (b: bool)
    ensures
        b == is_ascii_alphanumeric(c),
{
    ('0' <= c && c <= '9') || ('A' <= c && c <= 'Z') || ('a' <= c && c <= 'z')
}

pub fn to_lower_char(c: char) -> (r: char)
    ensures
        r == lower_char(c),
{
    if 'A' <= c && c <= 'Z' {
        let code: u32 = c as u32;
        char_from_ascii_code(code + 32)
    } else {
        c
    }
}

/// A character from a code point below 128.
fn char_from_ascii_code(code: u32) -> (c: char)
    requires
        code < 128,
    ensures
        c == code as char,
{
    let b: u8 = code as u8;
    b as char
}

// ---------------------------------------------------------------------------
// Specifications of the `str` operations
// ---------------------------------------------------------------------------
pub open spec fn has_prefix(s: Seq<char>, p: Seq<char>) -> bool {
    p.len() <= s.len() && s.take(p.len() as int) == p
}

pub open spec fn has_suffix(s: Seq<char>, p: Seq<char>) -> bool {
    p.len() <= s.len() && s.skip(s.len() - p.len()) == p
}

/// `str::trim_start`: drop leading white space.
pub open spec fn trim_start(s: Seq<char>) -> Seq<char>
    decreases s.len(),
{
    if s.len() > 0 && is_white_space(s[0]) {
        trim_start(s.drop_first())
    } else {
        s
    }
}

/// `str::trim_end`: drop trailing white space.
pub open spec fn trim_end(s: Seq<char>) -> Seq<char>
    decreases s.len(),
{
    if s.len() > 0 && is_white_space(s.last()) {
        trim_end(s.drop_last())
    } else {
        s
    }
}

/// `str::trim`.
pub open spec fn trim(s: Seq<char>) -> Seq<char> {
    trim_end(trim_start(s))
}

/// `str::trim_start_matches(c)` for a single character.
pub open spec fn trim_start_char(s: Seq<char>, c: char) -> Seq<char>
    decreases s.len(),
{
    if s.len() > 0 && s[0] == c {
        trim_start_char(s.drop_first(), c)
    } else {
        s
    }
}

/// `str::trim_end_matches(c)` for a single character.
pub open spec fn trim_end_char(s: Seq<char>, c: char) -> Seq<char>
    decreases s.len(),
{
    if s.len() > 0 && s.last() == c {
        trim_end_char(s.drop_last(), c)
    } else {
        s
    }
}

/// `str::trim_matches(c)` for a single character.
pub open spec fn trim_char(s: Seq<char>, c: char) -> Seq<char> {
    trim_end_char(trim_start_char(s, c), c)
}

/// `str::trim_end_matches(p)` for a non-empty string pattern: strip `p`
/// from the end for as long as the text ends with it.
pub open spec fn trim_end_seq(s: Seq<char>, p: Seq<char>) -> Seq<char>
    decreases s.len(),
{
    if p.len() > 0 && has_suffix(s, p) {
        trim_end_seq(s.take(s.len() - p.len()), p)
    } else {
        s
    }
}

/// The index of the first occurrence of `c`, if any.
#[verifier::opaque]
pub open spec fn index_of_char(s: Seq<char>, c: char) -> Option<int> {
    if exists|i: int| 0 <= i < s.len() && s[i] == c {
        Some(choose|i: int| 0 <= i < s.len() && s[i] == c && (forall|j: int| 0 <= j < i ==> s[j] != c))
    } else {
        None
    }
}

pub open spec fn occurs_at(s: Seq<char>, p: Seq<char>, i: int) -> bool {
    0 <= i && i + p.len() <= s.len() && s.subrange(i, i + p.len()) == p
}

/// `str::find(p)`: the index of the first occurrence of `p`, if any.
#[verifier::opaque]
pub open spec fn index_of_seq(s: Seq<char>, p: Seq<char>) -> Option<int> {
    if exists|i: int| occurs_at(s, p, i) {
        Some(choose|i: int| occurs_at(s, p, i) && (forall|j: int| 0 <= j < i ==> !occurs_at(s, p, j)))
    } else {
        None
    }
}

/// `str::split(c)`: the pieces between the occurrences of `c`.
pub open spec fn split_on(s: Seq<char>, c: char) -> Seq<Seq<char>>
    decreases s.len(),
{
    match index_of_char(s, c) {
        Some(i) => if 0 <= i < s.len() {
            seq![s.take(i)] + split_on(s.skip(i + 1), c)
        } else {
            seq![s]
        },
        None => seq![s],
    }
}

/// `str::split_once(c)`.
pub open spec fn split_once(s: Seq<char>, c: char) -> Option<(Seq<char>, Seq<char>)> {
    match index_of_char(s, c) {
        Some(i) => Some((s.take(i), s.skip(i + 1))),
        None => None,
    }
}

// ---------------------------------------------------------------------------
// Lemmas connecting index loops with the recursive definitions
// ---------------------------------------------------------------------------
pub proof fn lemma_index_of_char(s: Seq<char>, c: char, i: int)
    requires
        0 <= i <= s.len(),
        forall|j: int| 0 <= j < i ==> s[j] != c,
        i == s.len() || s[i] == c,
    ensures
        i < s.len() ==> index_of_char(s, c) == Some(i),
        i == s.len() ==> index_of_char(s, c) is None,
{
    reveal(index_of_char);
    if i < s.len() {
        let k = choose|k: int| 0 <= k < s.len() && s[k] == c && (forall|j: int| 0 <= j < k ==> s[j] != c);
        assert(0 <= i < s.len() && s[i] == c);
        assert(k == i) by {
            if k < i {
                assert(s[k] != c);
            } else if k > i {
                assert(s[i] != c);
            }
        }
    }
}

pub proof fn lemma_index_of_seq(s: Seq<char>, p: Seq<char>, i: int)
    requires
        0 <= i,
        forall|j: int| 0 <= j < i ==> !occurs_at(s, p, j),
        occurs_at(s, p, i),
    ensures
        index_of_seq(s, p) == Some(i),
{
    reveal(index_of_seq);
    let k = choose|k: int| occurs_at(s, p, k) && (forall|j: int| 0 <= j < k ==> !occurs_at(s, p, j));
    assert(k == i) by {
        if k < i {
            assert(!occurs_at(s, p, k));
        } else if k > i {
            assert(!occurs_at(s, p, i));
        }
    }
}

pub proof fn lemma_index_of_seq_none(s: Seq<char>, p: Seq<char>)
    requires
        forall|j: int| 0 <= j && j + p.len() <= s.len() ==> !occurs_at(s, p, j),
    ensures
        index_of_seq(s, p) is None,
{
    reveal(index_of_seq);
}

pub proof fn lemma_trim_start_skip(s: Seq<char>, k: int)
    requires
        0 <= k <= s.len(),
        forall|j: int| 0 <= j < k ==> is_white_space(s[j]),
        k == s.len() || !is_white_space(s[k]),
    ensures
        trim_start(s) == s.skip(k),
    decreases k,
{
    if k > 0 {
        lemma_trim_start_skip(s.drop_first(), k - 1);
        assert(s.drop_first().skip(k - 1) =~= s.skip(k));
    } else {
        assert(s.skip(0) =~= s);
    }
}

pub proof fn lemma_trim_end_take(s: Seq<char>, k: int)
    requires
        0 <= k <= s.len(),
        forall|j: int| k <= j < s.len() ==> is_white_space(s[j]),
        k == 0 || !is_white_space(s[k - 1]),
    ensures
        trim_end(s) == s.take(k),
    decreases s.len() - k,
{
    if k < s.len() {
        lemma_trim_end_take(s.drop_last(), k);
        assert(s.drop_last().take(k) =~= s.take(k));
    } else {
        assert(s.take(k) =~= s);
    }
}

pub proof fn lemma_trim_start_char_skip(s: Seq<char>, c: char, k: int)
    requires
        0 <= k <= s.len(),
        forall|j: int| 0 <= j < k ==> s[j] == c,
        k == s.len() || s[k] != c,
    ensures
        trim_start_char(s, c) == s.skip(k),
    decreases k,
{
    if k > 0 {
        lemma_trim_start_char_skip(s.drop_first(), c, k - 1);
        assert(s.drop_first().skip(k - 1) =~= s.skip(k));
    } else {
        assert(s.skip(0) =~= s);
    }
}

pub proof fn lemma_trim_end_char_take(s: Seq<char>, c: char, k: int)
    requires
        0 <= k <= s.len(),
        forall|j: int| k <= j < s.len() ==> s[j] == c,
        k == 0 || s[k - 1] != c,
    ensures
        trim_end_char(s, c) == s.take(k),
    decreases s.len() - k,
{
    if k < s.len() {
        lemma_trim_end_char_take(s.drop_last(), c, k);
        assert(s.drop_last().take(k) =~= s.take(k));
    } else {
        assert(s.take(k) =~= s);
    }
}

pub proof fn lemma_trim_start_char_index(s: Seq<char>, c: char) -> (k: int)
    ensures
        0 <= k <= s.len(),
        trim_start_char(s, c) == s.skip(k),
        k < s.len() ==> s[k] != c,
    decreases s.len(),
{
    if s.len() > 0 && s[0] == c {
        let k1 = lemma_trim_start_char_index(s.drop_first(), c);
        assert(s.drop_first().skip(k1) =~= s.skip(k1 + 1));
        k1 + 1
    } else {
        assert(s.skip(0) =~= s);
        0
    }
}

pub proof fn lemma_trim_end_char_index(s: Seq<char>, c: char) -> (m: int)
    ensures
        0 <= m <= s.len(),
        trim_end_char(s, c) == s.take(m),
        m > 0 ==> s[m - 1] != c,
        forall|j: int| m <= j < s.len() ==> s[j] == c,
    decreases s.len(),
{
    if s.len() > 0 && s.last() == c {
        let m1 = lemma_trim_end_char_index(s.drop_last(), c);
        assert(s.drop_last().take(m1) =~= s.take(m1));
        assert forall|j: int| m1 <= j < s.len() implies s[j] == c by {
            if j < s.len() - 1 {
                assert(s[j] == s.drop_last()[j]);
            }
        }
        m1
    } else {
        assert(s.take(s.len() as int) =~= s);
        s.len() as int
    }
}

/// What `trim` leaves neither begins nor ends with white space.
pub proof fn lemma_trim_ends(s: Seq<char>)
    ensures
        trim(s).len() > 0 ==> !is_white_space(trim(s)[0]) && !is_white_space(trim(s).last()),
{
    lemma_trim_start_first(s);
    lemma_trim_end_prefix(trim_start(s));
}

proof fn lemma_trim_start_first(s: Seq<char>)
    ensures
        trim_start(s).len() > 0 ==> !is_white_space(trim_start(s)[0]),
    decreases s.len(),
{
    if s.len() > 0 && is_white_space(s[0]) {
        lemma_trim_start_first(s.drop_first());
    }
}

proof fn lemma_trim_end_prefix(s: Seq<char>)
    ensures
        trim_end(s).len() <= s.len(),
        forall|j: int| 0 <= j < trim_end(s).len() ==> trim_end(s)[j] == s[j],
        trim_end(s).len() > 0 ==> !is_white_space(trim_end(s).last()),
    decreases s.len(),
{
    if s.len() > 0 && is_white_space(s.last()) {
        lemma_trim_end_prefix(s.drop_last());
        assert forall|j: int| 0 <= j < trim_end(s).len() implies trim_end(s)[j] == s[j] by {
            assert(s.drop_last()[j] == s[j]);
        }
    }
}

/// `trim_char` keeps a contiguous part of its input that neither begins nor
/// ends with the trimmed character.
pub proof fn lemma_trim_char_sub(s: Seq<char>, c: char) -> (ab: (int, int))
    ensures
        0 <= ab.0 <= ab.1 <= s.len(),
        trim_char(s, c) == s.subrange(ab.0, ab.1),
        trim_char(s, c).len() > 0 ==> trim_char(s, c)[0] != c && trim_char(s, c).last() != c,
{
    let k = lemma_trim_start_char_index(s, c);
    let t = s.skip(k);
    let m = lemma_trim_end_char_index(t, c);
    assert(t.take(m) =~= s.subrange(k, k + m));
    if m > 0 {
        assert(t[0] == s[k]);
    }
    (k, k + m)
}

// ---------------------------------------------------------------------------
// Conversions between strings and character vectors
// ---------------------------------------------------------------------------
/// Appends one character to a string (`String::push`).
#[verifier::external_body]
pub(crate) fn push_char(s: &mut String, c: char)
    ensures
        final(s)@ == old(s)@.push(c),
{
    s.push(c);
}

/// The characters of `s`, in order.
pub fn chars_of(s: &str) -> (res: Vec<char>)
    ensures
        res@ == s@,
{
    let mut out: Vec<char> = Vec::new();
    for c in it: s.chars()
        invariant
            out@ == it.seq().take(it.index() as int),
    {
        out.push(c);
    }
    out
}

/// The string made of the characters `v[from..to]`.
pub fn string_of(v: &[char], from: usize, to: usize) -> (res: String)
    requires
        from <= to <= v@.len(),
    ensures
        res@ == v@.subrange(from as int, to as int),
{
    let mut out = String::new();
    let mut i: usize = from;
    while i < to
        invariant
            from <= i <= to <= v@.len(),
            out@ == v@.subrange(from as int, i as int),
        decreases to - i,
    {
        push_char(&mut out, v[i]);
        i = i + 1;
        assert(out@ =~= v@.subrange(from as int, i as int));
    }
    out
}

/// A copy of `s`.
pub fn copy_str(s: &str) -> (res: String)
    ensures
        res@ == s@,
{
    let v = chars_of(s);
    string_of(&v, 0, v.len())
}

/// Appends all characters of `t` to `s`.
pub fn push_str(s: &mut String, t: &str)
    ensures
        final(s)@ == old(s)@ + t@,
{
    let ghost start = s@;
    for c in it: t.chars()
        invariant
            s@ == start + it.seq().take(it.index() as int),
    {
        push_char(s, c);
        assert(s@ =~= start + it.seq().take(it.index() + 1));
    }
    assert(start + t@ =~= s@);
}

/// `a` followed by `b`.
pub fn concat(a: &str, b: &str) -> (res: String)
    ensures
        res@ == a@ + b@,
{
    let mut out = copy_str(a);
    push_str(&mut out, b);
    out
}

/// Whether two strings hold the same characters.
pub fn same_text(a: &str, b: &str) -> (res: bool)
    ensures
        res == (a@ == b@),
{
    let va = chars_of(a);
    let vb = chars_of(b);
    if va.len() != vb.len() {
        return false;
    }
    let mut i: usize = 0;
    while i < va.len()
        invariant
            va@ == a@,
            vb@ == b@,
            va@.len() == vb@.len(),
            i <= va@.len(),
            forall|j: int| 0 <= j < i ==> va@[j] == vb@[j],
        decreases va@.len() - i,
    {
        if va[i] != vb[i] {
            return false;
        }
        i = i + 1;
    }
    assert(va@ =~= vb@);
    true
}

/// Whether `s` holds no character.
pub fn is_empty_text(s: &str) -> (res: bool)
    ensures
        res == (s@.len() == 0),
{
    s.unicode_len() == 0
}

// ---------------------------------------------------------------------------
// The `str` operations
// ---------------------------------------------------------------------------
/// `str::starts_with` for a string pattern.
pub fn starts_with(s: &str, p: &str) -> (res: bool)
    ensures
        res == has_prefix(s@, p@),
{
    let vs = chars_of(s);
    let vp = chars_of(p);
    if vp.len() > vs.len() {
        return false;
    }
    let mut i: usize = 0;
    while i < vp.len()
        invariant
            vs@ == s@,
            vp@ == p@,
            vp@.len() <= vs@.len(),
            i <= vp@.len(),
            forall|j: int| 0 <= j < i ==> vs@[j] == vp@[j],
        decreases vp@.len() - i,
    {
        if vs[i] != vp[i] {
            assert(s@.take(p@.len() as int)[i as int] != p@[i as int]);
            return false;
        }
        i = i + 1;
    }
    assert(s@.take(p@.len() as int) =~= p@);
    true
}

/// Whether `v[at..]` begins with `p`.
fn occurs_at_exec(v: &[char], p: &[char], at: usize) -> (res: bool)
    ensures
        res == occurs_at(v@, p@, at as int),
{
    if at > v.len() || p.len() > v.len() - at {
        return false;
    }
    let mut i: usize = 0;
    while i < p.len()
        invariant
            at + p@.len() <= v@.len(),
            v@.len() == v.len(),
            i <= p@.len(),
            forall|j: int| 0 <= j < i ==> v@[at + j] == p@[j],
        decreases p@.len() - i,
    {
        if v[at + i] != p[i] {
            assert(v@.subrange(at as int, at + p@.len())[i as int] != p@[i as int]);
            return false;
        }
        i = i + 1;
    }
    assert(v@.subrange(at as int, at + p@.len()) =~= p@);
    true
}

/// `str::ends_with` for a string pattern.
pub fn ends_with(s: &str, p: &str) -> (res: bool)
    ensures
        res == has_suffix(s@, p@),
{
    let vs = chars_of(s);
    let vp = chars_of(p);
    if vp.len() > vs.len() {
        return false;
    }
    let r = occurs_at_exec(&vs, &vp, vs.len() - vp.len());
    assert(vs@.subrange(vs@.len() - vp@.len(), vs@.len() as int) =~= vs@.skip(vs@.len() - vp@.len()));
    r
}

/// `str::find(c)` for a character: the character index of its first occurrence.
pub fn find_char(s: &str, c: char) -> (res: Option<usize>)
    ensures
        match res {
            Some(i) => i < s@.len() && index_of_char(s@, c) == Some(i as int),
            None => index_of_char(s@, c) is None,
        },
{
    let v = chars_of(s);
    let mut i: usize = 0;
    while i < v.len()
        invariant
            v@ == s@,
            i <= v@.len(),
            forall|j: int| 0 <= j < i ==> v@[j] != c,
        decreases v@.len() - i,
    {
        if v[i] == c {
            proof {
                lemma_index_of_char(s@, c, i as int);
            }
            return Some(i);
        }
        i = i + 1;
    }
    proof {
        lemma_index_of_char(s@, c, i as int);
    }
    None
}

/// `str::find(p)` for a string pattern: the character index of its first occurrence.
pub fn find_text(s: &str, p: &str) -> (res: Option<usize>)
    ensures
        match res {
            Some(i) => occurs_at(s@, p@, i as int) && index_of_seq(s@, p@) == Some(i as int),
            None => index_of_seq(s@, p@) is None,
        },
{
    let vs = chars_of(s);
    let vp = chars_of(p);
    if vp.len() == 0 {
        proof {
            assert(s@.subrange(0, 0) =~= p@);
            lemma_index_of_seq(s@, p@, 0);
        }
        return Some(0);
    }
    let mut i: usize = 0;
    while i <= vs.len() && vp.len() <= vs.len() - i
        invariant
            vs@ == s@,
            vp@ == p@,
            vp@.len() > 0,
            forall|j: int| 0 <= j < i ==> !occurs_at(s@, p@, j),
        decreases vs@.len() + 1 - i,
    {
        if occurs_at_exec(&vs, &vp, i) {
            proof {
                lemma_index_of_seq(s@, p@, i as int);
            }
            return Some(i);
        }
        i = i + 1;
    }
    proof {
        assert forall|j: int| 0 <= j && j + p@.len() <= s@.len() implies !occurs_at(s@, p@, j) by {
            assert(j < i);
        }
        lemma_index_of_seq_none(s@, p@);
    }
    None
}

/// `str::trim`: `s` without leading and trailing white space.
pub fn trim_text(s: &str) -> (res: String)
    ensures
        res@ == trim(s@),
{
    let v = chars_of(s);
    let n = v.len();
    let mut i: usize = 0;
    while i < n && white_space(v[i])
        invariant
            v@ == s@,
            n == v@.len(),
            i <= n,
            forall|j: int| 0 <= j < i ==> is_white_space(v@[j]),
        decreases n - i,
    {
        i = i + 1;
    }
    proof {
        lemma_trim_start_skip(s@, i as int);
    }
    let mut k: usize = n;
    while k > i && white_space(v[k - 1])
        invariant
            v@ == s@,
            n == v@.len(),
            i <= k <= n,
            forall|j: int| k <= j < n ==> is_white_space(v@[j]),
        decreases k - i,
    {
        k = k - 1;
    }
    proof {
        let t = s@.skip(i as int);
        assert forall|j: int| (k - i) <= j < t.len() implies is_white_space(t[j]) by {
            assert(t[j] == v@[j + i]);
        }
        if k > i {
            assert(t[k - i - 1] == v@[k - 1]);
        }
        lemma_trim_end_take(t, k - i);
        assert(t.take(k - i) =~= v@.subrange(i as int, k as int));
    }
    string_of(&v, i, k)
}

/// `str::trim_start_matches(c)` for a single character.
pub fn trim_start_matches_char(s: &str, c: char) -> (res: String)
    ensures
        res@ == trim_start_char(s@, c),
{
    let v = chars_of(s);
    let n = v.len();
    let mut i: usize = 0;
    while i < n && v[i] == c
        invariant
            v@ == s@,
            n == v@.len(),
            i <= n,
            forall|j: int| 0 <= j < i ==> v@[j] == c,
        decreases n - i,
    {
        i = i + 1;
    }
    proof {
        lemma_trim_start_char_skip(s@, c, i as int);
        assert(s@.skip(i as int) =~= v@.subrange(i as int, n as int));
    }
    string_of(&v, i, n)
}

/// `str::trim_end_matches(c)` for a single character.
pub fn trim_end_matches_char(s: &str, c: char) -> (res: String)
    ensures
        res@ == trim_end_char(s@, c),
{
    let v = chars_of(s);
    let n = v.len();
    let mut k: usize = n;
    while k > 0 && v[k - 1] == c
        invariant
            v@ == s@,
            n == v@.len(),
            k <= n,
            forall|j: int| k <= j < n ==> v@[j] == c,
        decreases k,
    {
        k = k - 1;
    }
    proof {
        lemma_trim_end_char_take(s@, c, k as int);
        assert(s@.take(k as int) =~= v@.subrange(0, k as int));
    }
    string_of(&v, 0, k)
}

/// `str::trim_matches(c)` for a single character.
pub fn trim_matches_char(s: &str, c: char) -> (res: String)
    ensures
        res@ == trim_char(s@, c),
{
    let t = trim_start_matches_char(s, c);
    trim_end_matches_char(t.as_str(), c)
}

/// `str::trim_end_matches(p)` for a non-empty string pattern.
pub fn trim_end_matches_text(s: &str, p: &str) -> (res: String)
    requires
        p@.len() > 0,
    ensures
        res@ == trim_end_seq(s@, p@),
{
    let vs = chars_of(s);
    let vp = chars_of(p);
    let m = vp.len();
    let mut k: usize = vs.len();
    proof {
        assert(s@.take(vs@.len() as int) =~= s@);
    }
    while k >= m && occurs_at_exec(&vs, &vp, k - m)
        invariant
            vs@ == s@,
            vp@ == p@,
            m == p@.len(),
            m > 0,
            k <= vs@.len(),
            trim_end_seq(s@, p@) == trim_end_seq(s@.take(k as int), p@),
        decreases k,
    {
        proof {
            let t = s@.take(k as int);
            assert(t.skip(t.len() - m) =~= vs@.subrange(k - m, k as int));
            assert(t.take(t.len() - m) =~= s@.take(k - m));
        }
        k = k - m;
    }
    proof {
        let t = s@.take(k as int);
        if k >= m {
            assert(t.skip(t.len() - m) =~= vs@.subrange(k - m, k as int));
        }
        assert(trim_end_seq(t, p@) == t);
        assert(t =~= vs@.subrange(0, k as int));
    }
    string_of(&vs, 0, k)
}

/// `str::to_ascii_lowercase`.
pub fn to_ascii_lowercase(s: &str) -> (res: String)
    ensures
        res@ == ascii_lower(s@),
{
    let mut out = String::new();
    for c in it: s.chars()
        invariant
            out@ == ascii_lower(it.seq().take(it.index() as int)),
    {
        let l = to_lower_char(c);
        proof {
            assert(ascii_lower(it.seq().take(it.index() + 1)) =~= ascii_lower(
                it.seq().take(it.index() as int),
            ).push(l));
        }
        push_char(&mut out, l);
    }
    out
}

/// `str::split_once(c)` for a single character.
pub fn split_once_char(s: &str, c: char) -> (res: Option<(String, String)>)
    ensures
        match res {
            Some((a, b)) => split_once(s@, c) == Some((a@, b@)),
            None => split_once(s@, c) is None,
        },
{
    let v = chars_of(s);
    match find_char(s, c) {
        Some(i) => {
            proof {
                assert(v@.subrange(0, i as int) =~= s@.take(i as int));
                assert(v@.subrange(i + 1, v@.len() as int) =~= s@.skip(i + 1));
            }
            assert(i < v.len());
            Some((string_of(&v, 0, i), string_of(&v, i + 1, v.len())))
        },
        None => None,
    }
}

/// The character sequences of a vector of strings.
pub open spec fn string_views(v: Seq<String>) -> Seq<Seq<char>> {
    v.map_values(|x: String| x@)
}

pub proof fn lemma_string_views_push(v: Seq<String>, x: String)
    ensures
        string_views(v.push(x)) == string_views(v).push(x@),
{
    assert(string_views(v.push(x)) =~= string_views(v).push(x@));
}

pub proof fn lemma_split_on_step(rest: Seq<char>, c: char, k: int)
    requires
        0 <= k < rest.len(),
        forall|j: int| 0 <= j < k ==> rest[j] != c,
        rest[k] == c,
    ensures
        split_on(rest, c) == seq![rest.take(k)] + split_on(rest.skip(k + 1), c),
{
    lemma_index_of_char(rest, c, k);
}

pub proof fn lemma_split_on_last(rest: Seq<char>, c: char)
    requires
        forall|j: int| 0 <= j < rest.len() ==> rest[j] != c,
    ensures
        split_on(rest, c) == seq![rest],
{
    lemma_index_of_char(rest, c, rest.len() as int);
}

pub proof fn lemma_split_advance(
    s: Seq<char>,
    c: char,
    prefix: Seq<Seq<char>>,
    start: int,
    i: int,
)
    requires
        0 <= start <= i < s.len(),
        forall|j: int| start <= j < i ==> s[j] != c,
        s[i] == c,
        prefix + split_on(s.skip(start), c) == split_on(s, c),
    ensures
        prefix.push(s.subrange(start, i)) + split_on(s.skip(i + 1), c) == split_on(s, c),
{
    let rest = s.skip(start);
    assert forall|j: int| 0 <= j < i - start implies rest[j] != c by {
        assert(rest[j] == s[start + j]);
    }
    lemma_split_on_step(rest, c, i - start);
    let piece = s.subrange(start, i);
    let tail = s.skip(i + 1);
    assert(rest.take(i - start) =~= piece);
    assert(rest.skip(i - start + 1) =~= tail);
    lemma_push_then_concat(prefix, piece, split_on(tail, c));
}

proof fn lemma_push_then_concat(prefix: Seq<Seq<char>>, x: Seq<char>, y: Seq<Seq<char>>)
    ensures
        prefix.push(x) + y == prefix + (seq![x] + y),
{
    assert(prefix.push(x) + y =~= prefix + (seq![x] + y));
}

pub proof fn lemma_split_finish(s: Seq<char>, c: char, prefix: Seq<Seq<char>>, start: int)
    requires
        0 <= start <= s.len(),
        forall|j: int| start <= j < s.len() ==> s[j] != c,
        prefix + split_on(s.skip(start), c) == split_on(s, c),
    ensures
        prefix.push(s.subrange(start, s.len() as int)) == split_on(s, c),
{
    let rest = s.skip(start);
    assert forall|j: int| 0 <= j < rest.len() implies rest[j] != c by {
        assert(rest[j] == s[start + j]);
    }
    lemma_split_on_last(rest, c);
    assert(rest =~= s.subrange(start, s.len() as int));
    assert(prefix + seq![rest] =~= prefix.push(rest));
}

/// `str::split(c)` for a single character, collected into a vector.
pub fn split_char(s: &str, c: char) -> (res: Vec<String>)
    ensures
        string_views(res@) == split_on(s@, c),
{
    let v = chars_of(s);
    let n = v.len();
    let mut out: Vec<String> = Vec::new();
    let mut start: usize = 0;
    let mut i: usize = 0;
    proof {
        assert(s@.skip(0) =~= s@);
        assert(string_views(out@) =~= Seq::<Seq<char>>::empty());
        assert(Seq::<Seq<char>>::empty() + split_on(s@, c) =~= split_on(s@, c));
    }
    while i < n
        invariant
            v@ == s@,
            n == v@.len(),
            start <= i <= n,
            forall|j: int| start <= j < i ==> v@[j] != c,
            string_views(out@) + split_on(s@.skip(start as int), c) == split_on(s@, c),
        decreases n - i,
    {
        if v[i] == c {
            let piece = string_of(&v, start, i);
            proof {
                lemma_split_advance(s@, c, string_views(out@), start as int, i as int);
                lemma_string_views_push(out@, piece);
            }
            out.push(piece);
            start = i + 1;
        }
        i = i + 1;
    }
    let last = string_of(&v, start, n);
    proof {
        lemma_split_finish(s@, c, string_views(out@), start as int);
        lemma_string_views_push(out@, last);
    }
    out.push(last);
    out
}

// ---------------------------------------------------------------------------
// Decimal numbers
// ---------------------------------------------------------------------------
pub open spec fn digit_char(d: nat) -> char
    recommends
        d < 10,
{
    (('0' as nat) + d) as char
}

/// The decimal digits of `n`, without leading zeros (`0` for zero).
pub open spec fn nat_text(n: nat) -> Seq<char>
    decreases n,
{
    if n < 10 {
        seq![digit_char(n)]
    } else {
        nat_text(n / 10).push(digit_char(n % 10))
    }
}

/// `i64::to_string` / `u16::to_string`: the decimal form of `i`.
pub open spec fn int_text(i: int) -> Seq<char> {
    if i < 0 {
        seq!['-'] + nat_text((-i) as nat)
    } else {
        nat_text(i as nat)
    }
}

fn digit_to_char(d: u64) -> (c: char)
    requires
        d < 10,
    ensures
        c == digit_char(d as nat),
{
    let b: u8 = (48 + d) as u8;
    b as char
}

/// The decimal digits of `n`.
pub fn u64_text(n: u64) -> (res: String)
    ensures
        res@ == nat_text(n as nat),
    decreases n,
{
    if n < 10 {
        let mut out = String::new();
        push_char(&mut out, digit_to_char(n));
        proof {
            assert(out@ =~= seq![digit_char(n as nat)]);
        }
        out
    } else {
        let mut out = u64_text(n / 10);
        push_char(&mut out, digit_to_char(n % 10));
        out
    }
}

/// `i64::to_string`.
pub fn i64_text(i: i64) -> (res: String)
    ensures
        res@ == int_text(i as int),
{
    if i < 0 {
        let magnitude: u64 = ((-(i + 1)) as u64) + 1;
        let digits = u64_text(magnitude);
        let mut out = String::new();
        push_char(&mut out, '-');
        push_str(&mut out, digits.as_str());
        proof {
            assert(out@ =~= seq!['-'] + nat_text((-(i as int)) as nat));
        }
        out
    } else {
        u64_text(i as u64)
    }
}


// ---------------------------------------------------------------------------
// Order
// ---------------------------------------------------------------------------
/// `a < b` for strings: lexicographic by characters, a proper prefix first.
/// (UTF-8 keeps code point order, so this is also the order of the bytes.)
pub open spec fn text_less(a: Seq<char>, b: Seq<char>) -> bool
    decreases a.len(),
{
    if a.len() == 0 {
        b.len() > 0
    } else if b.len() == 0 {
        false
    } else if a[0] != b[0] {
        a[0] < b[0]
    } else {
        text_less(a.drop_first(), b.drop_first())
    }
}

/// The order of strings is a strict total order.
pub proof fn lemma_text_less_order(a: Seq<char>, b: Seq<char>, c: Seq<char>)
    ensures
        !text_less(a, a),
        text_less(a, b) ==> !text_less(b, a),
        a != b ==> text_less(a, b) || text_less(b, a),
        text_less(a, b) && text_less(b, c) ==> text_less(a, c),
{
    lemma_text_less_strict(a, b);
    lemma_text_less_strict(a, a);
    lemma_text_less_total(a, b);
    lemma_text_less_transitive(a, b, c);
}

proof fn lemma_text_less_strict(a: Seq<char>, b: Seq<char>)
    ensures
        text_less(a, b) ==> !text_less(b, a),
    decreases a.len(),
{
    if a.len() > 0 && b.len() > 0 {
        lemma_text_less_strict(a.drop_first(), b.drop_first());
    }
}

proof fn lemma_text_less_total(a: Seq<char>, b: Seq<char>)
    ensures
        a != b ==> text_less(a, b) || text_less(b, a),
    decreases a.len(),
{
    if a.len() > 0 && b.len() > 0 {
        lemma_text_less_total(a.drop_first(), b.drop_first());
        if a[0] == b[0] && a.drop_first() == b.drop_first() {
            assert(a =~= seq![a[0]] + a.drop_first());
            assert(b =~= seq![b[0]] + b.drop_first());
        }
        if a[0] != b[0] {

        }
    } else if a.len() == 0 && b.len() == 0 {
        assert(a =~= b);
    }
}

proof fn lemma_text_less_transitive(a: Seq<char>, b: Seq<char>, c: Seq<char>)
    ensures
        text_less(a, b) && text_less(b, c) ==> text_less(a, c),
    decreases a.len(),
{
    if a.len() > 0 && b.len() > 0 && c.len() > 0 {
        lemma_text_less_transitive(a.drop_first(), b.drop_first(), c.drop_first());
    }
}

proof fn lemma_text_less_step(a: Seq<char>, b: Seq<char>, i: int)
    requires
        0 <= i < a.len(),
        i < b.len(),
        a[i] == b[i],
    ensures
        text_less(a.skip(i), b.skip(i)) == text_less(a.skip(i + 1), b.skip(i + 1)),
{
    assert(a.skip(i).drop_first() =~= a.skip(i + 1));
    assert(b.skip(i).drop_first() =~= b.skip(i + 1));
}

/// `a < b` for strings.
pub fn text_before(a: &str, b: &str) -> (res: bool)
    ensures
        res == text_less(a@, b@),
{
    let x = chars_of(a);
    let y = chars_of(b);
    let mut i: usize = 0;
    proof {
        assert(a@.skip(0) =~= a@);
        assert(b@.skip(0) =~= b@);
    }
    while i < x.len() && i < y.len()
        invariant
            x@ == a@,
            y@ == b@,
            i <= x@.len(),
            i <= y@.len(),
            text_less(a@, b@) == text_less(a@.skip(i as int), b@.skip(i as int)),
        decreases x@.len() - i,
    {
        if x[i] != y[i] {
            return x[i] < y[i];
        }
        proof {
            lemma_text_less_step(a@, b@, i as int);
        }
        i = i + 1;
    }
    i < y.len()
}

} // verus!
