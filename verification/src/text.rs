//! Text helpers over character sequences: the string operations that the
//! protocol parsers of this crate are built from, each with its meaning
//! written as a spec function over `Seq<char>`.
use vstd::prelude::*;

verus! {

// ---------------------------------------------------------------------------
// std string operations that vstd gives no specification
// ---------------------------------------------------------------------------

/// `String::push`: the string grows by the one character.
#[verifier::external_body]
pub(crate) fn push_char(s: &mut String, c: char)
    ensures
        final(s)@ == old(s)@.push(c),
{
    s.push(c)
}

/// `String::push_str`: the string grows by the characters of `t`.
#[verifier::external_body]
pub(crate) fn push_str(s: &mut String, t: &str)
    ensures
        final(s)@ == old(s)@ + t@,
{
    s.push_str(t)
}

// ---------------------------------------------------------------------------
// conversions between strings and character vectors
// ---------------------------------------------------------------------------

/// The characters of `s`, in order.
pub fn chars_of(s: &str) -> (v: Vec<char>)
    ensures
        v@ == s@,
{
    let mut v: Vec<char> = Vec::new();
    for c in it: s.chars()
        invariant
            v@ == it.seq().take(it.index() as int),
    {
        v.push(c);
    }
    v
}

/// The string made of the characters of `v`.
pub fn string_from(v: &[char]) -> (s: String)
    ensures
        s@ == v@,
{
    let mut s = String::new();
    let mut i: usize = 0;
    while i < v.len()
        invariant
            i <= v.len(),
            s@ == v@.take(i as int),
        decreases v.len() - i,
    {
        push_char(&mut s, v[i]);
        i = i + 1;
        assert(v@.take(i as int) =~= v@.take(i - 1).push(v@[i - 1]));
    }
    assert(v@.take(v@.len() as int) =~= v@);
    s
}

/// A copy of `s`.
pub fn copy_string(s: &String) -> (r: String)
    ensures
        r@ == s@,
{
    s.clone()
}

/// The characters `v[a..b]`.
pub fn slice_chars(v: &[char], a: usize, b: usize) -> (r: Vec<char>)
    requires
        a <= b <= v.len(),
    ensures
        r@ == v@.subrange(a as int, b as int),
{
    let mut r: Vec<char> = Vec::new();
    let mut i: usize = a;
    while i < b
        invariant
            a <= i <= b <= v.len(),
            r@ == v@.subrange(a as int, i as int),
        decreases b - i,
    {
        r.push(v[i]);
        i = i + 1;
        assert(v@.subrange(a as int, i as int) =~= v@.subrange(a as int, i - 1).push(v@[i - 1]));
    }
    r
}

/// The bytes `v[a..b]`.
pub fn slice_bytes(v: &[u8], a: usize, b: usize) -> (r: Vec<u8>)
    requires
        a <= b <= v.len(),
    ensures
        r@ == v@.subrange(a as int, b as int),
{
    let mut r: Vec<u8> = Vec::new();
    let mut i: usize = a;
    while i < b
        invariant
            a <= i <= b <= v.len(),
            r@ == v@.subrange(a as int, i as int),
        decreases b - i,
    {
        r.push(v[i]);
        i = i + 1;
        assert(v@.subrange(a as int, i as int) =~= v@.subrange(a as int, i - 1).push(v@[i - 1]));
    }
    r
}

/// The string `v[a..b]`.
pub fn substring(v: &[char], a: usize, b: usize) -> (s: String)
    requires
        a <= b <= v.len(),
    ensures
        s@ == v@.subrange(a as int, b as int),
{
    let r = slice_chars(v, a, b);
    string_from(r.as_slice())
}

/// Appends the characters of `t` to `s`.
pub fn append_chars(s: &mut String, t: &[char])
    ensures
        final(s)@ == old(s)@ + t@,
{
    let ghost s0 = s@;
    let mut i: usize = 0;
    while i < t.len()
        invariant
            i <= t.len(),
            s@ == s0 + t@.take(i as int),
        decreases t.len() - i,
    {
        push_char(s, t[i]);
        i = i + 1;
        assert(t@.take(i as int) =~= t@.take(i - 1).push(t@[i - 1]));
    }
    assert(t@.take(t@.len() as int) =~= t@);
}

// ---------------------------------------------------------------------------
// equality, prefixes, suffixes, searching
// ---------------------------------------------------------------------------

/// Whether the two character sequences are equal.
pub fn chars_eq(a: &[char], b: &[char]) -> (r: bool)
    ensures
        r == (a@ == b@),
{
    if a.len() != b.len() {
        return false;
    }
    let mut i: usize = 0;
    while i < a.len()
        invariant
            i <= a.len(),
            a.len() == b.len(),
            a@.take(i as int) == b@.take(i as int),
        decreases a.len() - i,
    {
        if a[i] != b[i] {
            assert(a@[i as int] != b@[i as int]);
            return false;
        }
        assert(a@.take(i + 1) =~= a@.take(i as int).push(a@[i as int]));
        assert(b@.take(i + 1) =~= b@.take(i as int).push(b@[i as int]));
        i = i + 1;
    }
    assert(a@ =~= a@.take(a@.len() as int));
    assert(b@ =~= b@.take(b@.len() as int));
    true
}

/// Whether the characters of `a` equal those of the string `b`.
pub fn chars_eq_str(a: &[char], b: &str) -> (r: bool)
    ensures
        r == (a@ == b@),
{
    let bv = chars_of(b);
    chars_eq(a, bv.as_slice())
}

/// Whether the strings `a` and `b` are equal.
pub fn str_eq(a: &str, b: &str) -> (r: bool)
    ensures
        r == (a@ == b@),
{
    let av = chars_of(a);
    chars_eq_str(av.as_slice(), b)
}

/// `s` starts with `p`.
pub open spec fn has_prefix(s: Seq<char>, p: Seq<char>) -> bool {
    p.len() <= s.len() && s.take(p.len() as int) == p
}

/// `s` ends with `p`.
pub open spec fn has_suffix(s: Seq<char>, p: Seq<char>) -> bool {
    p.len() <= s.len() && s.skip(s.len() - p.len()) == p
}

/// Whether `s` has the prefix `p`.
pub fn starts_with(s: &[char], p: &[char]) -> (r: bool)
    ensures
        r == has_prefix(s@, p@),
{
    if p.len() > s.len() {
        return false;
    }
    let mut i: usize = 0;
    while i < p.len()
        invariant
            i <= p.len() <= s.len(),
            s@.take(i as int) == p@.take(i as int),
        decreases p.len() - i,
    {
        if s[i] != p[i] {
            assert(s@.take(p.len() as int)[i as int] != p@[i as int]);
            return false;
        }
        assert(s@.take(i + 1) =~= s@.take(i as int).push(s@[i as int]));
        assert(p@.take(i + 1) =~= p@.take(i as int).push(p@[i as int]));
        i = i + 1;
    }
    assert(p@ =~= p@.take(p@.len() as int));
    true
}

/// Whether `s` has the prefix `p`, a string literal or slice.
pub fn starts_with_str(s: &[char], p: &str) -> (r: bool)
    ensures
        r == has_prefix(s@, p@),
{
    let pv = chars_of(p);
    starts_with(s, pv.as_slice())
}

/// Whether `s` has the suffix `p`.
pub fn ends_with(s: &[char], p: &[char]) -> (r: bool)
    ensures
        r == has_suffix(s@, p@),
{
    if p.len() > s.len() {
        return false;
    }
    let off = s.len() - p.len();
    let mut i: usize = 0;
    while i < p.len()
        invariant
            i <= p.len() <= s.len(),
            off == s.len() - p.len(),
            s@.skip(off as int).take(i as int) == p@.take(i as int),
        decreases p.len() - i,
    {
        if s[off + i] != p[i] {
            assert(s@.skip(off as int)[i as int] != p@[i as int]);
            return false;
        }
        assert(s@.skip(off as int).take(i + 1) =~= s@.skip(off as int).take(i as int).push(
            s@[off + i],
        ));
        assert(p@.take(i + 1) =~= p@.take(i as int).push(p@[i as int]));
        i = i + 1;
    }
    assert(p@ =~= p@.take(p@.len() as int));
    assert(s@.skip(off as int) =~= s@.skip(off as int).take(p@.len() as int));
    true
}

/// Whether `s` has the suffix `p`, a string literal or slice.
pub fn ends_with_str(s: &[char], p: &str) -> (r: bool)
    ensures
        r == has_suffix(s@, p@),
{
    let pv = chars_of(p);
    ends_with(s, pv.as_slice())
}

/// `sub` occurs in `s` starting at index `i`.
pub open spec fn occurs_at(s: Seq<char>, sub: Seq<char>, i: int) -> bool {
    0 <= i && i + sub.len() <= s.len() && s.subrange(i, i + sub.len()) == sub
}

/// `sub` occurs somewhere in `s`.
pub open spec fn contains_seq(s: Seq<char>, sub: Seq<char>) -> bool {
    exists|i: int| occurs_at(s, sub, i)
}

/// Whether `sub` occurs at index `i` of `s`.
fn occurs_at_exec(s: &[char], sub: &[char], i: usize) -> (r: bool)
    ensures
        r == occurs_at(s@, sub@, i as int),
{
    if i > s.len() || sub.len() > s.len() - i {
        return false;
    }
    let mut k: usize = 0;
    while k < sub.len()
        invariant
            k <= sub.len(),
            i + sub.len() <= s.len(),
            s@.subrange(i as int, i + k) == sub@.take(k as int),
        decreases sub.len() - k,
    {
        if s[i + k] != sub[k] {
            assert(s@.subrange(i as int, i + sub.len())[k as int] != sub@[k as int]);
            return false;
        }
        assert(s@.subrange(i as int, i + k + 1) =~= s@.subrange(i as int, i + k).push(
            s@[i + k],
        ));
        assert(sub@.take(k + 1) =~= sub@.take(k as int).push(sub@[k as int]));
        k = k + 1;
    }
    assert(sub@ =~= sub@.take(sub@.len() as int));
    true
}

/// Whether `sub` occurs in `s`.
pub fn contains(s: &[char], sub: &[char]) -> (r: bool)
    ensures
        r == contains_seq(s@, sub@),
{
    if sub.len() > s.len() {
        assert forall|i: int| !occurs_at(s@, sub@, i) by {}
        return false;
    }
    let mut i: usize = 0;
    while i <= s.len() - sub.len()
        invariant
            sub.len() <= s.len(),
            i <= s.len() - sub.len() + 1,
            forall|j: int| 0 <= j < i ==> !occurs_at(s@, sub@, j),
        decreases s.len() - sub.len() + 1 - i,
    {
        if occurs_at_exec(s, sub, i) {
            return true;
        }
        if i == s.len() - sub.len() {
            assert forall|j: int| !occurs_at(s@, sub@, j) by {
                if 0 <= j <= i {
                }
            }
            return false;
        }
        i = i + 1;
    }
    false
}

/// Whether the string literal `sub` occurs in `s`.
pub fn contains_str(s: &[char], sub: &str) -> (r: bool)
    ensures
        r == contains_seq(s@, sub@),
{
    let sv = chars_of(sub);
    contains(s, sv.as_slice())
}

/// The index of the first occurrence of `c` in `s`, if any.
pub open spec fn find_char(s: Seq<char>, c: char) -> Option<int>
    decreases s.len(),
{
    if s.len() == 0 {
        None
    } else if s[0] == c {
        Some(0)
    } else {
        match find_char(s.skip(1), c) {
            Some(i) => Some(i + 1),
            None => None,
        }
    }
}

/// The index of the last occurrence of `c` in `s`, if any.
pub open spec fn rfind_char(s: Seq<char>, c: char) -> Option<int>
    decreases s.len(),
{
    if s.len() == 0 {
        None
    } else if s.last() == c {
        Some(s.len() - 1)
    } else {
        rfind_char(s.drop_last(), c)
    }
}

/// What `find_char` gives: the first index holding `c`, or none at all.
pub proof fn lemma_find_char(s: Seq<char>, c: char)
    ensures
        match find_char(s, c) {
            Some(i) => 0 <= i < s.len() && s[i] == c && forall|j: int| 0 <= j < i ==> s[j] != c,
            None => forall|j: int| 0 <= j < s.len() ==> s[j] != c,
        },
    decreases s.len(),
{
    if s.len() > 0 && s[0] != c {
        lemma_find_char(s.skip(1), c);
        match find_char(s.skip(1), c) {
            Some(i) => {
                assert forall|j: int| 0 <= j < i + 1 implies s[j] != c by {
                    if j > 0 {
                        assert(s[j] == s.skip(1)[j - 1]);
                    }
                }
            },
            None => {
                assert forall|j: int| 0 <= j < s.len() implies s[j] != c by {
                    if j > 0 {
                        assert(s[j] == s.skip(1)[j - 1]);
                    }
                }
            },
        }
    }
}

/// What `rfind_char` gives: the last index holding `c`, or none at all.
pub proof fn lemma_rfind_char(s: Seq<char>, c: char)
    ensures
        match rfind_char(s, c) {
            Some(i) => 0 <= i < s.len() && s[i] == c && forall|j: int| i < j < s.len() ==> s[j]
                != c,
            None => forall|j: int| 0 <= j < s.len() ==> s[j] != c,
        },
    decreases s.len(),
{
    if s.len() > 0 && s.last() != c {
        lemma_rfind_char(s.drop_last(), c);
        assert forall|j: int| 0 <= j < s.len() - 1 implies s[j] == s.drop_last()[j] by {}
    }
}

/// The first index of `c` in `s`.
pub fn find_char_exec(s: &[char], c: char) -> (r: Option<usize>)
    ensures
        match find_char(s@, c) {
            Some(i) => r == Some(i as usize),
            None => r is None,
        },
{
    proof {
        lemma_find_char(s@, c);
    }
    let mut i: usize = 0;
    while i < s.len()
        invariant
            i <= s.len(),
            forall|j: int| 0 <= j < i ==> s@[j] != c,
            match find_char(s@, c) {
                Some(k) => 0 <= k < s@.len() && s@[k] == c && forall|j: int|
                    0 <= j < k ==> s@[j] != c,
                None => forall|j: int| 0 <= j < s@.len() ==> s@[j] != c,
            },
        decreases s.len() - i,
    {
        if s[i] == c {
            return Some(i);
        }
        i = i + 1;
    }
    None
}

/// The last index of `c` in `s`.
pub fn rfind_char_exec(s: &[char], c: char) -> (r: Option<usize>)
    ensures
        match rfind_char(s@, c) {
            Some(i) => r == Some(i as usize),
            None => r is None,
        },
{
    proof {
        lemma_rfind_char(s@, c);
    }
    let mut i: usize = s.len();
    while i > 0
        invariant
            i <= s.len(),
            forall|j: int| i <= j < s@.len() ==> s@[j] != c,
            match rfind_char(s@, c) {
                Some(k) => 0 <= k < s@.len() && s@[k] == c && forall|j: int|
                    k < j < s@.len() ==> s@[j] != c,
                None => forall|j: int| 0 <= j < s@.len() ==> s@[j] != c,
            },
        decreases i,
    {
        if s[i - 1] == c {
            return Some(i - 1);
        }
        i = i - 1;
    }
    None
}


// ---------------------------------------------------------------------------
// whitespace and trimming
// ---------------------------------------------------------------------------

/// Unicode `White_Space`, the set that `char::is_whitespace` tests.
pub open spec fn is_ws(c: char) -> bool {
    let u = c as u32;
    ||| 9 <= u <= 13
    ||| u == 32
    ||| u == 0x85
    ||| u == 0xA0
    ||| u == 0x1680
    ||| 0x2000 <= u <= 0x200A
    ||| u == 0x2028
    ||| u == 0x2029
    ||| u == 0x202F
    ||| u == 0x205F
    ||| u == 0x3000
}

/// Whether `c` is white space.
pub fn is_ws_exec(c: char) -> (r: bool)
    ensures
        r == is_ws(c),
{
    let u = c as u32;
    (9 <= u && u <= 13) || u == 32 || u == 0x85 || u == 0xA0 || u == 0x1680 || (0x2000 <= u && u
        <= 0x200A) || u == 0x2028 || u == 0x2029 || u == 0x202F || u == 0x205F || u == 0x3000
}

/// The index of the first character at or after `i` that is not white space.
pub open spec fn skip_ws_from(s: Seq<char>, i: int) -> int
    decreases s.len() - i,
{
    if i < 0 || i >= s.len() {
        s.len() as int
    } else if is_ws(s[i]) {
        skip_ws_from(s, i + 1)
    } else {
        i
    }
}

/// The end of `s[..j]` once white space at its end is dropped.
pub open spec fn trim_end_to(s: Seq<char>, j: int) -> int
    decreases j,
{
    if j <= 0 || j > s.len() {
        0
    } else if is_ws(s[j - 1]) {
        trim_end_to(s, j - 1)
    } else {
        j
    }
}

/// `s` without white space at its start.
pub open spec fn trim_start(s: Seq<char>) -> Seq<char> {
    s.skip(skip_ws_from(s, 0))
}

/// `s` without white space at its end.
pub open spec fn trim_end(s: Seq<char>) -> Seq<char> {
    s.take(trim_end_to(s, s.len() as int))
}

/// `s` without white space at either end.
pub open spec fn trim(s: Seq<char>) -> Seq<char> {
    trim_end(trim_start(s))
}

proof fn lemma_skip_ws_from_range(s: Seq<char>, i: int)
    requires
        0 <= i <= s.len(),
    ensures
        i <= skip_ws_from(s, i) <= s.len(),
    decreases s.len() - i,
{
    if i < s.len() && is_ws(s[i]) {
        lemma_skip_ws_from_range(s, i + 1);
    }
}

proof fn lemma_trim_end_to_range(s: Seq<char>, j: int)
    requires
        0 <= j <= s.len(),
    ensures
        0 <= trim_end_to(s, j) <= j,
    decreases j,
{
    if j > 0 && is_ws(s[j - 1]) {
        lemma_trim_end_to_range(s, j - 1);
    }
}

/// The index of the first non-space character of `s` (or its length).
pub fn skip_ws_exec(s: &[char]) -> (r: usize)
    ensures
        r == skip_ws_from(s@, 0),
        r <= s.len(),
{
    let mut i: usize = 0;
    while i < s.len() && is_ws_exec(s[i])
        invariant
            i <= s.len(),
            skip_ws_from(s@, 0) == skip_ws_from(s@, i as int),
        decreases s.len() - i,
    {
        i = i + 1;
    }
    i
}

/// The length of `s[..j]` once white space at its end is dropped.
pub fn trim_end_exec(s: &[char], j: usize) -> (r: usize)
    requires
        j <= s.len(),
    ensures
        r == trim_end_to(s@, j as int),
        r <= j,
{
    let mut k: usize = j;
    while k > 0 && is_ws_exec(s[k - 1])
        invariant
            k <= j <= s.len(),
            trim_end_to(s@, j as int) == trim_end_to(s@, k as int),
        decreases k,
    {
        k = k - 1;
    }
    k
}

/// The index of the first character at or after `i` that is not `c`.
pub open spec fn skip_char_from(s: Seq<char>, c: char, i: int) -> int
    decreases s.len() - i,
{
    if i < 0 || i >= s.len() {
        s.len() as int
    } else if s[i] == c {
        skip_char_from(s, c, i + 1)
    } else {
        i
    }
}

/// The end of `s[..j]` once the characters `c` at its end are dropped.
pub open spec fn trim_char_end_to(s: Seq<char>, c: char, j: int) -> int
    decreases j,
{
    if j <= 0 || j > s.len() {
        0
    } else if s[j - 1] == c {
        trim_char_end_to(s, c, j - 1)
    } else {
        j
    }
}

/// `s` without the characters `c` at its start (as `trim_start_matches`).
pub open spec fn trim_start_char(s: Seq<char>, c: char) -> Seq<char> {
    s.skip(skip_char_from(s, c, 0))
}

/// `s` without the characters `c` at its end (as `trim_end_matches`).
pub open spec fn trim_end_char(s: Seq<char>, c: char) -> Seq<char> {
    s.take(trim_char_end_to(s, c, s.len() as int))
}

/// `s` without the characters `c` at its start.
pub fn trim_start_char_exec(s: &[char], c: char) -> (r: Vec<char>)
    ensures
        r@ == trim_start_char(s@, c),
{
    let mut i: usize = 0;
    while i < s.len() && s[i] == c
        invariant
            i <= s.len(),
            skip_char_from(s@, c, 0) == skip_char_from(s@, c, i as int),
        decreases s.len() - i,
    {
        i = i + 1;
    }
    slice_chars(s, i, s.len())
}

/// `s` without the characters `c` at its end.
pub fn trim_end_char_exec(s: &[char], c: char) -> (r: Vec<char>)
    ensures
        r@ == trim_end_char(s@, c),
{
    let mut k: usize = s.len();
    while k > 0 && s[k - 1] == c
        invariant
            k <= s.len(),
            trim_char_end_to(s@, c, s.len() as int) == trim_char_end_to(s@, c, k as int),
        decreases k,
    {
        k = k - 1;
    }
    slice_chars(s, 0, k)
}

/// `s` without white space at either end.
pub fn trim_chars(s: &[char]) -> (r: Vec<char>)
    ensures
        r@ == trim(s@),
{
    let a = skip_ws_exec(s);
    let rest = slice_chars(s, a, s.len());
    assert(rest@ == trim_start(s@));
    let b = trim_end_exec(rest.as_slice(), rest.len());
    slice_chars(rest.as_slice(), 0, b)
}

/// `s` without white space at its end.
pub fn trim_end_chars(s: &[char]) -> (r: Vec<char>)
    ensures
        r@ == trim_end(s@),
{
    let b = trim_end_exec(s, s.len());
    slice_chars(s, 0, b)
}

/// Appends `piece` to a list of character vectors.
pub fn push_piece(done: &mut Vec<Vec<char>>, piece: Vec<char>)
    ensures
        final(done).deep_view() == old(done).deep_view().push(piece@),
{
    let ghost p = piece@;
    assert(piece.deep_view() =~= piece@);
    done.push(piece);
    assert(done.deep_view() =~= old(done).deep_view().push(p));
}

// ---------------------------------------------------------------------------
// splitting
// ---------------------------------------------------------------------------

/// The pieces of `s` between occurrences of `sep` (as `str::split` gives
/// them): one piece more than there are separators.
pub open spec fn split_char(s: Seq<char>, sep: char) -> Seq<Seq<char>>
    decreases s.len(),
{
    if s.len() == 0 {
        seq![Seq::<char>::empty()]
    } else {
        let p = split_char(s.drop_last(), sep);
        if s.last() == sep {
            p.push(Seq::<char>::empty())
        } else {
            p.update(p.len() - 1, p.last().push(s.last()))
        }
    }
}

/// `split_char` never gives an empty list of pieces.
pub proof fn lemma_split_char_len(s: Seq<char>, sep: char)
    ensures
        split_char(s, sep).len() >= 1,
    decreases s.len(),
{
    if s.len() > 0 {
        lemma_split_char_len(s.drop_last(), sep);
    }
}

/// Splits `s` at every `sep`.
pub fn split_chars(s: &[char], sep: char) -> (r: Vec<Vec<char>>)
    ensures
        r.deep_view() == split_char(s@, sep),
{
    let mut done: Vec<Vec<char>> = Vec::new();
    let mut cur: Vec<char> = Vec::new();
    let mut i: usize = 0;
    while i < s.len()
        invariant
            i <= s.len(),
            done.deep_view().push(cur@) == split_char(s@.take(i as int), sep),
        decreases s.len() - i,
    {
        let c = s[i];
        proof {
            assert(s@.take(i + 1).drop_last() =~= s@.take(i as int));
            lemma_split_char_len(s@.take(i as int), sep);
        }
        if c == sep {
            let mut old_cur: Vec<char> = Vec::new();
            std::mem::swap(&mut old_cur, &mut cur);
            push_piece(&mut done, old_cur);
        } else {
            let ghost before = done.deep_view();
            cur.push(c);
            assert(done.deep_view().push(cur@) =~= before.push(cur@));
        }
        i = i + 1;
        assert(done.deep_view().push(cur@) =~= split_char(s@.take(i as int), sep));
    }
    assert(s@.take(s@.len() as int) =~= s@);
    push_piece(&mut done, cur);
    done
}

/// `s` split at its first `sep`, if there is one (as `str::split_once`).
pub open spec fn split_once(s: Seq<char>, sep: char) -> Option<(Seq<char>, Seq<char>)> {
    match find_char(s, sep) {
        Some(i) => Some((s.take(i), s.skip(i + 1))),
        None => None,
    }
}

/// `s` split at its last `sep`, if there is one (as `str::rsplit_once`).
pub open spec fn rsplit_once(s: Seq<char>, sep: char) -> Option<(Seq<char>, Seq<char>)> {
    match rfind_char(s, sep) {
        Some(i) => Some((s.take(i), s.skip(i + 1))),
        None => None,
    }
}

/// Splits `s` at its first `sep`.
pub fn split_once_exec(s: &[char], sep: char) -> (r: Option<(Vec<char>, Vec<char>)>)
    ensures
        match split_once(s@, sep) {
            Some((a, b)) => r matches Some((x, y)) && x@ == a && y@ == b,
            None => r is None,
        },
{
    match find_char_exec(s, sep) {
        Some(i) => {
            proof {
                lemma_find_char(s@, sep);
            }
            let a = slice_chars(s, 0, i);
            let b = slice_chars(s, i + 1, s.len());
            Some((a, b))
        },
        None => None,
    }
}

/// Splits `s` at its last `sep`.
pub fn rsplit_once_exec(s: &[char], sep: char) -> (r: Option<(Vec<char>, Vec<char>)>)
    ensures
        match rsplit_once(s@, sep) {
            Some((a, b)) => r matches Some((x, y)) && x@ == a && y@ == b,
            None => r is None,
        },
{
    match rfind_char_exec(s, sep) {
        Some(i) => {
            proof {
                lemma_rfind_char(s@, sep);
            }
            let a = slice_chars(s, 0, i);
            let b = slice_chars(s, i + 1, s.len());
            Some((a, b))
        },
        None => None,
    }
}

/// The words of `s` seen so far, and the word being read, after reading `s`.
pub open spec fn words_state(s: Seq<char>) -> (Seq<Seq<char>>, Seq<char>)
    decreases s.len(),
{
    if s.len() == 0 {
        (Seq::empty(), Seq::empty())
    } else {
        let (done, cur) = words_state(s.drop_last());
        if is_ws(s.last()) {
            if cur.len() > 0 {
                (done.push(cur), Seq::empty())
            } else {
                (done, cur)
            }
        } else {
            (done, cur.push(s.last()))
        }
    }
}

/// The maximal runs of non-space characters of `s` (as `str::split_whitespace`).
pub open spec fn words(s: Seq<char>) -> Seq<Seq<char>> {
    let (done, cur) = words_state(s);
    if cur.len() > 0 {
        done.push(cur)
    } else {
        done
    }
}

/// Splits `s` into its words.
pub fn split_words(s: &[char]) -> (r: Vec<Vec<char>>)
    ensures
        r.deep_view() == words(s@),
{
    let mut done: Vec<Vec<char>> = Vec::new();
    let mut cur: Vec<char> = Vec::new();
    let mut i: usize = 0;
    while i < s.len()
        invariant
            i <= s.len(),
            (done.deep_view(), cur@) == words_state(s@.take(i as int)),
        decreases s.len() - i,
    {
        let c = s[i];
        proof {
            assert(s@.take(i + 1).drop_last() =~= s@.take(i as int));
        }
        if is_ws_exec(c) {
            if cur.len() > 0 {
                let mut old_cur: Vec<char> = Vec::new();
                std::mem::swap(&mut old_cur, &mut cur);
                push_piece(&mut done, old_cur);
            }
        } else {
            cur.push(c);
        }
        i = i + 1;
        assert((done.deep_view(), cur@) =~= words_state(s@.take(i as int)));
    }
    assert(s@.take(s@.len() as int) =~= s@);
    if cur.len() > 0 {
        push_piece(&mut done, cur);
    }
    done
}

/// `p` without a final carriage return.
pub open spec fn strip_cr(p: Seq<char>) -> Seq<char> {
    if p.len() > 0 && p.last() == '\r' {
        p.drop_last()
    } else {
        p
    }
}

/// The lines of `s` as `str::lines` gives them: split at `'\n'`, a `'\r'`
/// before a `'\n'` dropped, and no empty line after a final line end.
pub open spec fn lines(s: Seq<char>) -> Seq<Seq<char>> {
    let parts = split_char(s, '\n');
    let n = parts.len();
    let kept = if parts.last().len() == 0 {
        n - 1
    } else {
        n as int
    };
    Seq::new(
        kept as nat,
        |i: int|
            if i < n - 1 {
                strip_cr(parts[i])
            } else {
                parts[i]
            },
    )
}

/// The lines of `s`.
pub fn lines_exec(s: &[char]) -> (r: Vec<Vec<char>>)
    ensures
        r.deep_view() == lines(s@),
{
    let parts = split_chars(s, '\n');
    proof {
        lemma_split_char_len(s@, '\n');
    }
    let n = parts.len();
    let kept = if parts[n - 1].len() == 0 {
        n - 1
    } else {
        n
    };
    let mut out: Vec<Vec<char>> = Vec::new();
    let mut i: usize = 0;
    while i < kept
        invariant
            kept <= n == parts.len(),
            n >= 1,
            parts.deep_view() == split_char(s@, '\n'),
            kept == (if parts.deep_view().last().len() == 0 {
                n - 1
            } else {
                n as int
            }),
            i <= kept,
            out.deep_view() == lines(s@).take(i as int),
        decreases kept - i,
    {
        let p = &parts[i];
        let piece = if i < n - 1 && p.len() > 0 && p[p.len() - 1] == '\r' {
            slice_chars(p.as_slice(), 0, p.len() - 1)
        } else {
            slice_chars(p.as_slice(), 0, p.len())
        };
        proof {
            assert(p@ == parts.deep_view()[i as int]);
            if i < n - 1 && p@.len() > 0 && p@.last() == '\r' {
                assert(piece@ =~= p@.drop_last());
            } else {
                assert(piece@ =~= p@);
            }
        }
        push_piece(&mut out, piece);
        i = i + 1;
        assert(out.deep_view() =~= lines(s@).take(i as int));
    }
    assert(lines(s@).take(kept as int) =~= lines(s@));
    out
}

// ---------------------------------------------------------------------------
// ASCII case
// ---------------------------------------------------------------------------

/// `c` with `A`..`Z` mapped to `a`..`z`.
pub open spec fn ascii_lower(c: char) -> char {
    if 'A' <= c <= 'Z' {
        ((c as u32) + 32) as char
    } else {
        c
    }
}

/// `c` with `a`..`z` mapped to `A`..`Z`.
pub open spec fn ascii_upper(c: char) -> char {
    if 'a' <= c <= 'z' {
        ((c as u32) - 32) as char
    } else {
        c
    }
}

/// `s` with ASCII letters in lower case (as `str::to_ascii_lowercase`).
pub open spec fn ascii_lower_seq(s: Seq<char>) -> Seq<char> {
    s.map_values(|c: char| ascii_lower(c))
}

/// `s` with ASCII letters in upper case (as `str::to_ascii_uppercase`).
pub open spec fn ascii_upper_seq(s: Seq<char>) -> Seq<char> {
    s.map_values(|c: char| ascii_upper(c))
}

/// `a` and `b` are equal up to ASCII case (as `str::eq_ignore_ascii_case`).
pub open spec fn eq_ignore_ascii_case(a: Seq<char>, b: Seq<char>) -> bool {
    ascii_lower_seq(a) == ascii_lower_seq(b)
}

/// `c` in ASCII lower case.
pub fn ascii_lower_exec(c: char) -> (r: char)
    ensures
        r == ascii_lower(c),
{
    if 'A' <= c && c <= 'Z' {
        let b = c as u8;
        assert(b == c as u32);
        (b + 32) as char
    } else {
        c
    }
}

/// `s` in ASCII lower case.
pub fn ascii_lower_chars(s: &[char]) -> (r: Vec<char>)
    ensures
        r@ == ascii_lower_seq(s@),
{
    let mut r: Vec<char> = Vec::new();
    let mut i: usize = 0;
    while i < s.len()
        invariant
            i <= s.len(),
            r@ == ascii_lower_seq(s@.take(i as int)),
        decreases s.len() - i,
    {
        r.push(ascii_lower_exec(s[i]));
        i = i + 1;
        assert(ascii_lower_seq(s@.take(i as int)) =~= ascii_lower_seq(s@.take(i - 1)).push(
            ascii_lower(s@[i - 1]),
        ));
    }
    assert(s@.take(s@.len() as int) =~= s@);
    r
}

/// Whether `a` and `b` are equal up to ASCII case.
pub fn eq_ignore_ascii_case_exec(a: &[char], b: &[char]) -> (r: bool)
    ensures
        r == eq_ignore_ascii_case(a@, b@),
{
    let la = ascii_lower_chars(a);
    let lb = ascii_lower_chars(b);
    chars_eq(la.as_slice(), lb.as_slice())
}


// ---------------------------------------------------------------------------
// decimal numbers
// ---------------------------------------------------------------------------

/// `c` is one of `0`..`9`.
pub open spec fn is_digit(c: char) -> bool {
    '0' <= c <= '9'
}

/// The value of the digit `c`.
pub open spec fn digit_value(c: char) -> nat {
    ((c as u32) - ('0' as u32)) as nat
}

/// Every character of `s` is a digit.
pub open spec fn all_digits(s: Seq<char>) -> bool {
    forall|i: int| 0 <= i < s.len() ==> is_digit(#[trigger] s[i])
}

/// The value of the decimal digits `s`.
pub open spec fn digits_value(s: Seq<char>) -> nat
    decreases s.len(),
{
    if s.len() == 0 {
        0
    } else {
        digits_value(s.drop_last()) * 10 + digit_value(s.last())
    }
}

/// The integer that `s` writes, as Rust's `FromStr` for integers reads it:
/// an optional sign (`-` only where `signed`) and at least one digit.
pub open spec fn parse_int(s: Seq<char>, signed: bool) -> Option<int> {
    if s.len() > 0 && s[0] == '+' {
        let d = s.skip(1);
        if d.len() > 0 && all_digits(d) {
            Some(digits_value(d) as int)
        } else {
            None
        }
    } else if signed && s.len() > 0 && s[0] == '-' {
        let d = s.skip(1);
        if d.len() > 0 && all_digits(d) {
            Some(-(digits_value(d) as int))
        } else {
            None
        }
    } else if s.len() > 0 && all_digits(s) {
        Some(digits_value(s) as int)
    } else {
        None
    }
}

/// `s.parse::<i64>()`.
pub open spec fn parse_i64(s: Seq<char>) -> Option<i64> {
    match parse_int(s, true) {
        Some(n) => if i64::MIN <= n <= i64::MAX {
            Some(n as i64)
        } else {
            None
        },
        None => None,
    }
}

/// `s.parse::<u32>()`.
pub open spec fn parse_u32(s: Seq<char>) -> Option<u32> {
    match parse_int(s, false) {
        Some(n) => if n <= u32::MAX {
            Some(n as u32)
        } else {
            None
        },
        None => None,
    }
}

/// `s.parse::<u16>()`.
pub open spec fn parse_u16(s: Seq<char>) -> Option<u16> {
    match parse_int(s, false) {
        Some(n) => if n <= u16::MAX {
            Some(n as u16)
        } else {
            None
        },
        None => None,
    }
}

/// `s.parse::<usize>()`.
pub open spec fn parse_usize(s: Seq<char>) -> Option<usize> {
    match parse_int(s, false) {
        Some(n) => if n <= usize::MAX {
            Some(n as usize)
        } else {
            None
        },
        None => None,
    }
}

proof fn lemma_digits_value_prefix(s: Seq<char>, i: int)
    requires
        0 <= i <= s.len(),
    ensures
        digits_value(s.take(i)) <= digits_value(s),
    decreases s.len() - i,
{
    if i < s.len() {
        lemma_digits_value_prefix(s, i + 1);
        assert(s.take(i + 1).drop_last() =~= s.take(i));
    } else {
        assert(s.take(i) =~= s);
    }
}

/// The value of the digits `s`, or `None` when `s` is empty, holds a
/// non-digit, or its value is over `u64::MAX`.
fn digits_exec(s: &[char]) -> (r: Option<u64>)
    ensures
        match r {
            Some(v) => s@.len() > 0 && all_digits(s@) && v == digits_value(s@),
            None => !(s@.len() > 0 && all_digits(s@)) || digits_value(s@) > u64::MAX,
        },
{
    if s.len() == 0 {
        return None;
    }
    let mut acc: u128 = 0;
    let mut i: usize = 0;
    while i < s.len()
        invariant
            i <= s.len(),
            all_digits(s@.take(i as int)),
            acc == digits_value(s@.take(i as int)),
            acc <= u64::MAX,
        decreases s.len() - i,
    {
        let c = s[i];
        if !('0' <= c && c <= '9') {
            assert(!is_digit(s@[i as int]));
            return None;
        }
        let d = (c as u32) - ('0' as u32);
        proof {
            assert(s@.take(i + 1).drop_last() =~= s@.take(i as int));
        }
        acc = acc * 10 + d as u128;
        i = i + 1;
        assert(all_digits(s@.take(i as int))) by {
            assert forall|j: int| 0 <= j < i implies is_digit(#[trigger] s@.take(i as int)[j]) by {
                if j < i - 1 {
                    assert(s@.take(i as int)[j] == s@.take(i - 1)[j]);
                }
            }
        }
        if acc > 0xffff_ffff_ffff_ffffu128 {
            proof {
                lemma_digits_value_prefix(s@, i as int);
            }
            return None;
        }
    }
    assert(s@.take(s@.len() as int) =~= s@);
    Some(acc as u64)
}

/// Reads an integer as `str::parse` does; `None` on a malformed or
/// out-of-range text. The result is the sign and the magnitude.
fn parse_int_exec(s: &[char], signed: bool) -> (r: Option<(bool, u64)>)
    ensures
        match r {
            Some((neg, m)) => parse_int(s@, signed) == Some(if neg {
                -(m as int)
            } else {
                m as int
            }) && (neg ==> signed),
            None => match parse_int(s@, signed) {
                Some(n) => n > u64::MAX || n < -(u64::MAX as int),
                None => true,
            },
        },
{
    if s.len() > 0 && s[0] == '+' {
        let d = slice_chars(s, 1, s.len());
        assert(d@ =~= s@.skip(1));
        match digits_exec(d.as_slice()) {
            Some(m) => Some((false, m)),
            None => None,
        }
    } else if signed && s.len() > 0 && s[0] == '-' {
        let d = slice_chars(s, 1, s.len());
        assert(d@ =~= s@.skip(1));
        match digits_exec(d.as_slice()) {
            Some(m) => Some((true, m)),
            None => None,
        }
    } else {
        match digits_exec(s) {
            Some(m) => Some((false, m)),
            None => None,
        }
    }
}

/// `s.parse::<i64>().ok()`.
pub fn parse_i64_exec(s: &[char]) -> (r: Option<i64>)
    ensures
        r == parse_i64(s@),
{
    match parse_int_exec(s, true) {
        Some((neg, m)) => {
            if neg {
                if m <= 0x8000_0000_0000_0000u64 {
                    Some((0i128 - m as i128) as i64)
                } else {
                    None
                }
            } else {
                if m <= 0x7fff_ffff_ffff_ffffu64 {
                    Some(m as i64)
                } else {
                    None
                }
            }
        },
        None => None,
    }
}

/// `s.parse::<u32>().ok()`.
pub fn parse_u32_exec(s: &[char]) -> (r: Option<u32>)
    ensures
        r == parse_u32(s@),
{
    match parse_int_exec(s, false) {
        Some((_, m)) => if m <= 0xffff_ffffu64 {
            Some(m as u32)
        } else {
            None
        },
        None => None,
    }
}

/// `s.parse::<u16>().ok()`.
pub fn parse_u16_exec(s: &[char]) -> (r: Option<u16>)
    ensures
        r == parse_u16(s@),
{
    match parse_int_exec(s, false) {
        Some((_, m)) => if m <= 0xffffu64 {
            Some(m as u16)
        } else {
            None
        },
        None => None,
    }
}

/// `s.parse::<usize>().ok()`.
pub fn parse_usize_exec(s: &[char]) -> (r: Option<usize>)
    ensures
        r == parse_usize(s@),
{
    match parse_int_exec(s, false) {
        Some((_, m)) => if m as u128 <= usize::MAX as u128 {
            Some(m as usize)
        } else {
            None
        },
        None => None,
    }
}

/// The character of the digit `d`.
pub open spec fn digit_char(d: nat) -> char {
    (('0' as u32) + d) as char
}

/// Different digits have different characters.
pub proof fn lemma_digit_char_injective(x: nat, y: nat)
    requires
        x < 10,
        y < 10,
        digit_char(x) == digit_char(y),
    ensures
        x == y,
{
    assert((digit_char(x) as u32) == 48 + x);
    assert((digit_char(y) as u32) == 48 + y);
}

/// The decimal digits of `n` (as `Display` writes an unsigned integer).
pub open spec fn decimal(n: nat) -> Seq<char>
    decreases n,
{
    if n < 10 {
        seq![digit_char(n)]
    } else {
        decimal(n / 10).push(digit_char(n % 10))
    }
}

/// The decimal text of `n` (as `Display` writes a signed integer).
pub open spec fn decimal_int(n: int) -> Seq<char> {
    if n < 0 {
        seq!['-'] + decimal((-n) as nat)
    } else {
        decimal(n as nat)
    }
}

/// The decimal digits of `n`.
pub fn decimal_u64(n: u64) -> (r: Vec<char>)
    ensures
        r@ == decimal(n as nat),
    decreases n,
{
    let d = (n % 10) as u8;
    let c = (48u8 + d) as char;
    assert(c == digit_char((n % 10) as nat));
    if n < 10 {
        let mut r: Vec<char> = Vec::new();
        r.push(c);
        assert(r@ =~= seq![c]);
        r
    } else {
        let mut r = decimal_u64(n / 10);
        r.push(c);
        r
    }
}

/// The decimal text of `n`.
pub fn decimal_i64(n: i64) -> (r: Vec<char>)
    ensures
        r@ == decimal_int(n as int),
{
    if n < 0 {
        let m = (0i128 - n as i128) as u64;
        let digits = decimal_u64(m);
        let mut r: Vec<char> = Vec::new();
        r.push('-');
        let mut i: usize = 0;
        while i < digits.len()
            invariant
                i <= digits.len(),
                r@ == seq!['-'] + digits@.take(i as int),
            decreases digits.len() - i,
        {
            r.push(digits[i]);
            i = i + 1;
            assert(digits@.take(i as int) =~= digits@.take(i - 1).push(digits@[i - 1]));
            assert(r@ =~= seq!['-'] + digits@.take(i as int));
        }
        assert(digits@.take(digits@.len() as int) =~= digits@);
        r
    } else {
        decimal_u64(n as u64)
    }
}

/// Appends the decimal text of `n` to `s`.
pub fn push_u64(s: &mut String, n: u64)
    ensures
        final(s)@ == old(s)@ + decimal(n as nat),
{
    let d = decimal_u64(n);
    append_chars(s, d.as_slice());
}

/// Appends the decimal text of `n` to `s`.
pub fn push_i64(s: &mut String, n: i64)
    ensures
        final(s)@ == old(s)@ + decimal_int(n as int),
{
    let d = decimal_i64(n);
    append_chars(s, d.as_slice());
}

// ---------------------------------------------------------------------------
// joining
// ---------------------------------------------------------------------------

/// The pieces `ps` joined by `sep` (as `slice::join`).
pub open spec fn join(ps: Seq<Seq<char>>, sep: Seq<char>) -> Seq<char>
    decreases ps.len(),
{
    if ps.len() == 0 {
        Seq::empty()
    } else if ps.len() == 1 {
        ps[0]
    } else {
        join(ps.drop_last(), sep) + sep + ps.last()
    }
}

/// The pieces `ps[a..b]` joined by `sep`.
pub fn join_exec(ps: &Vec<Vec<char>>, a: usize, b: usize, sep: &str) -> (r: String)
    requires
        a <= b <= ps.len(),
    ensures
        r@ == join(ps.deep_view().subrange(a as int, b as int), sep@),
{
    let mut r = String::new();
    let mut i: usize = a;
    while i < b
        invariant
            a <= i <= b <= ps.len(),
            r@ == join(ps.deep_view().subrange(a as int, i as int), sep@),
        decreases b - i,
    {
        if i > a {
            push_str(&mut r, sep);
        }
        append_chars(&mut r, ps[i].as_slice());
        proof {
            assert(ps.deep_view()[i as int] == ps@[i as int]@);
            assert(ps.deep_view().subrange(a as int, i + 1).drop_last() =~= ps.deep_view().subrange(
                a as int,
                i as int,
            ));
            if i == a {
                assert(r@ =~= ps@[i as int]@);
            }
        }
        i = i + 1;
    }
    r
}

} // verus!
