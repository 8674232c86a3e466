//! Character-level text primitives.
//!
//! Strings are read into `Vec<char>` and processed as sequences of Unicode
//! scalar values; every operation is specified over `Seq<char>`.
use vstd::prelude::*;

verus! {

// ---------------------------------------------------------------------------
// Character classes
// ---------------------------------------------------------------------------

/// Unicode `White_Space`, the set that `char::is_whitespace` and `str::trim` use.
pub open spec fn is_ws(c: char) -> bool {
    let u = c as u32;
    ||| 0x09 <= u <= 0x0D
    ||| u == 0x20
    ||| u == 0x85
    ||| u == 0xA0
    ||| u == 0x1680
    ||| 0x2000 <= u <= 0x200A
    ||| u == 0x2028
    ||| u == 0x2029
    ||| u == 0x202F
    ||| u == 0x205F
    ||| u == 0x3000
}

/// ASCII whitespace as `char::is_ascii_whitespace` defines it (no vertical tab).
pub open spec fn is_ascii_ws(c: char) -> bool {
    let u = c as u32;
    u == 0x20 || u == 0x09 || u == 0x0A || u == 0x0C || u == 0x0D
}

pub open spec fn is_ascii_upper(c: char) -> bool {
    65 <= c as u32 <= 90
}

pub open spec fn is_ascii_lower(c: char) -> bool {
    97 <= c as u32 <= 122
}

pub open spec fn is_ascii_digit(c: char) -> bool {
    48 <= c as u32 <= 57
}

pub open spec fn is_ascii_alnum(c: char) -> bool {
    is_ascii_upper(c) || is_ascii_lower(c) || is_ascii_digit(c)
}

/// The code point of `c` after ASCII lowercasing.
pub open spec fn lower_code(c: char) -> int {
    if is_ascii_upper(c) {
        c as u32 + 32
    } else {
        c as u32 as int
    }
}

/// `s` with every ASCII uppercase letter lowercased (`str::to_ascii_lowercase`).
pub open spec fn lower(s: Seq<char>) -> Seq<char> {
    Seq::new(s.len(), |i: int| lower_char(s[i]))
}

pub open spec fn lower_char(c: char) -> char {
    if is_ascii_upper(c) {
        ((c as u32 + 32) as u8) as char
    } else {
        c
    }
}

/// Lower-casing twice is lower-casing once.
pub proof fn lemma_lower_idempotent(s: Seq<char>)
    ensures
        lower(lower(s)) == lower(s),
{
    assert forall|i: int| 0 <= i < s.len() implies lower_char(lower_char(s[i])) == lower_char(s[i]) by {
        let c = s[i];
        if is_ascii_upper(c) {
            let d = ((c as u32 + 32) as u8) as char;
            assert((d as u32) == c as u32 + 32);
            assert(!is_ascii_upper(d));
        }
    }
    assert(lower(lower(s)) =~= lower(s));
}

/// ASCII case-insensitive equality (`str::eq_ignore_ascii_case`).
pub open spec fn eq_ignore_case(a: Seq<char>, b: Seq<char>) -> bool {
    a.len() == b.len() && forall|i: int| 0 <= i < a.len() ==> lower_code(a[i]) == lower_code(b[i])
}

pub fn is_ws_exec(c: char) -> (r: bool)
    ensures
        r == is_ws(c),
{
    let u = c as u32;
    (0x09 <= u && u <= 0x0D) || u == 0x20 || u == 0x85 || u == 0xA0 || u == 0x1680 || (0x2000
        <= u && u <= 0x200A) || u == 0x2028 || u == 0x2029 || u == 0x202F || u == 0x205F || u
        == 0x3000
}

pub fn is_ascii_ws_exec(c: char) -> (r: bool)
    ensures
        r == is_ascii_ws(c),
{
    let u = c as u32;
    u == 0x20 || u == 0x09 || u == 0x0A || u == 0x0C || u == 0x0D
}

pub fn is_ascii_alnum_exec(c: char) -> (r: bool)
    ensures
        r == is_ascii_alnum(c),
{
    let u = c as u32;
    (65 <= u && u <= 90) || (97 <= u && u <= 122) || (48 <= u && u <= 57)
}

pub fn lower_char_exec(c: char) -> (r: char)
    ensures
        r == lower_char(c),
        r as u32 == lower_code(c),
{
    let u = c as u32;
    if 65 <= u && u <= 90 {
        ((u + 32) as u8) as char
    } else {
        c
    }
}

// ---------------------------------------------------------------------------
// Conversions between `str` and character vectors
// ---------------------------------------------------------------------------

/// The characters of `s`, in order.
pub fn chars_of(s: &str) -> (v: Vec<char>)
    ensures
        v@ == s@,
{
    let mut v: Vec<char> = Vec::new();
    for c in it: s.chars()
        invariant
            v@ == it.seq().take(it.index() as int),
    {
        v.push(c);
    }
    v
}

/// Collects characters into a `String` (`FromIterator<&char> for String`).
#[verifier::external_body]
pub(crate) fn string_of(v: &[char]) -> (s: String)
    ensures
        s@ == v@,
{
    v.iter().collect::<String>()
}

/// An owned copy of `s`.
pub fn string_from_str(s: &str) -> (r: String)
    ensures
        r@ == s@,
{
    s.to_owned()
}

// ---------------------------------------------------------------------------
// Trimming
// ---------------------------------------------------------------------------

/// `s` without its leading whitespace.
pub open spec fn trim_start(s: Seq<char>) -> Seq<char>
    decreases s.len(),
{
    if s.len() > 0 && is_ws(s[0]) {
        trim_start(s.drop_first())
    } else {
        s
    }
}

/// `s` without its trailing whitespace.
pub open spec fn trim_end(s: Seq<char>) -> Seq<char>
    decreases s.len(),
{
    if s.len() > 0 && is_ws(s.last()) {
        trim_end(s.drop_last())
    } else {
        s
    }
}

/// `str::trim`: `s` without leading and trailing whitespace.
pub open spec fn trim(s: Seq<char>) -> Seq<char> {
    trim_end(trim_start(s))
}

proof fn lemma_trim_start_shape(s: Seq<char>) -> (lo: int)
    ensures
        0 <= lo <= s.len(),
        trim_start(s) == s.subrange(lo, s.len() as int),
        trim_start(s).len() > 0 ==> !is_ws(trim_start(s)[0]),
    decreases s.len(),
{
    if s.len() > 0 && is_ws(s[0]) {
        let lo1 = lemma_trim_start_shape(s.drop_first());
        assert(s.drop_first().subrange(lo1, s.drop_first().len() as int) =~= s.subrange(lo1 + 1, s.len() as int));
        lo1 + 1
    } else {
        assert(s.subrange(0, s.len() as int) =~= s);
        0
    }
}

proof fn lemma_trim_end_shape(s: Seq<char>) -> (hi: int)
    ensures
        0 <= hi <= s.len(),
        trim_end(s) == s.subrange(0, hi),
        trim_end(s).len() > 0 ==> !is_ws(trim_end(s).last()),
    decreases s.len(),
{
    if s.len() > 0 && is_ws(s.last()) {
        let hi1 = lemma_trim_end_shape(s.drop_last());
        assert(s.drop_last().subrange(0, hi1) =~= s.subrange(0, hi1));
        hi1
    } else {
        assert(s.subrange(0, s.len() as int) =~= s);
        s.len() as int
    }
}

/// Trimming a trimmed text changes nothing.
pub proof fn lemma_trim_idempotent(s: Seq<char>)
    ensures
        trim(trim(s)) == trim(s),
{
    let a = trim_start(s);
    let t = trim_end(a);
    lemma_trim_start_shape(s);
    lemma_trim_end_shape(a);
    if t.len() > 0 {
        assert(t[0] == a[0]);
        assert(trim_start(t) == t);
        assert(trim_end(t) == t);
    } else {
        assert(trim_start(t) == t);
        assert(trim_end(t) == t);
    }
}

proof fn lemma_trim_start_skip(s: Seq<char>, i: int)
    requires
        0 <= i <= s.len(),
        forall|j: int| 0 <= j < i ==> is_ws(#[trigger] s[j]),
    ensures
        trim_start(s) == trim_start(s.subrange(i, s.len() as int)),
    decreases i,
{
    if i > 0 {
        assert(s.drop_first() =~= s.subrange(1, s.len() as int));
        lemma_trim_start_skip(s.drop_first(), i - 1);
        assert(s.drop_first().subrange(i - 1, s.drop_first().len() as int) =~= s.subrange(
            i,
            s.len() as int,
        ));
    } else {
        assert(s.subrange(0, s.len() as int) =~= s);
    }
}

proof fn lemma_trim_end_take(s: Seq<char>, k: int)
    requires
        0 <= k <= s.len(),
        forall|j: int| k <= j < s.len() ==> is_ws(#[trigger] s[j]),
    ensures
        trim_end(s) == trim_end(s.take(k)),
    decreases s.len() - k,
{
    if k < s.len() {
        lemma_trim_end_take(s.drop_last(), k);
        assert(s.drop_last().take(k) =~= s.take(k));
    } else {
        assert(s.take(k) =~= s);
    }
}

/// Bounds `(lo, hi)` of `trim(s)` inside `s`.
pub fn trim_bounds(s: &[char]) -> (r: (usize, usize))
    ensures
        r.0 <= r.1 <= s@.len(),
        s@.subrange(r.0 as int, r.1 as int) == trim(s@),
{
    let n = s.len();
    let mut lo: usize = 0;
    while lo < n && is_ws_exec(s[lo])
        invariant
            lo <= n,
            n == s@.len(),
            forall|j: int| 0 <= j < lo ==> is_ws(#[trigger] s@[j]),
        decreases n - lo,
    {
        lo = lo + 1;
    }
    let ghost rest = s@.subrange(lo as int, n as int);
    proof {
        lemma_trim_start_skip(s@, lo as int);
        if lo < n {
            assert(!is_ws(rest[0]));
        }
        assert(trim_start(s@) == rest);
    }
    let mut hi: usize = n;
    while hi > lo && is_ws_exec(s[hi - 1])
        invariant
            lo <= hi <= n,
            n == s@.len(),
            forall|j: int| hi <= j < n ==> is_ws(#[trigger] s@[j]),
        decreases hi - lo,
    {
        hi = hi - 1;
    }
    proof {
        let k = (hi - lo) as int;
        assert forall|j: int| k <= j < rest.len() implies is_ws(#[trigger] rest[j]) by {
            assert(rest[j] == s@[lo + j]);
        }
        lemma_trim_end_take(rest, k);
        assert(rest.take(k) =~= s@.subrange(lo as int, hi as int));
        if k > 0 {
            assert(!is_ws(rest.take(k).last()));
        }
    }
    (lo, hi)
}

/// `str::trim` on characters.
pub fn trim_chars(s: &[char]) -> (r: Vec<char>)
    ensures
        r@ == trim(s@),
{
    let (lo, hi) = trim_bounds(s);
    slice_range(s, lo, hi)
}

/// A copy of `s[lo..hi]`.
pub fn slice_range(s: &[char], lo: usize, hi: usize) -> (r: Vec<char>)
    requires
        lo <= hi <= s@.len(),
    ensures
        r@ == s@.subrange(lo as int, hi as int),
{
    let mut r: Vec<char> = Vec::new();
    let mut i = lo;
    while i < hi
        invariant
            lo <= i <= hi <= s@.len(),
            r@ == s@.subrange(lo as int, i as int),
        decreases hi - i,
    {
        r.push(s[i]);
        i = i + 1;
    }
    r
}

// ---------------------------------------------------------------------------
// Comparison and search
// ---------------------------------------------------------------------------

/// Exact equality of two character sequences.
pub fn chars_eq(a: &[char], b: &[char]) -> (r: bool)
    ensures
        r == (a@ == b@),
{
    if a.len() != b.len() {
        return false;
    }
    let mut i: usize = 0;
    while i < a.len()
        invariant
            a@.len() == b@.len(),
            i <= a@.len(),
            forall|j: int| 0 <= j < i ==> a@[j] == b@[j],
        decreases a.len() - i,
    {
        if a[i] != b[i] {
            return false;
        }
        i = i + 1;
    }
    assert(a@ =~= b@);
    true
}

/// Equality of `a` with the characters of `b`.
pub fn chars_eq_str(a: &[char], b: &str) -> (r: bool)
    ensures
        r == (a@ == b@),
{
    let bv = chars_of(b);
    chars_eq(a, bv.as_slice())
}

/// ASCII case-insensitive equality.
pub fn eq_ignore_case_exec(a: &[char], b: &[char]) -> (r: bool)
    ensures
        r == eq_ignore_case(a@, b@),
{
    if a.len() != b.len() {
        return false;
    }
    let mut i: usize = 0;
    while i < a.len()
        invariant
            a@.len() == b@.len(),
            i <= a@.len(),
            forall|j: int| 0 <= j < i ==> lower_code(a@[j]) == lower_code(b@[j]),
        decreases a.len() - i,
    {
        let x = lower_char_exec(a[i]);
        let y = lower_char_exec(b[i]);
        if x != y {
            assert(lower_code(a@[i as int]) != lower_code(b@[i as int]));
            return false;
        }
        i = i + 1;
    }
    true
}

/// `str::to_ascii_lowercase` on characters.
pub fn lower_chars(s: &[char]) -> (r: Vec<char>)
    ensures
        r@ == lower(s@),
{
    let mut r: Vec<char> = Vec::new();
    let mut i: usize = 0;
    while i < s.len()
        invariant
            i <= s@.len(),
            r@ == lower(s@.take(i as int)),
        decreases s.len() - i,
    {
        let c = lower_char_exec(s[i]);
        r.push(c);
        i = i + 1;
        assert(r@ =~= lower(s@.take(i as int)));
    }
    assert(s@.take(s@.len() as int) =~= s@);
    r
}

/// `p` is a prefix of `s`.
pub open spec fn has_prefix(s: Seq<char>, p: Seq<char>) -> bool {
    p.len() <= s.len() && s.take(p.len() as int) == p
}

/// `p` occurs in `s` starting at index `i`.
pub open spec fn occurs_at(s: Seq<char>, p: Seq<char>, i: int) -> bool {
    0 <= i && i + p.len() <= s.len() && s.subrange(i, i + p.len()) == p
}

/// `p` occurs somewhere in `s` (`str::contains`).
pub open spec fn contains_seq(s: Seq<char>, p: Seq<char>) -> bool {
    exists|i: int| occurs_at(s, p, i)
}

pub fn starts_with(s: &[char], p: &[char]) -> (r: bool)
    ensures
        r == has_prefix(s@, p@),
{
    if p.len() > s.len() {
        return false;
    }
    let mut i: usize = 0;
    while i < p.len()
        invariant
            p@.len() <= s@.len(),
            i <= p@.len(),
            forall|j: int| 0 <= j < i ==> s@[j] == p@[j],
        decreases p.len() - i,
    {
        if s[i] != p[i] {
            assert(s@.take(p@.len() as int)[i as int] != p@[i as int]);
            return false;
        }
        i = i + 1;
    }
    assert(s@.take(p@.len() as int) =~= p@);
    true
}

pub fn starts_with_str(s: &[char], p: &str) -> (r: bool)
    ensures
        r == has_prefix(s@, p@),
{
    let pv = chars_of(p);
    starts_with(s, pv.as_slice())
}

/// Whether `p` occurs in `s` at index `i`.
pub fn occurs_at_exec(s: &[char], p: &[char], i: usize) -> (r: bool)
    ensures
        r == occurs_at(s@, p@, i as int),
{
    let n = s.len();
    if i > n || p.len() > n - i {
        return false;
    }
    let mut k: usize = 0;
    while k < p.len()
        invariant
            i + p@.len() <= s@.len(),
            n == s@.len(),
            k <= p@.len(),
            forall|j: int| 0 <= j < k ==> s@[i + j] == p@[j],
        decreases p.len() - k,
    {
        if s[i + k] != p[k] {
            assert(s@.subrange(i as int, i + p@.len())[k as int] != p@[k as int]);
            return false;
        }
        k = k + 1;
    }
    assert(s@.subrange(i as int, i + p@.len()) =~= p@);
    true
}

/// `str::contains` for a pattern given as characters.
pub fn contains_exec(s: &[char], p: &[char]) -> (r: bool)
    ensures
        r == contains_seq(s@, p@),
{
    if p.len() > s.len() {
        assert forall|i: int| !occurs_at(s@, p@, i) by {}
        return false;
    }
    let n = s.len();
    let m = p.len();
    let last = n - m;
    let mut i: usize = 0;
    while i < last
        invariant
            p@.len() <= s@.len(),
            n == s@.len(),
            m == p@.len(),
            last == n - m,
            i <= last,
            forall|j: int| 0 <= j < i ==> !occurs_at(s@, p@, j),
        decreases last - i,
    {
        if occurs_at_exec(s, p, i) {
            return true;
        }
        i = i + 1;
    }
    if occurs_at_exec(s, p, last) {
        return true;
    }
    assert forall|j: int| !occurs_at(s@, p@, j) by {
        if 0 <= j && j > last {
            assert(j + p@.len() > s@.len());
        }
    }
    false
}

pub fn contains_str(s: &[char], p: &str) -> (r: bool)
    ensures
        r == contains_seq(s@, p@),
{
    let pv = chars_of(p);
    contains_exec(s, pv.as_slice())
}

/// Index of the first occurrence of `c` in `s` at or after `from`.
pub open spec fn find_from(s: Seq<char>, c: char, from: int) -> Option<int>
    decreases s.len() - from,
{
    if from < 0 || from >= s.len() {
        None
    } else if s[from] == c {
        Some(from)
    } else {
        find_from(s, c, from + 1)
    }
}

/// Index of the first occurrence of `c` in `s`.
pub open spec fn find_first(s: Seq<char>, c: char) -> Option<int> {
    find_from(s, c, 0)
}

pub proof fn lemma_find_from(s: Seq<char>, c: char, from: int)
    requires
        0 <= from,
    ensures
        find_from(s, c, from) matches Some(i) ==> from <= i < s.len() && s[i] == c && forall|
            j: int,
        | from <= j < i ==> s[j] != c,
        find_from(s, c, from) is None ==> forall|j: int| from <= j < s.len() ==> s[j] != c,
    decreases s.len() - from,
{
    if from < s.len() && s[from] != c {
        lemma_find_from(s, c, from + 1);
    }
}

/// Characterizes `find_first` by its defining property.
pub proof fn lemma_find_first_char(s: Seq<char>, c: char, i: int)
    requires
        0 <= i < s.len(),
        s[i] == c,
        forall|j: int| 0 <= j < i ==> s[j] != c,
    ensures
        find_first(s, c) == Some(i),
{
    lemma_find_from_skip(s, c, 0, i);
}

proof fn lemma_find_from_skip(s: Seq<char>, c: char, from: int, i: int)
    requires
        0 <= from <= i < s.len(),
        s[i] == c,
        forall|j: int| from <= j < i ==> s[j] != c,
    ensures
        find_from(s, c, from) == Some(i),
    decreases i - from,
{
    if from < i {
        lemma_find_from_skip(s, c, from + 1, i);
    }
}

pub proof fn lemma_find_first_none(s: Seq<char>, c: char)
    requires
        forall|j: int| 0 <= j < s.len() ==> s[j] != c,
    ensures
        find_first(s, c) is None,
{
    lemma_none_from(s, c, 0);
}

proof fn lemma_none_from(s: Seq<char>, c: char, from: int)
    requires
        0 <= from,
        forall|j: int| from <= j < s.len() ==> s[j] != c,
    ensures
        find_from(s, c, from) is None,
    decreases s.len() - from,
{
    if from < s.len() {
        lemma_none_from(s, c, from + 1);
    }
}

/// `str::find` for a single character.
pub fn find_char(s: &[char], c: char) -> (r: Option<usize>)
    ensures
        r matches Some(i) ==> find_first(s@, c) == Some(i as int),
        r is None ==> find_first(s@, c) is None,
        r matches Some(i) ==> i < s@.len() && s@[i as int] == c,
        r is None ==> forall|j: int| 0 <= j < s@.len() ==> s@[j] != c,
{
    let mut i: usize = 0;
    while i < s.len()
        invariant
            i <= s@.len(),
            forall|j: int| 0 <= j < i ==> s@[j] != c,
        decreases s.len() - i,
    {
        if s[i] == c {
            proof {
                lemma_find_first_char(s@, c, i as int);
            }
            return Some(i);
        }
        i = i + 1;
    }
    proof {
        lemma_find_first_none(s@, c);
    }
    None
}

/// Index of the last occurrence of `c` in `s`.
pub open spec fn find_last(s: Seq<char>, c: char) -> Option<int>
    decreases s.len(),
{
    if s.len() == 0 {
        None
    } else if s.last() == c {
        Some(s.len() - 1)
    } else {
        find_last(s.drop_last(), c)
    }
}

proof fn lemma_find_last(s: Seq<char>, c: char, k: int)
    requires
        0 <= k <= s.len(),
        forall|j: int| k <= j < s.len() ==> s[j] != c,
    ensures
        find_last(s, c) == find_last(s.take(k), c),
    decreases s.len() - k,
{
    if k < s.len() {
        lemma_find_last(s.drop_last(), c, k);
        assert(s.drop_last().take(k) =~= s.take(k));
    } else {
        assert(s.take(k) =~= s);
    }
}

pub proof fn lemma_find_last_props(s: Seq<char>, c: char)
    ensures
        find_last(s, c) matches Some(i) ==> 0 <= i < s.len() && s[i] == c && forall|j: int|
            i < j < s.len() ==> s[j] != c,
        find_last(s, c) is None ==> forall|j: int| 0 <= j < s.len() ==> s[j] != c,
    decreases s.len(),
{
    if s.len() > 0 && s.last() != c {
        lemma_find_last_props(s.drop_last(), c);
        assert forall|j: int| 0 <= j < s.len() - 1 implies s.drop_last()[j] == s[j] by {}
    }
}

/// `str::rfind` for a single character.
pub fn rfind_char(s: &[char], c: char) -> (r: Option<usize>)
    ensures
        r matches Some(i) ==> find_last(s@, c) == Some(i as int),
        r is None ==> find_last(s@, c) is None,
{
    let mut k: usize = s.len();
    while k > 0
        invariant
            k <= s@.len(),
            forall|j: int| k <= j < s@.len() ==> s@[j] != c,
        decreases k,
    {
        if s[k - 1] == c {
            proof {
                lemma_find_last(s@, c, k as int);
            }
            return Some(k - 1);
        }
        k = k - 1;
    }
    proof {
        lemma_find_last(s@, c, 0);
    }
    None
}

/// `str::split_once` on a character: the parts before and after the first `c`.
pub open spec fn split_once(s: Seq<char>, c: char) -> Option<(Seq<char>, Seq<char>)> {
    match find_first(s, c) {
        Some(i) => Some((s.take(i), s.skip(i + 1))),
        None => None,
    }
}

/// `str::rsplit_once` on a character: the parts before and after the last `c`.
pub open spec fn rsplit_once(s: Seq<char>, c: char) -> Option<(Seq<char>, Seq<char>)> {
    match find_last(s, c) {
        Some(i) => Some((s.take(i), s.skip(i + 1))),
        None => None,
    }
}

pub fn split_once_exec(s: &[char], c: char) -> (r: Option<(Vec<char>, Vec<char>)>)
    ensures
        r matches Some(p) ==> split_once(s@, c) == Some((p.0@, p.1@)),
        r is None ==> split_once(s@, c) is None,
{
    match find_char(s, c) {
        Some(i) => {
            let a = slice_range(s, 0, i);
            let n = s.len();
            let b = slice_range(s, i + 1, n);
            assert(a@ =~= s@.take(i as int));
            assert(b@ =~= s@.skip(i + 1));
            Some((a, b))
        },
        None => None,
    }
}

pub fn rsplit_once_exec(s: &[char], c: char) -> (r: Option<(Vec<char>, Vec<char>)>)
    ensures
        r matches Some(p) ==> rsplit_once(s@, c) == Some((p.0@, p.1@)),
        r is None ==> rsplit_once(s@, c) is None,
{
    proof {
        lemma_find_last_props(s@, c);
    }
    match rfind_char(s, c) {
        Some(i) => {
            let a = slice_range(s, 0, i);
            let n = s.len();
            let b = slice_range(s, i + 1, n);
            assert(a@ =~= s@.take(i as int));
            assert(b@ =~= s@.skip(i + 1));
            Some((a, b))
        },
        None => None,
    }
}

/// `str::split` on a character: the pieces between occurrences of `c`.
pub open spec fn split_char(s: Seq<char>, c: char) -> Seq<Seq<char>>
    decreases s.len(),
{
    if s.len() == 0 {
        seq![Seq::<char>::empty()]
    } else {
        let prev = split_char(s.drop_last(), c);
        if s.last() == c {
            prev.push(Seq::<char>::empty())
        } else {
            prev.update(prev.len() - 1, prev.last().push(s.last()))
        }
    }
}

pub proof fn lemma_split_char_nonempty(s: Seq<char>, c: char)
    ensures
        split_char(s, c).len() >= 1,
    decreases s.len(),
{
    if s.len() > 0 {
        lemma_split_char_nonempty(s.drop_last(), c);
    }
}

/// No piece of a split holds the separator, nor a character the text lacks.
pub proof fn lemma_split_char_avoids(s: Seq<char>, c: char, d: char)
    requires
        d == c || forall|k: int| 0 <= k < s.len() ==> s[k] != d,
    ensures
        forall|i: int| 0 <= i < split_char(s, c).len() ==> !(#[trigger] split_char(s, c)[i]).contains(d),
    decreases s.len(),
{
    if s.len() > 0 {
        lemma_split_char_avoids(s.drop_last(), c, d);
        lemma_split_char_nonempty(s.drop_last(), c);
        let prev = split_char(s.drop_last(), c);
        if s.last() != c {
            let grown = prev.last().push(s.last());
            assert forall|j: int| 0 <= j < grown.len() implies grown[j] != d by {
                if j < prev.last().len() {
                    assert(prev.last()[j] == grown[j]);
                }
            }
        }
    }
}

/// `str::split` on a character.
pub fn split_char_exec(s: &[char], c: char) -> (r: Vec<Vec<char>>)
    ensures
        r@.len() == split_char(s@, c).len(),
        forall|i: int| 0 <= i < r@.len() ==> #[trigger] r@[i]@ == split_char(s@, c)[i],
{
    let mut done: Vec<Vec<char>> = Vec::new();
    let mut cur: Vec<char> = Vec::new();
    let mut i: usize = 0;
    while i < s.len()
        invariant
            i <= s@.len(),
            done@.len() + 1 == split_char(s@.take(i as int), c).len(),
            forall|k: int|
                0 <= k < done@.len() ==> #[trigger] done@[k]@ == split_char(s@.take(i as int), c)[k],
            cur@ == split_char(s@.take(i as int), c).last(),
        decreases s.len() - i,
    {
        proof {
            lemma_split_char_nonempty(s@.take(i as int), c);
            assert(s@.take(i + 1).drop_last() =~= s@.take(i as int));
        }
        if s[i] == c {
            let finished = cur;
            done.push(finished);
            cur = Vec::new();
        } else {
            cur.push(s[i]);
        }
        i = i + 1;
    }
    done.push(cur);
    assert(s@.take(s@.len() as int) =~= s@);
    done
}

// ---------------------------------------------------------------------------
// Decimal numbers (`FromStr` for unsigned integers)
// ---------------------------------------------------------------------------

pub open spec fn digit_value(c: char) -> int {
    c as u32 - 48
}

/// The value of a sequence of decimal digits.
pub open spec fn digits_value(s: Seq<char>) -> int
    decreases s.len(),
{
    if s.len() == 0 {
        0
    } else {
        digits_value(s.drop_last()) * 10 + digit_value(s.last())
    }
}

pub open spec fn all_digits(s: Seq<char>) -> bool {
    forall|i: int| 0 <= i < s.len() ==> is_ascii_digit(#[trigger] s[i])
}

/// `s` without an optional leading `+`.
pub open spec fn unsigned_digits(s: Seq<char>) -> Seq<char> {
    if s.len() > 0 && s[0] == '+' {
        s.drop_first()
    } else {
        s
    }
}

/// What `s.parse::<uN>()` gives for an unsigned type whose maximum is `max`:
/// an optional `+`, then at least one decimal digit, with a value at most `max`.
pub open spec fn parse_unsigned(s: Seq<char>, max: int) -> Option<int> {
    let d = unsigned_digits(s);
    if d.len() > 0 && all_digits(d) && digits_value(d) <= max {
        Some(digits_value(d))
    } else {
        None
    }
}

proof fn lemma_digits_value_nonneg(s: Seq<char>)
    requires
        all_digits(s),
    ensures
        digits_value(s) >= 0,
    decreases s.len(),
{
    if s.len() > 0 {
        lemma_digits_value_nonneg(s.drop_last());
    }
}

proof fn lemma_digits_value_grows(s: Seq<char>, k: int)
    requires
        all_digits(s),
        0 <= k <= s.len(),
    ensures
        digits_value(s.take(k)) <= digits_value(s),
    decreases s.len() - k,
{
    if k < s.len() {
        lemma_digits_value_grows(s.drop_last(), k);
        assert(s.drop_last().take(k) =~= s.take(k));
        lemma_digits_value_nonneg(s.drop_last());
    } else {
        assert(s.take(k) =~= s);
    }
}

/// Parses an unsigned decimal number no larger than `max` (Rust's `FromStr` for `u8`..`u64`).
pub fn parse_unsigned_exec(s: &[char], max: u64) -> (r: Option<u64>)
    ensures
        r matches Some(v) ==> parse_unsigned(s@, max as int) == Some(v as int),
        r is None ==> parse_unsigned(s@, max as int) is None,
{
    let start: usize = if s.len() > 0 && s[0] == '+' {
        1
    } else {
        0
    };
    let ghost d = unsigned_digits(s@);
    assert(d =~= s@.skip(start as int));
    if start >= s.len() {
        return None;
    }
    let mut v: u64 = 0;
    let mut i: usize = start;
    while i < s.len()
        invariant
            start <= i <= s@.len(),
            d == unsigned_digits(s@),
            d =~= s@.skip(start as int),
            forall|j: int| 0 <= j < i - start ==> is_ascii_digit(#[trigger] d[j]),
            v as int == digits_value(d.take(i - start)),
            v <= max,
        decreases s.len() - i,
    {
        let c = s[i];
        let u = c as u32;
        assert(d[i - start] == s@[i as int]);
        if u < 48 || u > 57 {
            assert(!is_ascii_digit(d[i - start]));
            assert(!all_digits(d));
            return None;
        }
        let dv = (u - 48) as u64;
        let ghost k = i - start;
        proof {
            assert(d.take(k + 1).drop_last() =~= d.take(k));
            assert(d.take(k + 1).last() == c);
        }
        if dv > max || v > (max - dv) / 10 {
            proof {
                assert(v * 10 + dv > max) by (nonlinear_arith)
                    requires
                        dv > max || v > (max - dv) / 10,
                        dv <= max ==> (max - dv) / 10 * 10 + 10 > max - dv,
                ;
                assert(digits_value(d.take(k + 1)) == v * 10 + dv);
                if all_digits(d) {
                    lemma_digits_value_grows(d, k + 1);
                }
            }
            return None;
        }
        proof {
            assert(v * 10 + dv <= max) by (nonlinear_arith)
                requires
                    v <= (max - dv) / 10,
                    dv <= max,
            ;
        }
        v = v * 10 + dv;
        i = i + 1;
    }
    assert(d.take(d.len() as int) =~= d);
    Some(v)
}

/// The first failure that a left-to-right reading of the digits `d` meets,
/// `acc` being the value read so far: `Some(false)` for a character that is
/// not a digit, `Some(true)` for a value above `max`, `None` when there is none.
pub open spec fn digit_scan_failure(d: Seq<char>, acc: int, max: int) -> Option<bool>
    decreases d.len(),
{
    if d.len() == 0 {
        None
    } else if !is_ascii_digit(d[0]) {
        Some(false)
    } else if acc * 10 + digit_value(d[0]) > max {
        Some(true)
    } else {
        digit_scan_failure(d.drop_first(), acc * 10 + digit_value(d[0]), max)
    }
}

/// The text std prints for the error of `s.parse::<uN>()` (`ParseIntError`) on
/// a text that does not parse, the type's maximum being `max`: an empty text,
/// a character that is not a digit (a lone `+` too), or a value too large,
/// whichever the reading meets first.
pub open spec fn int_error_text(s: Seq<char>, max: int) -> Seq<char> {
    if s.len() == 0 {
        "cannot parse integer from empty string"@
    } else {
        match digit_scan_failure(unsigned_digits(s), 0, max) {
            Some(true) => "number too large to fit in target type"@,
            _ => "invalid digit found in string"@,
        }
    }
}

fn digit_scan_failure_exec(d: &[char], max: u64) -> (r: Option<bool>)
    ensures
        r == digit_scan_failure(d@, 0, max as int),
{
    let mut v: u64 = 0;
    let mut i: usize = 0;
    assert(d@.skip(0) =~= d@);
    while i < d.len()
        invariant
            i <= d@.len(),
            v <= max,
            digit_scan_failure(d@, 0, max as int) == digit_scan_failure(d@.skip(i as int), v as int, max as int),
        decreases d.len() - i,
    {
        let ghost rest = d@.skip(i as int);
        assert(rest[0] == d@[i as int]);
        assert(rest.drop_first() =~= d@.skip(i + 1));
        let c = d[i];
        let u = c as u32;
        if u < 48 || u > 57 {
            return Some(false);
        }
        let dv = (u - 48) as u64;
        assert(digit_value(c) == dv);
        if dv > max || v > (max - dv) / 10 {
            assert(v * 10 + dv > max) by (nonlinear_arith)
                requires
                    dv > max || v > (max - dv) / 10,
                    dv <= max ==> (max - dv) / 10 * 10 + 10 > max - dv,
            ;
            return Some(true);
        }
        assert(v * 10 + dv <= max) by (nonlinear_arith)
            requires
                v <= (max - dv) / 10,
                dv <= max,
        ;
        v = v * 10 + dv;
        i = i + 1;
    }
    None
}

/// The text of the error of `s.parse::<uN>()`, the type's maximum being `max`.
pub fn int_error_text_exec(s: &[char], max: u64) -> (r: String)
    ensures
        r@ == int_error_text(s@, max as int),
{
    if s.len() == 0 {
        return string_from_str("cannot parse integer from empty string");
    }
    let start: usize = if s[0] == '+' {
        1
    } else {
        0
    };
    let d = slice_range(s, start, s.len());
    assert(d@ =~= unsigned_digits(s@));
    match digit_scan_failure_exec(d.as_slice(), max) {
        Some(true) => string_from_str("number too large to fit in target type"),
        _ => string_from_str("invalid digit found in string"),
    }
}

/// The decimal digit character for `d` in `0..10`.
pub open spec fn digit_char(d: int) -> char {
    ((d + 48) as u8) as char
}

/// The decimal text of `n`, without sign or leading zeros (`u64::to_string`).
pub open spec fn decimal(n: nat) -> Seq<char>
    decreases n,
{
    if n < 10 {
        seq![digit_char(n as int)]
    } else {
        decimal(n / 10).push(digit_char((n % 10) as int))
    }
}

/// `u64::to_string` on characters.
pub fn decimal_exec(n: u64) -> (r: Vec<char>)
    ensures
        r@ == decimal(n as nat),
    decreases n,
{
    let d = ((n % 10) as u8 + 48) as char;
    if n < 10 {
        let mut v: Vec<char> = Vec::new();
        v.push(d);
        assert(v@ =~= seq![digit_char(n as int)]);
        v
    } else {
        let mut v = decimal_exec(n / 10);
        v.push(d);
        v
    }
}

/// `u128::to_string` on characters.
pub fn decimal_exec_u128(n: u128) -> (r: Vec<char>)
    ensures
        r@ == decimal(n as nat),
    decreases n,
{
    let d = ((n % 10) as u8 + 48) as char;
    if n < 10 {
        let mut v: Vec<char> = Vec::new();
        v.push(d);
        assert(v@ =~= seq![digit_char(n as int)]);
        v
    } else {
        let mut v = decimal_exec_u128(n / 10);
        v.push(d);
        v
    }
}

/// The decimal text of a signed integer (`i64::to_string`, `i128::to_string`).
pub open spec fn signed_decimal(n: int) -> Seq<char> {
    if n < 0 {
        "-"@ + decimal((-n) as nat)
    } else {
        decimal(n as nat)
    }
}

pub fn signed_decimal_exec(n: i128) -> (r: String)
    ensures
        r@ == signed_decimal(n as int),
{
    if n < 0 {
        let magnitude: u128 = (-(n + 1)) as u128 + 1;
        let d = decimal_exec_u128(magnitude);
        let t = string_of(d.as_slice());
        let mut s = string_from_str("-");
        s.append(t.as_str());
        s
    } else {
        let d = decimal_exec_u128(n as u128);
        string_of(d.as_slice())
    }
}

/// What `s.parse::<i64>()` gives: an optional sign, then at least one decimal
/// digit, with a value in the range of `i64`.
pub open spec fn parse_i64(s: Seq<char>) -> Option<int> {
    if s.len() > 0 && s[0] == '-' {
        let d = s.drop_first();
        if d.len() > 0 && all_digits(d) && digits_value(d) <= 9223372036854775808 {
            Some(-digits_value(d))
        } else {
            None
        }
    } else {
        parse_unsigned(s, 9223372036854775807)
    }
}

/// The text std prints for the error of `s.parse::<i64>()` (`ParseIntError`)
/// on a text that does not parse.
pub open spec fn i64_error_text(s: Seq<char>) -> Seq<char> {
    if s.len() == 0 {
        "cannot parse integer from empty string"@
    } else if s[0] == '-' {
        match digit_scan_failure(s.drop_first(), 0, 9223372036854775808) {
            Some(true) => "number too small to fit in target type"@,
            _ => "invalid digit found in string"@,
        }
    } else {
        int_error_text(s, 9223372036854775807)
    }
}

/// Parses an `i64` (Rust's `FromStr` for `i64`), or gives the error printed.
pub fn parse_i64_exec(s: &[char]) -> (r: Result<i64, String>)
    ensures
        r matches Ok(v) ==> parse_i64(s@) == Some(v as int),
        r matches Err(m) ==> parse_i64(s@) is None && m@ == i64_error_text(s@),
{
    if s.len() > 0 && s[0] == '-' {
        let d = slice_range(s, 1, s.len());
        assert(d@ =~= s@.drop_first());
        if d.len() > 0 && d[0] == '+' {
            assert(!all_digits(d@)) by {
                assert(!is_ascii_digit(d@[0]));
            }
            assert(digit_scan_failure(d@, 0, 9223372036854775808) == Some(false));
            return Err(string_from_str("invalid digit found in string"));
        }
        assert(unsigned_digits(d@) == d@);
        match parse_unsigned_exec(d.as_slice(), 9223372036854775808) {
            Some(v) => {
                if v == 9223372036854775808 {
                    Ok(-9223372036854775807i64 - 1)
                } else {
                    Ok(-(v as i64))
                }
            },
            None => {
                match digit_scan_failure_exec(d.as_slice(), 9223372036854775808) {
                    Some(true) => Err(string_from_str("number too small to fit in target type")),
                    _ => Err(string_from_str("invalid digit found in string")),
                }
            },
        }
    } else {
        match parse_unsigned_exec(s, 9223372036854775807) {
            Some(v) => Ok(v as i64),
            None => Err(int_error_text_exec(s, 9223372036854775807)),
        }
    }
}

// ---------------------------------------------------------------------------
// Replacing (`str::replace`)
// ---------------------------------------------------------------------------

/// `s` from index `i` on, with each occurrence of the non-empty `pat`, taken
/// leftmost first and without overlap, replaced by `with`.
pub open spec fn replace_from(s: Seq<char>, pat: Seq<char>, with: Seq<char>, i: int) -> Seq<char>
    decreases s.len() - i,
{
    if i < 0 || i >= s.len() {
        Seq::empty()
    } else if pat.len() > 0 && occurs_at(s, pat, i) {
        with + replace_from(s, pat, with, i + pat.len())
    } else {
        seq![s[i]] + replace_from(s, pat, with, i + 1)
    }
}

/// `with` before each character of `s` and after the last one.
pub open spec fn interleave(s: Seq<char>, with: Seq<char>) -> Seq<char>
    decreases s.len(),
{
    if s.len() == 0 {
        with
    } else {
        with + seq![s[0]] + interleave(s.drop_first(), with)
    }
}

/// `s.replace(pat, with)`: every occurrence of `pat` replaced, leftmost first
/// and without overlap; an empty `pat` occurs before each character and at the end.
pub open spec fn spec_replace(s: Seq<char>, pat: Seq<char>, with: Seq<char>) -> Seq<char> {
    if pat.len() == 0 {
        interleave(s, with)
    } else {
        replace_from(s, pat, with, 0)
    }
}

fn push_all(out: &mut Vec<char>, items: &[char])
    ensures
        final(out)@ == old(out)@ + items@,
{
    let mut k: usize = 0;
    let ghost start = out@;
    while k < items.len()
        invariant
            k <= items@.len(),
            out@ == start + items@.take(k as int),
        decreases items.len() - k,
    {
        out.push(items[k]);
        assert(items@.take(k + 1) =~= items@.take(k as int).push(items@[k as int]));
        k = k + 1;
    }
    assert(items@.take(items@.len() as int) =~= items@);
}

/// Replaces every occurrence of `pat` in `s` by `with` (see `spec_replace`).
pub fn replace_text(s: &str, pat: &str, with: &str) -> (r: String)
    ensures
        r@ == spec_replace(s@, pat@, with@),
{
    let sc = chars_of(s);
    let pc = chars_of(pat);
    let wc = chars_of(with);
    let mut out: Vec<char> = Vec::new();
    if pc.len() == 0 {
        let mut i: usize = 0;
        assert(sc@.skip(0) =~= sc@);
        while i < sc.len()
            invariant
                i <= sc@.len(),
                out@ + interleave(sc@.skip(i as int), wc@) == interleave(sc@, wc@),
            decreases sc.len() - i,
        {
            let ghost rest = sc@.skip(i as int);
            assert(rest[0] == sc@[i as int]);
            assert(rest.drop_first() =~= sc@.skip(i + 1));
            let ghost before = out@;
            push_all(&mut out, wc.as_slice());
            out.push(sc[i]);
            assert(interleave(rest, wc@) == wc@ + seq![sc@[i as int]] + interleave(sc@.skip(i + 1), wc@));
            assert(out@ + interleave(sc@.skip(i + 1), wc@) =~= before + interleave(rest, wc@));
            i = i + 1;
        }
        let ghost before = out@;
        push_all(&mut out, wc.as_slice());
        assert(sc@.skip(sc@.len() as int) =~= Seq::<char>::empty());
        assert(out@ =~= before + interleave(sc@.skip(i as int), wc@));
        return string_of(out.as_slice());
    }
    let mut i: usize = 0;
    while i < sc.len()
        invariant
            i <= sc@.len(),
            pc@.len() > 0,
            out@ + replace_from(sc@, pc@, wc@, i as int) == replace_from(sc@, pc@, wc@, 0),
        decreases sc.len() - i,
    {
        let ghost before = out@;
        if occurs_at_exec(sc.as_slice(), pc.as_slice(), i) {
            push_all(&mut out, wc.as_slice());
            assert(replace_from(sc@, pc@, wc@, i as int) == wc@ + replace_from(sc@, pc@, wc@, i + pc@.len()));
            assert(out@ + replace_from(sc@, pc@, wc@, i + pc@.len()) =~= before + replace_from(sc@, pc@, wc@, i as int));
            i = i + pc.len();
        } else {
            out.push(sc[i]);
            assert(replace_from(sc@, pc@, wc@, i as int) == seq![sc@[i as int]] + replace_from(sc@, pc@, wc@, i + 1));
            assert(out@ + replace_from(sc@, pc@, wc@, i + 1) =~= before + replace_from(sc@, pc@, wc@, i as int));
            i = i + 1;
        }
    }
    assert(replace_from(sc@, pc@, wc@, i as int) =~= Seq::<char>::empty());
    assert(out@ =~= out@ + replace_from(sc@, pc@, wc@, i as int));
    string_of(out.as_slice())
}

/// Replacing a text that does not occur leaves the text as it is.
pub proof fn lemma_replace_absent(s: Seq<char>, pat: Seq<char>, with: Seq<char>)
    requires
        pat.len() > 0,
        !contains_seq(s, pat),
    ensures
        spec_replace(s, pat, with) == s,
{
    lemma_replace_from_absent(s, pat, with, 0);
    assert(s.skip(0) =~= s);
}

proof fn lemma_replace_from_absent(s: Seq<char>, pat: Seq<char>, with: Seq<char>, i: int)
    requires
        pat.len() > 0,
        0 <= i <= s.len(),
        !contains_seq(s, pat),
    ensures
        replace_from(s, pat, with, i) == s.skip(i),
    decreases s.len() - i,
{
    if i < s.len() {
        assert(!occurs_at(s, pat, i));
        lemma_replace_from_absent(s, pat, with, i + 1);
        assert(s.skip(i) =~= seq![s[i]] + s.skip(i + 1));
    } else {
        assert(s.skip(i) =~= Seq::<char>::empty());
    }
}

} // verus!
