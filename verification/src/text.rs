//! Character-level text utilities shared by the markdown, config and editor
//! modules. Texts are modelled as `Seq<char>`.
use vstd::prelude::*;

verus! {

/// Rust's `char::is_whitespace`: the Unicode `White_Space` property.
pub open spec fn is_ws(c: char) -> bool {
    ||| ('\u{9}' <= c && c <= '\u{d}')
    ||| c == ' '
    ||| c == '\u{85}'
    ||| c == '\u{a0}'
    ||| c == '\u{1680}'
    ||| ('\u{2000}' <= c && c <= '\u{200a}')
    ||| c == '\u{2028}'
    ||| c == '\u{2029}'
    ||| c == '\u{202f}'
    ||| c == '\u{205f}'
    ||| c == '\u{3000}'
}

/// Whether `c` is white space, as `char::is_whitespace` answers.
pub fn is_whitespace(c: char) -> (b: bool)
    ensures
        b == is_ws(c),
{
    ('\u{9}' <= c && c <= '\u{d}') || c == ' ' || c == '\u{85}' || c == '\u{a0}' || c == '\u{1680}'
        || ('\u{2000}' <= c && c <= '\u{200a}') || c == '\u{2028}' || c == '\u{2029}' || c
        == '\u{202f}' || c == '\u{205f}' || c == '\u{3000}'
}

/// Appends one character to a string (`String::push`).
#[verifier::external_body]
pub(crate) fn push_char(s: &mut String, c: char)
    ensures
        final(s)@ == old(s)@.push(c),
{
    s.push(c);
}

/// What `str::to_uppercase` gives for a text: the Unicode upper-case
/// mapping of each character, which may be longer than one character.
pub uninterp spec fn unicode_upper(s: Seq<char>) -> Seq<char>;

/// `str::to_uppercase` of std, on the text the characters make up. The
/// Unicode case tables it follows stay unsaid here: its result is named
/// by [`unicode_upper`].
#[verifier::external_body]
pub(crate) fn to_uppercase(s: &[char]) -> (r: Vec<char>)
    ensures
        r@ == unicode_upper(s@),
{
    let text: String = s.iter().collect();
    text.to_uppercase().chars().collect()
}

/// The characters of a string slice, in order.
pub fn chars_of(s: &str) -> (v: Vec<char>)
    ensures
        v@ == s@,
{
    let mut v: Vec<char> = Vec::new();
    for c in it: s.chars()
        invariant
            v@ == it.seq().take(it.index() as int),
    {
        v.push(c);
    }
    assert(v@ == s@);
    v
}

/// A string holding exactly the given characters.
pub fn string_of(v: &[char]) -> (s: String)
    ensures
        s@ == v@,
{
    let mut s = String::new();
    let mut i: usize = 0;
    while i < v.len()
        invariant
            i <= v.len(),
            s@ == v@.take(i as int),
        decreases v.len() - i,
    {
        push_char(&mut s, v[i]);
        assert(v@.take(i + 1) == v@.take(i as int).push(v@[i as int]));
        i += 1;
    }
    assert(v@.take(v.len() as int) == v@);
    s
}


/// Index of the first character at or after `i` that is not white space
/// (the length when there is none).
pub open spec fn ws_skip(s: Seq<char>, i: int) -> int
    decreases s.len() - i,
{
    if i >= s.len() {
        s.len() as int
    } else if is_ws(s[i]) {
        ws_skip(s, i + 1)
    } else {
        i
    }
}

/// Length of `s` once the white space run that ends at `j` is cut off.
pub open spec fn ws_back(s: Seq<char>, j: int) -> int
    decreases j,
{
    if j <= 0 {
        0
    } else if is_ws(s[j - 1]) {
        ws_back(s, j - 1)
    } else {
        j
    }
}

/// `str::trim_start`.
pub open spec fn trim_start(s: Seq<char>) -> Seq<char> {
    s.skip(ws_skip(s, 0))
}

/// `str::trim_end`.
pub open spec fn trim_end(s: Seq<char>) -> Seq<char> {
    s.take(ws_back(s, s.len() as int))
}

/// `str::trim`.
pub open spec fn trim(s: Seq<char>) -> Seq<char> {
    trim_end(trim_start(s))
}

pub proof fn lemma_ws_skip_bounds(s: Seq<char>, i: int)
    requires
        0 <= i,
    ensures
        i <= s.len() ==> i <= ws_skip(s, i) <= s.len(),
        i > s.len() ==> ws_skip(s, i) == s.len(),
        forall|k: int| i <= k < ws_skip(s, i) ==> is_ws(#[trigger] s[k]),
        ws_skip(s, i) < s.len() ==> !is_ws(s[ws_skip(s, i)]),
    decreases s.len() - i,
{
    if i < s.len() && is_ws(s[i]) {
        lemma_ws_skip_bounds(s, i + 1);
    }
}

pub proof fn lemma_ws_back_bounds(s: Seq<char>, j: int)
    requires
        j <= s.len(),
    ensures
        j >= 0 ==> 0 <= ws_back(s, j) <= j,
        forall|k: int| ws_back(s, j) <= k < j ==> is_ws(#[trigger] s[k]),
        ws_back(s, j) > 0 ==> !is_ws(s[ws_back(s, j) - 1]),
    decreases j,
{
    if j > 0 && is_ws(s[j - 1]) {
        lemma_ws_back_bounds(s, j - 1);
    }
}

/// Start of `trim_start(s@)` within `s`.
pub fn trim_start_index(s: &[char]) -> (k: usize)
    ensures
        k == ws_skip(s@, 0),
        k <= s.len(),
        s@.skip(k as int) == trim_start(s@),
{
    let mut i: usize = 0;
    while i < s.len() && is_whitespace(s[i])
        invariant
            i <= s.len(),
            ws_skip(s@, i as int) == ws_skip(s@, 0),
        decreases s.len() - i,
    {
        i += 1;
    }
    i
}

/// End of `trim_end(s@)` within `s`.
pub fn trim_end_index(s: &[char]) -> (k: usize)
    ensures
        k == ws_back(s@, s@.len() as int),
        k <= s.len(),
        s@.take(k as int) == trim_end(s@),
{
    let mut j: usize = s.len();
    while j > 0 && is_whitespace(s[j - 1])
        invariant
            j <= s.len(),
            ws_back(s@, j as int) == ws_back(s@, s@.len() as int),
        decreases j,
    {
        j -= 1;
    }
    j
}

/// The bounds `(a, b)` with `s@.subrange(a, b) == trim(s@)`.
pub fn trim_bounds(s: &[char]) -> (r: (usize, usize))
    ensures
        r.0 <= r.1 <= s.len(),
        s@.subrange(r.0 as int, r.1 as int) == trim(s@),
        r.0 == ws_skip(s@, 0),
{
    let a = trim_start_index(s);
    let t = &s[a..s.len()];
    assert(t@ == s@.skip(a as int));
    let b = trim_end_index(t);
    proof {
        assert(s@.subrange(a as int, a + b) == t@.take(b as int));
    }
    (a, a + b)
}

/// The characters of `trim(s@)`.
pub fn trimmed(s: &[char]) -> (r: Vec<char>)
    ensures
        r@ == trim(s@),
{
    let (a, b) = trim_bounds(s);
    copy_range(s, a, b)
}

/// A vector holding `s@.subrange(a, b)`.
pub fn copy_range(s: &[char], a: usize, b: usize) -> (r: Vec<char>)
    requires
        a <= b <= s.len(),
    ensures
        r@ == s@.subrange(a as int, b as int),
{
    let mut r: Vec<char> = Vec::new();
    let mut i = a;
    while i < b
        invariant
            a <= i <= b <= s.len(),
            r@ == s@.subrange(a as int, i as int),
        decreases b - i,
    {
        r.push(s[i]);
        i += 1;
    }
    r
}

/// `s` begins with `p`.
pub open spec fn starts_with(s: Seq<char>, p: Seq<char>) -> bool {
    p.len() <= s.len() && s.take(p.len() as int) == p
}

/// `p` occurs in `s` at index `i`.
pub open spec fn occurs_at(s: Seq<char>, p: Seq<char>, i: int) -> bool {
    0 <= i && i + p.len() <= s.len() && s.subrange(i, i + p.len()) == p
}

/// The first index at or after `i` where `p` occurs in `s` (`str::find`).
pub open spec fn find_from(s: Seq<char>, p: Seq<char>, i: int) -> Option<int>
    decreases s.len() + 1 - i,
{
    if i < 0 || i + p.len() > s.len() {
        None
    } else if s.subrange(i, i + p.len()) == p {
        Some(i)
    } else {
        find_from(s, p, i + 1)
    }
}

/// The first index where `p` occurs in `s` (`str::find`).
pub open spec fn find(s: Seq<char>, p: Seq<char>) -> Option<int> {
    find_from(s, p, 0)
}

pub proof fn lemma_find_from(s: Seq<char>, p: Seq<char>, i: int)
    requires
        0 <= i,
    ensures
        find_from(s, p, i) matches Some(k) ==> i <= k && occurs_at(s, p, k),
        find_from(s, p, i) matches Some(k) ==> forall|j: int| i <= j < k ==> !occurs_at(s, p, j),
        find_from(s, p, i) is None ==> forall|j: int| i <= j ==> !occurs_at(s, p, j),
    decreases s.len() + 1 - i,
{
    if i + p.len() <= s.len() && s.subrange(i, i + p.len()) != p {
        lemma_find_from(s, p, i + 1);
    }
}

/// `p` occurs somewhere in `s`.
pub open spec fn contains(s: Seq<char>, p: Seq<char>) -> bool {
    find(s, p) is Some
}

/// Whether `p` occurs in `s` at index `i`.
pub fn matches_at(s: &[char], p: &[char], i: usize) -> (b: bool)
    ensures
        b == occurs_at(s@, p@, i as int),
{
    if i > s.len() || p.len() > s.len() - i {
        return false;
    }
    let mut k: usize = 0;
    while k < p.len()
        invariant
            i + p.len() <= s.len(),
            k <= p.len(),
            forall|j: int| 0 <= j < k ==> s@[i + j] == p@[j],
        decreases p.len() - k,
    {
        if s[i + k] != p[k] {
            assert(s@.subrange(i as int, i + p.len())[k as int] != p@[k as int]);
            return false;
        }
        k += 1;
    }
    assert(s@.subrange(i as int, i + p.len()) == p@);
    true
}

/// The first index at or after `from` where `p` occurs in `s`.
pub fn find_in(s: &[char], p: &[char], from: usize) -> (r: Option<usize>)
    ensures
        r matches Some(k) ==> find_from(s@, p@, from as int) == Some(k as int),
        r is None ==> find_from(s@, p@, from as int) is None,
{
    let mut i = from;
    while i <= s.len() && p.len() <= s.len() - i
        invariant
            find_from(s@, p@, i as int) == find_from(s@, p@, from as int),
        decreases s.len() + 1 - i,
    {
        if matches_at(s, p, i) {
            return Some(i);
        }
        if i >= s.len() {
            assert(find_from(s@, p@, i + 1) is None);
            return None;
        }
        i += 1;
    }
    None
}

/// Index of the first occurrence of `c` in `s`.
pub fn find_char(s: &[char], c: char) -> (r: Option<usize>)
    ensures
        r matches Some(k) ==> find(s@, seq![c]) == Some(k as int),
        r is None ==> find(s@, seq![c]) is None,
{
    let p = [c];
    assert(p@ == seq![c]);
    find_in(s, &p, 0)
}

/// Whether `s` begins with `p`.
pub fn has_prefix(s: &[char], p: &[char]) -> (b: bool)
    ensures
        b == starts_with(s@, p@),
{
    let b = matches_at(s, p, 0);
    proof {
        if b {
            assert(s@.take(p@.len() as int) == s@.subrange(0, p@.len() as int));
        } else if p@.len() <= s@.len() {
            assert(s@.take(p@.len() as int) == s@.subrange(0, p@.len() as int));
        }
    }
    b
}

/// Number of occurrences of `c` in `s`.
pub open spec fn count_char(s: Seq<char>, c: char) -> nat
    decreases s.len(),
{
    if s.len() == 0 {
        0
    } else {
        count_char(s.drop_last(), c) + if s.last() == c { 1nat } else { 0nat }
    }
}

/// Number of occurrences of `c` in `s`.
pub fn count_of(s: &[char], c: char) -> (n: usize)
    ensures
        n == count_char(s@, c),
{
    let mut n: usize = 0;
    let mut i: usize = 0;
    while i < s.len()
        invariant
            i <= s.len(),
            n == count_char(s@.take(i as int), c),
            n <= i,
        decreases s.len() - i,
    {
        assert(s@.take(i + 1).drop_last() == s@.take(i as int));
        if s[i] == c {
            n += 1;
        }
        i += 1;
    }
    assert(s@.take(s.len() as int) == s@);
    n
}

/// `s` split at every `c`, as `str::split` with a character pattern.
pub open spec fn split(s: Seq<char>, c: char) -> Seq<Seq<char>>
    decreases s.len(),
{
    if s.len() == 0 {
        seq![Seq::<char>::empty()]
    } else {
        let init = split(s.drop_last(), c);
        if s.last() == c {
            init.push(Seq::<char>::empty())
        } else {
            init.update(init.len() - 1, init.last().push(s.last()))
        }
    }
}

pub proof fn lemma_split_nonempty(s: Seq<char>, c: char)
    ensures
        split(s, c).len() >= 1,
        split(s, c).len() == count_char(s, c) + 1,
    decreases s.len(),
{
    if s.len() > 0 {
        lemma_split_nonempty(s.drop_last(), c);
    }
}

/// `s` split at every `c`.
pub fn split_on(s: &[char], c: char) -> (r: Vec<Vec<char>>)
    ensures
        r.deep_view() == split(s@, c),
{
    let mut pieces: Vec<Vec<char>> = Vec::new();
    let mut cur: Vec<char> = Vec::new();
    let mut i: usize = 0;
    while i < s.len()
        invariant
            i <= s.len(),
            pieces.deep_view().push(cur@) == split(s@.take(i as int), c),
        decreases s.len() - i,
    {
        let ghost prev = s@.take(i as int);
        assert(s@.take(i + 1).drop_last() == prev);
        proof { lemma_split_nonempty(prev, c); }
        let ghost old_pieces = pieces.deep_view();
        let ghost old_cur = cur@;
        if s[i] == c {
            let done = cur;
            assert(done.deep_view() =~= old_cur);
            pieces.push(done);
            cur = Vec::new();
            assert(pieces.deep_view() =~= old_pieces.push(old_cur));
            assert(pieces.deep_view().push(cur@) =~= split(s@.take(i + 1), c));
        } else {
            cur.push(s[i]);
            assert(pieces.deep_view() =~= old_pieces);
            assert(old_pieces.push(old_cur).update(old_pieces.len() as int, old_cur.push(s@[i as int]))
                =~= old_pieces.push(cur@));
            assert(pieces.deep_view().push(cur@) =~= split(s@.take(i + 1), c));
        }
        i += 1;
    }
    assert(s@.take(s.len() as int) == s@);
    let ghost old_pieces = pieces.deep_view();
    let ghost last = cur@;
    assert(cur.deep_view() =~= last);
    pieces.push(cur);
    assert(pieces.deep_view() =~= old_pieces.push(last));
    pieces
}


/// Index of the first character at or after `i` that differs from `c`
/// (the length when there is none).
pub open spec fn char_skip(s: Seq<char>, c: char, i: int) -> int
    decreases s.len() - i,
{
    if i >= s.len() {
        s.len() as int
    } else if s[i] == c {
        char_skip(s, c, i + 1)
    } else {
        i
    }
}

/// Length of `s` once the run of `c` that ends at `j` is cut off.
pub open spec fn char_back(s: Seq<char>, c: char, j: int) -> int
    decreases j,
{
    if j <= 0 {
        0
    } else if s[j - 1] == c {
        char_back(s, c, j - 1)
    } else {
        j
    }
}

/// `str::trim_start_matches` with a character pattern.
pub open spec fn trim_start_char(s: Seq<char>, c: char) -> Seq<char> {
    s.skip(char_skip(s, c, 0))
}

/// `str::trim_matches` with a character pattern.
pub open spec fn trim_char(s: Seq<char>, c: char) -> Seq<char> {
    let t = trim_start_char(s, c);
    t.take(char_back(t, c, t.len() as int))
}

pub proof fn lemma_char_skip_bounds(s: Seq<char>, c: char, i: int)
    requires
        0 <= i <= s.len(),
    ensures
        i <= char_skip(s, c, i) <= s.len(),
        forall|k: int| i <= k < char_skip(s, c, i) ==> #[trigger] s[k] == c,
        char_skip(s, c, i) < s.len() ==> s[char_skip(s, c, i)] != c,
    decreases s.len() - i,
{
    if i < s.len() && s[i] == c {
        lemma_char_skip_bounds(s, c, i + 1);
    }
}

pub proof fn lemma_char_back_bounds(s: Seq<char>, c: char, j: int)
    requires
        0 <= j <= s.len(),
    ensures
        0 <= char_back(s, c, j) <= j,
        forall|k: int| char_back(s, c, j) <= k < j ==> #[trigger] s[k] == c,
        char_back(s, c, j) > 0 ==> s[char_back(s, c, j) - 1] != c,
    decreases j,
{
    if j > 0 && s[j - 1] == c {
        lemma_char_back_bounds(s, c, j - 1);
    }
}

/// The bounds `(a, b)` with `s@.subrange(a, b) == trim_char(s@, c)`.
pub fn trim_char_bounds(s: &[char], c: char) -> (r: (usize, usize))
    ensures
        r.0 <= r.1 <= s.len(),
        s@.subrange(r.0 as int, r.1 as int) == trim_char(s@, c),
        r.0 == char_skip(s@, c, 0),
{
    let mut i: usize = 0;
    while i < s.len() && s[i] == c
        invariant
            i <= s.len(),
            char_skip(s@, c, i as int) == char_skip(s@, c, 0),
        decreases s.len() - i,
    {
        i += 1;
    }
    let ghost t = s@.skip(i as int);
    let mut j: usize = s.len();
    while j > i && s[j - 1] == c
        invariant
            i <= j <= s.len(),
            t == s@.skip(i as int),
            char_back(t, c, j - i) == char_back(t, c, t.len() as int),
        decreases j,
    {
        assert(t[j - 1 - i] == s@[j - 1]);
        j -= 1;
    }
    assert(s@.subrange(i as int, j as int) == t.take(j - i));
    (i, j)
}

/// Every character of `s` is `c`.
pub open spec fn all_eq(s: Seq<char>, c: char) -> bool {
    forall|k: int| 0 <= k < s.len() ==> #[trigger] s[k] == c
}

/// Whether every character of `s` is `c`.
pub fn all_are(s: &[char], c: char) -> (b: bool)
    ensures
        b == all_eq(s@, c),
{
    let mut i: usize = 0;
    while i < s.len()
        invariant
            i <= s.len(),
            forall|k: int| 0 <= k < i ==> #[trigger] s@[k] == c,
        decreases s.len() - i,
    {
        if s[i] != c {
            return false;
        }
        i += 1;
    }
    true
}

/// `char::is_ascii_digit`.
pub open spec fn is_digit(c: char) -> bool {
    '0' <= c && c <= '9'
}

/// Every character of `s` is an ASCII digit.
pub open spec fn all_digits(s: Seq<char>) -> bool {
    forall|k: int| 0 <= k < s.len() ==> is_digit(#[trigger] s[k])
}

/// Whether every character of `s@.subrange(a, b)` is an ASCII digit.
pub fn digits_between(s: &[char], a: usize, b: usize) -> (r: bool)
    requires
        a <= b <= s.len(),
    ensures
        r == all_digits(s@.subrange(a as int, b as int)),
{
    let mut i = a;
    while i < b
        invariant
            a <= i <= b <= s.len(),
            forall|k: int| a <= k < i ==> is_digit(#[trigger] s@[k]),
        decreases b - i,
    {
        if !('0' <= s[i] && s[i] <= '9') {
            assert(s@.subrange(a as int, b as int)[i - a] == s@[i as int]);
            return false;
        }
        i += 1;
    }
    assert forall|k: int| 0 <= k < b - a implies is_digit(
        #[trigger] s@.subrange(a as int, b as int)[k],
    ) by {
        assert(s@.subrange(a as int, b as int)[k] == s@[a + k]);
    }
    true
}


/// Whether `a` and `b` hold the same characters.
pub fn chars_eq(a: &[char], b: &[char]) -> (r: bool)
    ensures
        r == (a@ == b@),
{
    if a.len() != b.len() {
        return false;
    }
    let mut i: usize = 0;
    while i < a.len()
        invariant
            a.len() == b.len(),
            i <= a.len(),
            forall|k: int| 0 <= k < i ==> a@[k] == b@[k],
        decreases a.len() - i,
    {
        if a[i] != b[i] {
            return false;
        }
        i += 1;
    }
    assert(a@ =~= b@);
    true
}

/// Whether the characters of `a` spell `lit`.
pub fn chars_are(a: &[char], lit: &str) -> (r: bool)
    ensures
        r == (a@ == lit@),
{
    let l = chars_of(lit);
    chars_eq(a, l.as_slice())
}

/// `char::to_ascii_lowercase`.
pub open spec fn ascii_lower(c: char) -> char {
    if 'A' <= c && c <= 'Z' {
        ((c as u32) + 32) as char
    } else {
        c
    }
}

/// `str::to_ascii_lowercase`.
pub open spec fn ascii_lower_seq(s: Seq<char>) -> Seq<char> {
    Seq::new(s.len(), |i: int| ascii_lower(s[i]))
}

/// The characters of `s` with ASCII capitals made small.
pub fn to_ascii_lower(s: &[char]) -> (r: Vec<char>)
    ensures
        r@ == ascii_lower_seq(s@),
{
    let mut r: Vec<char> = Vec::new();
    let mut i: usize = 0;
    while i < s.len()
        invariant
            i <= s.len(),
            r@ == ascii_lower_seq(s@.take(i as int)),
        decreases s.len() - i,
    {
        let c = s[i];
        let l = if 'A' <= c && c <= 'Z' {
            let code: u8 = (c as u8) + 32;
            code as char
        } else {
            c
        };
        assert(l == ascii_lower(c));
        r.push(l);
        assert(r@ =~= ascii_lower_seq(s@.take(i + 1)));
        i += 1;
    }
    assert(s@.take(s.len() as int) == s@);
    r
}


/// Index of the first `c` at or after `i` (the length when there is none).
pub open spec fn first_index(s: Seq<char>, c: char, i: int) -> int
    decreases s.len() - i,
{
    if i >= s.len() {
        s.len() as int
    } else if s[i] == c {
        i
    } else {
        first_index(s, c, i + 1)
    }
}

/// `s` up to its first `c` (all of it when there is none): the first piece
/// of `str::split`.
pub open spec fn before_char(s: Seq<char>, c: char) -> Seq<char> {
    s.take(first_index(s, c, 0))
}

/// The index of the first `c` in `s`, or the length of `s`.
pub fn first_index_of(s: &[char], c: char) -> (k: usize)
    ensures
        k == first_index(s@, c, 0),
        k <= s.len(),
{
    let mut i: usize = 0;
    while i < s.len() && s[i] != c
        invariant
            i <= s.len(),
            first_index(s@, c, i as int) == first_index(s@, c, 0),
        decreases s.len() - i,
    {
        i += 1;
    }
    i
}


/// The pieces joined with `c` between them, as `[&str]::join`.
pub open spec fn join(p: Seq<Seq<char>>, c: char) -> Seq<char>
    decreases p.len(),
{
    if p.len() == 0 {
        Seq::empty()
    } else if p.len() == 1 {
        p[0]
    } else {
        join(p.drop_last(), c).push(c) + p.last()
    }
}

/// `c` does not occur in `s`.
pub open spec fn free_of(s: Seq<char>, c: char) -> bool {
    forall|k: int| 0 <= k < s.len() ==> #[trigger] s[k] != c
}

/// No piece holds `c`.
pub open spec fn all_free_of(p: Seq<Seq<char>>, c: char) -> bool {
    forall|i: int| 0 <= i < p.len() ==> free_of(#[trigger] p[i], c)
}

/// Joining the pieces of a split gives the text back.
pub proof fn lemma_join_split(s: Seq<char>, c: char)
    ensures
        join(split(s, c), c) == s,
        all_free_of(split(s, c), c),
        split(s, c).len() >= 1,
    decreases s.len(),
{
    if s.len() > 0 {
        let init = split(s.drop_last(), c);
        lemma_join_split(s.drop_last(), c);
        let n = init.len();
        if s.last() == c {
            let r = init.push(Seq::<char>::empty());
            assert(r.drop_last() == init);
            assert(join(r, c) =~= s);
            assert forall|i: int| 0 <= i < r.len() implies free_of(#[trigger] r[i], c) by {
                if i < n {
                    assert(r[i] == init[i]);
                }
            }
        } else {
            let r = init.update(n - 1, init.last().push(s.last()));
            if n == 1 {
                assert(init[0] == s.drop_last());
                assert(r.len() == 1);
                assert(r[0] == s.drop_last().push(s.last()));
                assert(s.drop_last().push(s.last()) =~= s);
                assert(join(r, c) == r[0]);
            } else {
                assert(r.drop_last() =~= init.drop_last());
                assert(join(init, c) == join(init.drop_last(), c).push(c) + init.last());
                assert(r.last() == init.last().push(s.last()));
                assert(join(r, c) == join(r.drop_last(), c).push(c) + r.last());
                assert(join(r, c) =~= (join(init.drop_last(), c).push(c) + init.last()).push(s.last()));
                assert(s.drop_last().push(s.last()) =~= s);
                assert(join(r, c) =~= s);
            }
            assert forall|i: int| 0 <= i < r.len() implies free_of(#[trigger] r[i], c) by {
                if i < n - 1 {
                    assert(r[i] == init[i]);
                } else {
                    assert forall|k: int| 0 <= k < r[i].len() implies #[trigger] r[i][k] != c by {
                        if k < init.last().len() {
                            assert(r[i][k] == init.last()[k]);
                        }
                    }
                }
            }
        }
    }
}

/// A text free of `c` splits into itself alone.
pub proof fn lemma_split_free(s: Seq<char>, c: char)
    requires
        free_of(s, c),
    ensures
        split(s, c) == seq![s],
    decreases s.len(),
{
    if s.len() == 0 {
        assert(s =~= Seq::<char>::empty());
        assert(split(s, c) =~= seq![s]);
    } else {
        assert(free_of(s.drop_last(), c)) by {
            assert forall|k: int| 0 <= k < s.drop_last().len() implies #[trigger] s.drop_last()[k]
                != c by {
                assert(s.drop_last()[k] == s[k]);
            }
        }
        lemma_split_free(s.drop_last(), c);
        assert(s[s.len() - 1] != c);
        assert(s.drop_last().push(s.last()) =~= s);
        let init = split(s.drop_last(), c);
        assert(init == seq![s.drop_last()]);
        assert(init.last() == s.drop_last());
        assert(split(s, c) == init.update(0, s.drop_last().push(s.last())));
        assert(split(s, c) =~= seq![s]);
    }
}

/// Splitting `a`, `c`, `b` with `b` free of `c` adds `b` as a last piece.
pub proof fn lemma_split_append(a: Seq<char>, b: Seq<char>, c: char)
    requires
        free_of(b, c),
    ensures
        split(a.push(c) + b, c) == split(a, c).push(b),
    decreases b.len(),
{
    if b.len() == 0 {
        assert(a.push(c) + b =~= a.push(c));
        assert(a.push(c).drop_last() =~= a);
        assert(b =~= Seq::<char>::empty());
        assert(split(a.push(c), c) == split(a, c).push(Seq::<char>::empty()));
    } else {
        let b0 = b.drop_last();
        lemma_split_append(a, b0, c);
        assert((a.push(c) + b).drop_last() =~= a.push(c) + b0);
        assert((a.push(c) + b).last() == b.last());
        assert(b0.push(b.last()) =~= b);
        assert(split(a.push(c) + b, c) =~= split(a, c).push(b));
    }
}

/// Splitting a join of `c`-free pieces gives the pieces back.
pub proof fn lemma_split_join(p: Seq<Seq<char>>, c: char)
    requires
        p.len() >= 1,
        all_free_of(p, c),
    ensures
        split(join(p, c), c) == p,
    decreases p.len(),
{
    if p.len() == 1 {
        assert(free_of(p[0], c));
        lemma_split_free(p[0], c);
        assert(seq![p[0]] =~= p);
    } else {
        let q = p.drop_last();
        assert forall|i: int| 0 <= i < q.len() implies free_of(#[trigger] q[i], c) by {
            assert(q[i] == p[i]);
        }
        lemma_split_join(q, c);
        assert(free_of(p[p.len() - 1], c));
        lemma_split_append(join(q, c), p.last(), c);
        assert(q.push(p.last()) =~= p);
    }
}

/// The pieces joined with `c` between them.
pub fn join_pieces(p: &Vec<Vec<char>>, c: char) -> (r: Vec<char>)
    ensures
        r@ == join(p.deep_view(), c),
{
    let mut r: Vec<char> = Vec::new();
    let mut i: usize = 0;
    while i < p.len()
        invariant
            i <= p.len(),
            r@ == join(p.deep_view().take(i as int), c),
        decreases p.len() - i,
    {
        let ghost pv = p.deep_view();
        assert(pv.take(i + 1).drop_last() =~= pv.take(i as int));
        assert(pv.take(i + 1).last() == p[i as int]@);
        if i > 0 {
            r.push(c);
        }
        let piece = p[i].as_slice();
        let mut k: usize = 0;
        let ghost base = r@;
        while k < piece.len()
            invariant
                k <= piece.len(),
                r@ == base + piece@.take(k as int),
            decreases piece.len() - k,
        {
            r.push(piece[k]);
            assert(piece@.take(k + 1) =~= piece@.take(k as int).push(piece@[k as int]));
            assert(r@ =~= base + piece@.take(k + 1));
            k += 1;
        }
        assert(piece@.take(piece.len() as int) == piece@);
        if i == 0 {
            assert(pv.take(1) =~= seq![pv[0]]);
            assert(r@ =~= join(pv.take(i + 1), c));
        } else {
            assert(r@ =~= join(pv.take(i + 1), c));
        }
        i += 1;
    }
    assert(p.deep_view().take(p.len() as int) =~= p.deep_view());
    r
}


/// A character never occurs more often than the text is long.
pub proof fn lemma_count_le(s: Seq<char>, c: char)
    ensures
        count_char(s, c) <= s.len(),
    decreases s.len(),
{
    if s.len() > 0 {
        lemma_count_le(s.drop_last(), c);
    }
}


/// `a` followed by `b`.
pub fn concat(a: &[char], b: &[char]) -> (r: Vec<char>)
    ensures
        r@ == a@ + b@,
{
    let mut r = copy_range(a, 0, a.len());
    assert(a@.subrange(0, a.len() as int) == a@);
    let mut k: usize = 0;
    while k < b.len()
        invariant
            k <= b.len(),
            r@ == a@ + b@.take(k as int),
        decreases b.len() - k,
    {
        r.push(b[k]);
        assert(b@.take(k + 1) =~= b@.take(k as int).push(b@[k as int]));
        assert(r@ =~= a@ + b@.take(k + 1));
        k += 1;
    }
    assert(b@.take(b.len() as int) == b@);
    r
}

/// `a` comes before `b` in the order of `str`'s `Ord`: code point by code
/// point, a proper prefix first.
pub open spec fn lex_lt(a: Seq<char>, b: Seq<char>) -> bool
    decreases a.len(),
{
    if a.len() == 0 {
        b.len() > 0
    } else if b.len() == 0 {
        false
    } else if a[0] != b[0] {
        (a[0] as u32) < (b[0] as u32)
    } else {
        lex_lt(a.drop_first(), b.drop_first())
    }
}

pub proof fn lemma_lex_irreflexive(a: Seq<char>)
    ensures
        !lex_lt(a, a),
    decreases a.len(),
{
    if a.len() > 0 {
        lemma_lex_irreflexive(a.drop_first());
    }
}

pub proof fn lemma_lex_transitive(a: Seq<char>, b: Seq<char>, c: Seq<char>)
    requires
        lex_lt(a, b),
        lex_lt(b, c),
    ensures
        lex_lt(a, c),
    decreases a.len(),
{
    if a.len() > 0 && b.len() > 0 && c.len() > 0 && a[0] == b[0] && b[0] == c[0] {
        lemma_lex_transitive(a.drop_first(), b.drop_first(), c.drop_first());
    }
}

/// Whether `a` comes before `b` (`a < b` on strings).
pub fn lex_less(a: &[char], b: &[char]) -> (r: bool)
    ensures
        r == lex_lt(a@, b@),
{
    let mut i: usize = 0;
    assert(a@.skip(0) =~= a@);
    assert(b@.skip(0) =~= b@);
    while i < a.len() && i < b.len() && a[i] == b[i]
        invariant
            i <= a.len(),
            i <= b.len(),
            lex_lt(a@.skip(i as int), b@.skip(i as int)) == lex_lt(a@, b@),
        decreases a.len() - i,
    {
        assert(a@.skip(i as int).drop_first() =~= a@.skip(i + 1));
        assert(b@.skip(i as int).drop_first() =~= b@.skip(i + 1));
        i += 1;
    }
    if i == a.len() {
        i < b.len()
    } else if i == b.len() {
        false
    } else {
        (a[i] as u32) < (b[i] as u32)
    }
}

/// The character of a decimal digit.
pub open spec fn digit(d: nat) -> char {
    if d == 0 {
        '0'
    } else if d == 1 {
        '1'
    } else if d == 2 {
        '2'
    } else if d == 3 {
        '3'
    } else if d == 4 {
        '4'
    } else if d == 5 {
        '5'
    } else if d == 6 {
        '6'
    } else if d == 7 {
        '7'
    } else if d == 8 {
        '8'
    } else {
        '9'
    }
}

/// The decimal digits of a number, as `to_string` writes it.
pub open spec fn dec_str(n: nat) -> Seq<char>
    decreases n,
{
    if n < 10 {
        seq![digit(n)]
    } else {
        dec_str(n / 10).push(digit(n % 10))
    }
}

fn digit_of(d: usize) -> (c: char)
    requires
        d < 10,
    ensures
        c == digit(d as nat),
{
    if d == 0 {
        '0'
    } else if d == 1 {
        '1'
    } else if d == 2 {
        '2'
    } else if d == 3 {
        '3'
    } else if d == 4 {
        '4'
    } else if d == 5 {
        '5'
    } else if d == 6 {
        '6'
    } else if d == 7 {
        '7'
    } else if d == 8 {
        '8'
    } else {
        '9'
    }
}

/// The decimal digits of a number.
pub fn decimal_chars(n: usize) -> (r: Vec<char>)
    ensures
        r@ == dec_str(n as nat),
        r@.len() >= 1,
    decreases n,
{
    if n < 10 {
        let mut v: Vec<char> = Vec::new();
        v.push(digit_of(n));
        assert(v@ =~= seq![digit(n as nat)]);
        v
    } else {
        let mut v = decimal_chars(n / 10);
        v.push(digit_of(n % 10));
        v
    }
}

/// `n` spaces.
pub open spec fn spaces(n: nat) -> Seq<char> {
    Seq::new(n, |_i: int| ' ')
}

/// `n` spaces.
pub fn space_chars(n: usize) -> (r: Vec<char>)
    ensures
        r@ == spaces(n as nat),
{
    let mut r: Vec<char> = Vec::new();
    let mut i: usize = 0;
    while i < n
        invariant
            i <= n,
            r@ == spaces(i as nat),
        decreases n - i,
    {
        r.push(' ');
        assert(r@ =~= spaces((i + 1) as nat));
        i += 1;
    }
    r
}

} // verus!
