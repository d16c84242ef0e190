//! Character-level text utilities and their mathematical models.
//!
//! Strings are modelled as `Seq<char>`; the executable functions work on
//! `Vec<char>` and are proved to compute the spec functions defined here,
//! which follow the documented behaviour of the corresponding `str` methods.
use vstd::prelude::*;

verus! {

broadcast use vstd::string::group_string_axioms;

// ---------------------------------------------------------------------------
// Character classes
// ---------------------------------------------------------------------------

/// The Unicode `White_Space` property, which `char::is_whitespace` tests.
pub open spec fn is_unicode_whitespace(c: char) -> bool {
    ||| ('\t' <= c && c <= '\r')
    ||| c == ' '
    ||| c == '\u{85}'
    ||| c == '\u{A0}'
    ||| c == '\u{1680}'
    ||| ('\u{2000}' <= c && c <= '\u{200A}')
    ||| c == '\u{2028}'
    ||| c == '\u{2029}'
    ||| c == '\u{202F}'
    ||| c == '\u{205F}'
    ||| c == '\u{3000}'
}

/// ASCII letters and digits, as `char::is_ascii_alphanumeric` tests.
pub open spec fn is_ascii_alnum(c: char) -> bool {
    ||| ('0' <= c && c <= '9')
    ||| ('A' <= c && c <= 'Z')
    ||| ('a' <= c && c <= 'z')
}

pub fn is_whitespace_char(c: char) -> (b: bool)
    ensures
        b == is_unicode_whitespace(c),
{
    ('\t' <= c && c <= '\r') || c == ' ' || c == '\u{85}' || c == '\u{A0}' || c == '\u{1680}'
        || ('\u{2000}' <= c && c <= '\u{200A}') || c == '\u{2028}' || c == '\u{2029}'
        || c == '\u{202F}' || c == '\u{205F}' || c == '\u{3000}'
}

pub fn is_ascii_alnum_char(c: char) -> (b: bool)
    ensures
        b == is_ascii_alnum(c),
{
    ('0' <= c && c <= '9') || ('A' <= c && c <= 'Z') || ('a' <= c && c <= 'z')
}

/// A set of characters that trimming removes.
pub enum CharClass {
    Whitespace,
    Exactly(char),
}

impl CharClass {
    pub open spec fn contains(self, c: char) -> bool {
        match self {
            CharClass::Whitespace => is_unicode_whitespace(c),
            CharClass::Exactly(d) => c == d,
        }
    }

    pub fn matches(&self, c: char) -> (b: bool)
        ensures
            b == self.contains(c),
    {
        match self {
            CharClass::Whitespace => is_whitespace_char(c),
            CharClass::Exactly(d) => c == *d,
        }
    }
}

// ---------------------------------------------------------------------------
// Conversions
// ---------------------------------------------------------------------------

/// The characters of a string slice, in order.
pub fn chars_of(s: &str) -> (v: Vec<char>)
    ensures
        v@ == s@,
{
    let mut v: Vec<char> = Vec::new();
    for c in it: s.chars()
        invariant
            v@ == it.seq().take(it.index() as int),
    {
        v.push(c);
    }
    v
}

/// Collects characters into a `String` (`FromIterator<char> for String`).
#[verifier::external_body]
pub(crate) fn string_of(chars: &Vec<char>) -> (s: String)
    ensures
        s@ == chars@,
{
    chars.iter().collect()
}

/// The characters `s[a..b]`.
pub fn copy_range(s: &Vec<char>, a: usize, b: usize) -> (r: Vec<char>)
    requires
        a <= b <= s@.len(),
    ensures
        r@ == s@.subrange(a as int, b as int),
{
    let mut r: Vec<char> = Vec::new();
    let mut i = a;
    while i < b
        invariant
            a <= i <= b,
            b <= s@.len(),
            r@ == s@.subrange(a as int, i as int),
        decreases b - i,
    {
        r.push(s[i]);
        i = i + 1;
    }
    r
}

/// Equality of two character sequences.
pub fn chars_eq(a: &Vec<char>, b: &Vec<char>) -> (r: bool)
    ensures
        r == (a@ == b@),
{
    if a.len() != b.len() {
        return false;
    }
    let mut i: usize = 0;
    while i < a.len()
        invariant
            a@.len() == b@.len(),
            i <= a@.len(),
            a@.take(i as int) == b@.take(i as int),
        decreases a.len() - i,
    {
        if a[i] != b[i] {
            return false;
        }
        assert(a@.take(i + 1) =~= a@.take(i as int).push(a@[i as int]));
        assert(b@.take(i + 1) =~= b@.take(i as int).push(b@[i as int]));
        i = i + 1;
    }
    assert(a@ =~= a@.take(i as int));
    assert(b@ =~= b@.take(i as int));
    true
}

/// Whether a character sequence equals the characters of a string slice.
pub fn chars_eq_str(a: &Vec<char>, b: &str) -> (r: bool)
    ensures
        r == (a@ == b@),
{
    let bv = chars_of(b);
    chars_eq(a, &bv)
}

// ---------------------------------------------------------------------------
// Trimming
// ---------------------------------------------------------------------------

/// Drops leading characters of the class.
pub open spec fn trim_start_by(s: Seq<char>, cls: CharClass) -> Seq<char>
    decreases s.len(),
{
    if s.len() > 0 && cls.contains(s[0]) {
        trim_start_by(s.drop_first(), cls)
    } else {
        s
    }
}

/// Drops trailing characters of the class.
pub open spec fn trim_end_by(s: Seq<char>, cls: CharClass) -> Seq<char>
    decreases s.len(),
{
    if s.len() > 0 && cls.contains(s.last()) {
        trim_end_by(s.drop_last(), cls)
    } else {
        s
    }
}

/// Drops leading and trailing characters of the class (`str::trim_matches`);
/// with `CharClass::Whitespace` this is `str::trim`.
pub open spec fn trimmed(s: Seq<char>, cls: CharClass) -> Seq<char> {
    trim_end_by(trim_start_by(s, cls), cls)
}

pub fn trim(s: &Vec<char>, cls: &CharClass) -> (r: Vec<char>)
    ensures
        r@ == trimmed(s@, *cls),
{
    let n = s.len();
    let mut a: usize = 0;
    assert(s@.skip(0) =~= s@);
    while a < n && cls.matches(s[a])
        invariant
            a <= n,
            n == s@.len(),
            trim_start_by(s@, *cls) == trim_start_by(s@.skip(a as int), *cls),
        decreases n - a,
    {
        assert(s@.skip(a as int).drop_first() =~= s@.skip(a + 1));
        a = a + 1;
    }
    assert(trim_start_by(s@, *cls) == s@.skip(a as int));
    let mut b: usize = n;
    while b > a && cls.matches(s[b - 1])
        invariant
            a <= b <= n,
            n == s@.len(),
            trim_end_by(s@.skip(a as int), *cls) == trim_end_by(s@.subrange(a as int, b as int), *cls),
        decreases b,
    {
        assert(s@.subrange(a as int, b as int).drop_last() =~= s@.subrange(a as int, b - 1));
        b = b - 1;
    }
    assert(s@.skip(a as int) =~= s@.subrange(a as int, n as int));
    copy_range(s, a, b)
}


// ---------------------------------------------------------------------------
// Searching and splitting on a character
// ---------------------------------------------------------------------------

/// The index of the first occurrence of `c` in `s`.
pub open spec fn find_char(s: Seq<char>, c: char) -> Option<int>
    decreases s.len(),
{
    if s.len() == 0 {
        None
    } else if s[0] == c {
        Some(0)
    } else {
        match find_char(s.drop_first(), c) {
            Some(k) => Some(k + 1),
            None => None,
        }
    }
}

pub proof fn lemma_find_char(s: Seq<char>, c: char)
    ensures
        find_char(s, c) matches Some(i) ==> {
            &&& 0 <= i < s.len()
            &&& s[i] == c
            &&& forall|j: int| 0 <= j < i ==> s[j] != c
        },
        find_char(s, c) is None ==> forall|j: int| 0 <= j < s.len() ==> s[j] != c,
    decreases s.len(),
{
    if s.len() > 0 && s[0] != c {
        lemma_find_char(s.drop_first(), c);
        if let Some(k) = find_char(s.drop_first(), c) {
            assert forall|j: int| 0 <= j < k + 1 implies s[j] != c by {
                if j > 0 {
                    assert(s[j] == s.drop_first()[j - 1]);
                }
            }
        } else {
            assert forall|j: int| 0 <= j < s.len() implies s[j] != c by {
                if j > 0 {
                    assert(s[j] == s.drop_first()[j - 1]);
                }
            }
        }
    }
}

pub proof fn lemma_find_char_at(s: Seq<char>, c: char, i: int)
    requires
        0 <= i < s.len(),
        s[i] == c,
        forall|j: int| 0 <= j < i ==> s[j] != c,
    ensures
        find_char(s, c) == Some(i),
{
    lemma_find_char(s, c);
    if let Some(k) = find_char(s, c) {
        if k < i {
            assert(s[k] != c);
        } else if k > i {
            assert(s[i] != c);
        }
    }
}

pub proof fn lemma_find_char_absent(s: Seq<char>, c: char)
    requires
        forall|j: int| 0 <= j < s.len() ==> s[j] != c,
    ensures
        find_char(s, c) is None,
{
    lemma_find_char(s, c);
}

/// `str::split_once` on a character.
pub open spec fn split_once_char(s: Seq<char>, c: char) -> Option<(Seq<char>, Seq<char>)> {
    match find_char(s, c) {
        Some(i) => Some((s.take(i), s.skip(i + 1))),
        None => None,
    }
}

/// The index in `s` of the first `c` at or after `from`, or `s.len()`.
fn scan_for(s: &Vec<char>, c: char, from: usize) -> (k: usize)
    requires
        from <= s@.len(),
    ensures
        from <= k <= s@.len(),
        forall|j: int| from <= j < k ==> s@[j] != c,
        k < s@.len() ==> s@[k as int] == c,
{
    let mut k = from;
    while k < s.len() && s[k] != c
        invariant
            from <= k <= s@.len(),
            forall|j: int| from <= j < k ==> s@[j] != c,
        decreases s.len() - k,
    {
        k = k + 1;
    }
    k
}

/// The first occurrence of `c` at or after `from`, relative to `s[from..]`.
proof fn lemma_scan_result(s: Seq<char>, c: char, from: int, k: int)
    requires
        0 <= from <= k <= s.len(),
        forall|j: int| from <= j < k ==> s[j] != c,
        k < s.len() ==> s[k] == c,
    ensures
        k < s.len() ==> find_char(s.skip(from), c) == Some(k - from),
        k == s.len() ==> find_char(s.skip(from), c) is None,
{
    if k < s.len() {
        lemma_find_char_at(s.skip(from), c, k - from);
    } else {
        lemma_find_char_absent(s.skip(from), c);
    }
}

pub fn split_once(s: &Vec<char>, c: char) -> (r: Option<(Vec<char>, Vec<char>)>)
    ensures
        match r {
            Some((a, b)) => split_once_char(s@, c) == Some((a@, b@)),
            None => split_once_char(s@, c) is None,
        },
{
    let k = scan_for(s, c, 0);
    proof {
        lemma_scan_result(s@, c, 0, k as int);
        assert(s@.skip(0) =~= s@);
    }
    if k < s.len() {
        let a = copy_range(s, 0, k);
        let b = copy_range(s, k + 1, s.len());
        assert(a@ =~= s@.take(k as int));
        assert(b@ =~= s@.skip(k + 1));
        Some((a, b))
    } else {
        None
    }
}

/// `str::split` on a character: the pieces between occurrences of `c`.
pub open spec fn split_char(s: Seq<char>, c: char) -> Seq<Seq<char>>
    decreases s.len(),
{
    match find_char(s, c) {
        Some(i) => {
            proof {
                lemma_find_char(s, c);
            }
            seq![s.take(i)] + split_char(s.skip(i + 1), c)
        },
        None => seq![s],
    }
}

/// Drops one trailing carriage return.
pub open spec fn strip_cr(l: Seq<char>) -> Seq<char> {
    if l.len() > 0 && l.last() == '\r' {
        l.drop_last()
    } else {
        l
    }
}

/// `str::lines`: pieces ended by `\n` or `\r\n`; the final line ending is optional.
pub open spec fn lines(s: Seq<char>) -> Seq<Seq<char>>
    decreases s.len(),
{
    if s.len() == 0 {
        seq![]
    } else {
        match find_char(s, '\n') {
            Some(i) => {
                proof {
                    lemma_find_char(s, '\n');
                }
                seq![strip_cr(s.take(i))] + lines(s.skip(i + 1))
            },
            None => seq![s],
        }
    }
}

/// The views of a vector of character vectors.
pub open spec fn views(v: Seq<Vec<char>>) -> Seq<Seq<char>> {
    v.map_values(|x: Vec<char>| x@)
}

pub fn split(s: &Vec<char>, c: char) -> (r: Vec<Vec<char>>)
    ensures
        views(r@) == split_char(s@, c),
{
    let mut r: Vec<Vec<char>> = Vec::new();
    let mut start: usize = 0;
    assert(s@.skip(0) =~= s@);
    loop
        invariant
            start <= s@.len(),
            split_char(s@, c) == views(r@) + split_char(s@.skip(start as int), c),
        decreases s@.len() - start,
    {
        let k = scan_for(s, c, start);
        proof {
            lemma_scan_result(s@, c, start as int, k as int);
        }
        let piece = copy_range(s, start, k);
        let ghost rest = s@.skip(start as int);
        if k < s.len() {
            proof {
                assert(piece@ =~= rest.take(k - start));
                assert(rest.skip(k - start + 1) =~= s@.skip(k + 1));
                assert(views(r@.push(piece)) =~= views(r@) + seq![piece@]);
                assert(split_char(rest, c) == seq![piece@] + split_char(s@.skip(k + 1), c));
                assert(views(r@.push(piece)) + split_char(s@.skip(k + 1), c) =~= views(r@) + (
                seq![piece@] + split_char(s@.skip(k + 1), c)));
            }
            r.push(piece);
            start = k + 1;
        } else {
            proof {
                assert(piece@ =~= rest);
                assert(views(r@.push(piece)) =~= views(r@) + seq![piece@]);
            }
            r.push(piece);
            return r;
        }
    }
}

pub fn lines_of(s: &Vec<char>) -> (r: Vec<Vec<char>>)
    ensures
        views(r@) == lines(s@),
{
    let mut r: Vec<Vec<char>> = Vec::new();
    let mut start: usize = 0;
    assert(s@.skip(0) =~= s@);
    assert(views(r@) =~= Seq::<Seq<char>>::empty());
    while start < s.len()
        invariant
            start <= s@.len(),
            lines(s@) == views(r@) + lines(s@.skip(start as int)),
        decreases s@.len() - start,
    {
        let k = scan_for(s, '\n', start);
        proof {
            lemma_scan_result(s@, '\n', start as int, k as int);
        }
        let ghost rest = s@.skip(start as int);
        let mut end = k;
        if k < s.len() && k > start && s[k - 1] == '\r' {
            end = k - 1;
        }
        let piece = copy_range(s, start, end);
        if k < s.len() {
            proof {
                assert(piece@ =~= strip_cr(rest.take(k - start)));
                assert(rest.skip(k - start + 1) =~= s@.skip(k + 1));
                assert(views(r@.push(piece)) =~= views(r@) + seq![piece@]);
                assert(lines(rest) == seq![piece@] + lines(s@.skip(k + 1)));
                assert(views(r@.push(piece)) + lines(s@.skip(k + 1)) =~= views(r@) + (seq![
                    piece@,
                ] + lines(s@.skip(k + 1))));
            }
            r.push(piece);
            start = k + 1;
        } else {
            proof {
                assert(piece@ =~= rest);
                assert(views(r@.push(piece)) =~= views(r@) + seq![piece@]);
                assert(s@.skip(k as int) =~= Seq::<char>::empty());
            }
            r.push(piece);
            start = k;
        }
    }
    assert(s@.skip(start as int) =~= Seq::<char>::empty());
    assert(views(r@) + lines(s@.skip(start as int)) =~= views(r@));
    r
}

// ---------------------------------------------------------------------------
// Prefixes and substrings
// ---------------------------------------------------------------------------

/// Whether `p` is a prefix of `s`.
pub open spec fn has_prefix(s: Seq<char>, p: Seq<char>) -> bool {
    p.len() <= s.len() && s.take(p.len() as int) == p
}

pub fn starts_with(s: &Vec<char>, p: &Vec<char>) -> (r: bool)
    ensures
        r == has_prefix(s@, p@),
{
    if p.len() > s.len() {
        return false;
    }
    let mut i: usize = 0;
    while i < p.len()
        invariant
            p@.len() <= s@.len(),
            i <= p@.len(),
            s@.take(i as int) == p@.take(i as int),
        decreases p.len() - i,
    {
        if s[i] != p[i] {
            assert(s@.take(p@.len() as int)[i as int] != p@[i as int]);
            return false;
        }
        assert(s@.take(i + 1) =~= s@.take(i as int).push(s@[i as int]));
        assert(p@.take(i + 1) =~= p@.take(i as int).push(p@[i as int]));
        i = i + 1;
    }
    assert(p@ =~= p@.take(i as int));
    true
}

/// Whether `s` starts with the character `c`.
pub open spec fn starts_with_char(s: Seq<char>, c: char) -> bool {
    s.len() > 0 && s[0] == c
}

/// `str::trim_start_matches` with a string pattern: removes the prefix `p`
/// as many times as it occurs (an empty pattern removes nothing).
pub open spec fn strip_all_prefix(s: Seq<char>, p: Seq<char>) -> Seq<char>
    decreases s.len(),
{
    if p.len() > 0 && has_prefix(s, p) {
        strip_all_prefix(s.skip(p.len() as int), p)
    } else {
        s
    }
}

fn prefix_at(s: &Vec<char>, p: &Vec<char>, at: usize) -> (r: bool)
    requires
        at <= s@.len(),
    ensures
        r == has_prefix(s@.skip(at as int), p@),
{
    let n = s.len();
    if p.len() > n - at {
        return false;
    }
    let mut i: usize = 0;
    while i < p.len()
        invariant
            n == s@.len(),
            at + p@.len() <= s@.len(),
            i <= p@.len(),
            s@.subrange(at as int, at + i) == p@.take(i as int),
        decreases p.len() - i,
    {
        assert(at + i < s@.len());
        if s[at + i] != p[i] {
            assert(s@.skip(at as int).take(p@.len() as int)[i as int] != p@[i as int]);
            return false;
        }
        assert(s@.subrange(at as int, at + i + 1) =~= s@.subrange(at as int, at + i).push(
            s@[at + i],
        ));
        assert(p@.take(i + 1) =~= p@.take(i as int).push(p@[i as int]));
        i = i + 1;
    }
    assert(p@ =~= p@.take(i as int));
    assert(s@.skip(at as int).take(p@.len() as int) =~= s@.subrange(at as int, at + i));
    true
}

pub fn trim_start_matches(s: &Vec<char>, p: &Vec<char>) -> (r: Vec<char>)
    ensures
        r@ == strip_all_prefix(s@, p@),
{
    if p.len() == 0 {
        return copy_range(s, 0, s.len());
    }
    let mut at: usize = 0;
    let n = s.len();
    assert(s@.skip(0) =~= s@);
    while prefix_at(s, p, at)
        invariant
            n == s@.len(),
            at <= s@.len(),
            p@.len() > 0,
            strip_all_prefix(s@, p@) == strip_all_prefix(s@.skip(at as int), p@),
        decreases s@.len() - at,
    {
        assert(s@.skip(at as int).skip(p@.len() as int) =~= s@.skip(at + p@.len()));
        assert(at + p@.len() <= s@.len());
        at = at + p.len();
    }
    let r = copy_range(s, at, s.len());
    assert(r@ =~= s@.skip(at as int));
    r
}

/// Whether `p` occurs in `s` at index `i`.
pub open spec fn occurs_at(s: Seq<char>, p: Seq<char>, i: int) -> bool {
    0 <= i && i + p.len() <= s.len() && s.subrange(i, i + p.len()) == p
}

/// The index of the first occurrence of `p` in `s` (`str::find`).
pub open spec fn find_seq(s: Seq<char>, p: Seq<char>) -> Option<int>
    decreases s.len(),
{
    if p.len() > s.len() {
        None
    } else if has_prefix(s, p) {
        Some(0)
    } else if s.len() == 0 {
        None
    } else {
        match find_seq(s.drop_first(), p) {
            Some(k) => Some(k + 1),
            None => None,
        }
    }
}

pub proof fn lemma_find_seq(s: Seq<char>, p: Seq<char>)
    ensures
        find_seq(s, p) matches Some(i) ==> {
            &&& occurs_at(s, p, i)
            &&& forall|j: int| 0 <= j < i ==> !occurs_at(s, p, j)
        },
        find_seq(s, p) is None ==> forall|j: int| 0 <= j ==> !occurs_at(s, p, j),
    decreases s.len(),
{
    if p.len() > s.len() {
    } else if has_prefix(s, p) {
        assert(s.subrange(0, p.len() as int) =~= s.take(p.len() as int));
    } else if s.len() == 0 {
        assert(s.take(p.len() as int) =~= p);
    } else {
        assert(s.subrange(0, p.len() as int) =~= s.take(p.len() as int));
        lemma_find_seq(s.drop_first(), p);
        assert forall|j: int| 1 <= j implies occurs_at(s, p, j) == occurs_at(
            s.drop_first(),
            p,
            j - 1,
        ) by {
            if j + p.len() <= s.len() {
                assert(s.subrange(j, j + p.len()) =~= s.drop_first().subrange(
                    j - 1,
                    j - 1 + p.len(),
                ));
            }
        }
    }
}

pub proof fn lemma_find_seq_at(s: Seq<char>, p: Seq<char>, i: int)
    requires
        occurs_at(s, p, i),
        forall|j: int| 0 <= j < i ==> !occurs_at(s, p, j),
    ensures
        find_seq(s, p) == Some(i),
{
    lemma_find_seq(s, p);
    if let Some(k) = find_seq(s, p) {
        if k < i {
            assert(!occurs_at(s, p, k));
        } else if k > i {
        }
    }
}

/// The first occurrence of `p` at or after `from`, as an index into `s`.
pub fn find_from(s: &Vec<char>, p: &Vec<char>, from: usize) -> (r: Option<usize>)
    requires
        from <= s@.len(),
    ensures
        match r {
            Some(k) => find_seq(s@.skip(from as int), p@) == Some(k - from) && from <= k,
            None => find_seq(s@.skip(from as int), p@) is None,
        },
{
    let ghost t = s@.skip(from as int);
    if p.len() == 0 {
        proof {
            assert(t.subrange(0, 0) =~= p@);
            lemma_find_seq_at(t, p@, 0);
        }
        return Some(from);
    }
    let mut k = from;
    while k < s.len()
        invariant
            from <= k <= s@.len(),
            p@.len() > 0,
            t == s@.skip(from as int),
            forall|j: int| 0 <= j < k - from ==> !occurs_at(t, p@, j),
        decreases s@.len() - k,
    {
        if prefix_at(s, p, k) {
            proof {
                assert(s@.skip(k as int).take(p@.len() as int) =~= t.subrange(
                    k - from,
                    k - from + p@.len(),
                ));
                lemma_find_seq_at(t, p@, k - from);
            }
            return Some(k);
        }
        proof {
            if occurs_at(t, p@, k - from) {
                assert(s@.skip(k as int).take(p@.len() as int) =~= t.subrange(
                    k - from,
                    k - from + p@.len(),
                ));
            }
        }
        k = k + 1;
    }
    proof {
        lemma_find_seq(t, p@);
        if let Some(i) = find_seq(t, p@) {
            assert(!occurs_at(t, p@, i));
        }
    }
    None
}


// ---------------------------------------------------------------------------
// Values and path segments
// ---------------------------------------------------------------------------

/// A value as front matter writes it: surrounding whitespace, then double
/// quotes, then single quotes removed (`trim().trim_matches('"').trim_matches('\'')`).
pub open spec fn clean_value(v: Seq<char>) -> Seq<char> {
    trimmed(trimmed(trimmed(v, CharClass::Whitespace), CharClass::Exactly('"')), CharClass::Exactly('\''))
}

pub fn clean(v: &Vec<char>) -> (r: Vec<char>)
    ensures
        r@ == clean_value(v@),
{
    let a = trim(v, &CharClass::Whitespace);
    let b = trim(&a, &CharClass::Exactly('"'));
    trim(&b, &CharClass::Exactly('\''))
}

/// The text after the last `/` (all of it when there is none), which is
/// what `rsplit('/').next()` yields.
pub open spec fn last_segment(s: Seq<char>) -> Seq<char>
    decreases s.len(),
{
    if s.len() == 0 {
        s
    } else if s.last() == '/' {
        Seq::empty()
    } else {
        last_segment(s.drop_last()).push(s.last())
    }
}

pub fn last_segment_of(s: &Vec<char>) -> (r: Vec<char>)
    ensures
        r@ == last_segment(s@),
{
    let n = s.len();
    let mut k = n;
    assert(s@.take(n as int) =~= s@);
    assert(s@.skip(n as int) =~= Seq::<char>::empty());
    assert(last_segment(s@) + Seq::<char>::empty() =~= last_segment(s@));
    while k > 0 && s[k - 1] != '/'
        invariant
            k <= n,
            n == s@.len(),
            last_segment(s@) == last_segment(s@.take(k as int)) + s@.skip(k as int),
        decreases k,
    {
        proof {
            let t = s@.take(k as int);
            assert(t.drop_last() =~= s@.take(k - 1));
            assert(s@.skip(k - 1) =~= seq![s@[k - 1]] + s@.skip(k as int));
            assert(last_segment(t) == last_segment(s@.take(k - 1)).push(s@[k - 1]));
            assert(last_segment(s@.take(k - 1)).push(s@[k - 1]) + s@.skip(k as int)
                =~= last_segment(s@.take(k - 1)) + s@.skip(k - 1));
        }
        k = k - 1;
    }
    proof {
        let t = s@.take(k as int);
        if k > 0 {
            assert(t.last() == '/');
        }
        assert(last_segment(t) =~= Seq::<char>::empty());
        assert(last_segment(s@) =~= s@.skip(k as int));
    }
    let r = copy_range(s, k, n);
    assert(r@ =~= s@.skip(k as int));
    r
}

/// What `str::to_lowercase` returns (lowercase as the Unicode property
/// `Lowercase` defines it).
pub uninterp spec fn lowercase(s: Seq<char>) -> Seq<char>;

/// Calls `str::to_lowercase`. Claimed: the result is a function of the text alone.
#[verifier::external_body]
pub(crate) fn to_lowercase(s: &str) -> (r: String)
    ensures
        r@ == lowercase(s@),
{
    s.to_lowercase()
}

} // verus!
