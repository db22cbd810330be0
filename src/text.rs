//! Character-level helpers over strings viewed as `Seq<char>`.

use vstd::prelude::*;

verus! {

broadcast use vstd::string::group_string_axioms;

/// The characters of `s`, in order.
pub fn chars_of(s: &str) -> (r: Vec<char>)
    ensures
        r@ == s@,
{
    let mut out: Vec<char> = Vec::new();
    for c in it: s.chars()
        invariant
            it.seq() == s@,
            out@ == it.seq().take(it.index() as int),
    {
        out.push(c);
    }
    out
}

/// Relies on `String::from_iter` over `&char`: the string holds the characters in order.
#[verifier::external_body]
pub fn string_of(c: &[char]) -> (r: String)
    ensures
        r@ == c@,
{
    String::from_iter(c)
}

/// Whether `c` is white space in the Unicode sense (`White_Space`), as `char::is_whitespace`.
pub open spec fn is_white(c: char) -> bool {
    ('\u{9}' <= c && c <= '\u{d}') || c == ' ' || c == '\u{85}' || c == '\u{a0}'
        || c == '\u{1680}' || ('\u{2000}' <= c && c <= '\u{200a}') || c == '\u{2028}'
        || c == '\u{2029}' || c == '\u{202f}' || c == '\u{205f}' || c == '\u{3000}'
}

/// A set of characters that a trim removes from both ends.
#[derive(Clone, Copy, PartialEq, Eq, Structural)]
pub enum CharClass {
    White,
    Open,
    Close,
    Slash,
}

impl CharClass {
    pub open spec fn holds(self, c: char) -> bool {
        match self {
            CharClass::White => is_white(c),
            CharClass::Open => c == '{',
            CharClass::Close => c == '}',
            CharClass::Slash => c == '/',
        }
    }

    pub fn test(self, c: char) -> (r: bool)
        ensures
            r == self.holds(c),
    {
        match self {
            CharClass::White => {
                ('\u{9}' <= c && c <= '\u{d}') || c == ' ' || c == '\u{85}' || c == '\u{a0}'
                    || c == '\u{1680}' || ('\u{2000}' <= c && c <= '\u{200a}') || c == '\u{2028}'
                    || c == '\u{2029}' || c == '\u{202f}' || c == '\u{205f}' || c == '\u{3000}'
            },
            CharClass::Open => c == '{',
            CharClass::Close => c == '}',
            CharClass::Slash => c == '/',
        }
    }
}

/// `s` without its leading characters of class `k`.
pub open spec fn strip_front(s: Seq<char>, k: CharClass) -> Seq<char>
    decreases s.len(),
{
    if s.len() > 0 && k.holds(s[0]) {
        strip_front(s.drop_first(), k)
    } else {
        s
    }
}

/// `s` without its trailing characters of class `k`.
pub open spec fn strip_back(s: Seq<char>, k: CharClass) -> Seq<char>
    decreases s.len(),
{
    if s.len() > 0 && k.holds(s.last()) {
        strip_back(s.drop_last(), k)
    } else {
        s
    }
}

/// `s` trimmed of class `k` at both ends (`str::trim`, `str::trim_matches`).
pub open spec fn strip(s: Seq<char>, k: CharClass) -> Seq<char> {
    strip_back(strip_front(s, k), k)
}

/// Narrows `lo..hi` of `v` to the range that trimming class `k` at both ends leaves.
pub fn strip_range(v: &[char], lo: usize, hi: usize, k: CharClass) -> (r: (usize, usize))
    requires
        lo <= hi <= v@.len(),
    ensures
        lo <= r.0 <= r.1 <= hi,
        v@.subrange(r.0 as int, r.1 as int) == strip(v@.subrange(lo as int, hi as int), k),
{
    let mut a: usize = lo;
    while a < hi && k.test(v[a])
        invariant
            lo <= a <= hi <= v@.len(),
            strip_front(v@.subrange(lo as int, hi as int), k) == strip_front(
                v@.subrange(a as int, hi as int),
                k,
            ),
        decreases hi - a,
    {
        assert(v@.subrange(a as int, hi as int).drop_first() =~= v@.subrange(a + 1, hi as int));
        a = a + 1;
    }
    let mut b: usize = hi;
    while b > a && k.test(v[b - 1])
        invariant
            lo <= a <= b <= hi <= v@.len(),
            strip_front(v@.subrange(lo as int, hi as int), k) == v@.subrange(a as int, hi as int),
            strip(v@.subrange(lo as int, hi as int), k) == strip_back(
                v@.subrange(a as int, b as int),
                k,
            ),
        decreases b - a,
    {
        assert(v@.subrange(a as int, b as int).drop_last() =~= v@.subrange(a as int, b - 1));
        b = b - 1;
    }
    (a, b)
}

/// Whether the two characters at `i` are both `c`.
pub open spec fn pair_at(s: Seq<char>, i: int, c: char) -> bool {
    0 <= i && i + 1 < s.len() && s[i] == c && s[i + 1] == c
}

/// The first index at or after `from` where two characters `c` begin (`str::find` on
/// a two-character pattern).
pub open spec fn find_pair(s: Seq<char>, from: int, c: char) -> Option<int>
    decreases s.len() - from,
{
    if from < 0 || from + 1 >= s.len() {
        None
    } else if s[from] == c && s[from + 1] == c {
        Some(from)
    } else {
        find_pair(s, from + 1, c)
    }
}

pub proof fn lemma_find_pair(s: Seq<char>, from: int, c: char)
    requires
        0 <= from,
    ensures
        match find_pair(s, from, c) {
            Some(j) => from <= j && pair_at(s, j, c) && forall|i: int|
                from <= i < j ==> !pair_at(s, i, c),
            None => forall|i: int| from <= i ==> !pair_at(s, i, c),
        },
    decreases s.len() - from,
{
    if from < 0 || from + 1 >= s.len() {
    } else if s[from] == c && s[from + 1] == c {
    } else {
        lemma_find_pair(s, from + 1, c);
    }
}

/// Executable `find_pair`.
pub fn find_pair_in(v: &[char], from: usize, c: char) -> (r: Option<usize>)
    ensures
        r == (match find_pair(v@, from as int, c) {
            Some(j) => Some(j as usize),
            None => None,
        }),
        r matches Some(j) ==> j + 1 < v@.len(),
{
    let mut i: usize = from;
    while i < v.len() && i + 1 < v.len()
        invariant
            from <= i,
            find_pair(v@, from as int, c) == find_pair(v@, i as int, c),
        decreases v.len() - i,
    {
        if v[i] == c && v[i + 1] == c {
            return Some(i);
        }
        i = i + 1;
    }
    None
}

/// Appends the characters of `s` to `out`.
pub fn push_all(out: &mut Vec<char>, s: &[char])
    ensures
        final(out)@ == old(out)@ + s@,
{
    let ghost before = out@;
    let mut i: usize = 0;
    while i < s.len()
        invariant
            i <= s@.len(),
            out@ == before + s@.take(i as int),
        decreases s.len() - i,
    {
        out.push(s[i]);
        i = i + 1;
        assert(before + s@.take(i as int) =~= out@);
    }
    assert(s@.take(i as int) =~= s@);
}

/// Whether `s` begins with `p`.
pub fn starts_with(s: &[char], p: &[char]) -> (r: bool)
    ensures
        r == (p@.len() <= s@.len() && s@.take(p@.len() as int) == p@),
{
    if p.len() > s.len() {
        return false;
    }
    let mut i: usize = 0;
    while i < p.len()
        invariant
            p@.len() <= s@.len(),
            i <= p@.len(),
            forall|j: int| 0 <= j < i ==> s@[j] == p@[j],
        decreases p.len() - i,
    {
        if s[i] != p[i] {
            assert(s@.take(p@.len() as int)[i as int] != p@[i as int]);
            return false;
        }
        i = i + 1;
    }
    assert(s@.take(p@.len() as int) =~= p@);
    true
}

/// The characters of `v` from index `from` on.
pub fn tail_of(v: &[char], from: usize) -> (r: Vec<char>)
    requires
        from <= v@.len(),
    ensures
        r@ == v@.skip(from as int),
{
    let mut out: Vec<char> = Vec::new();
    let mut i: usize = from;
    while i < v.len()
        invariant
            from <= i <= v@.len(),
            out@ == v@.subrange(from as int, i as int),
        decreases v.len() - i,
    {
        out.push(v[i]);
        i = i + 1;
        assert(out@ =~= v@.subrange(from as int, i as int));
    }
    assert(out@ =~= v@.skip(from as int));
    out
}

/// Whether `pat` occurs in `s` at index `i`.
pub open spec fn occurs(s: Seq<char>, i: int, pat: Seq<char>) -> bool {
    0 <= i && i + pat.len() <= s.len() && s.subrange(i, i + pat.len()) == pat
}

/// The first index at or after `from` where `pat` occurs in `s` (`str::find`).
pub open spec fn find_from(s: Seq<char>, pat: Seq<char>, from: int) -> Option<int>
    decreases s.len() + 1 - from,
{
    if from < 0 || from + pat.len() > s.len() {
        None
    } else if occurs(s, from, pat) {
        Some(from)
    } else {
        find_from(s, pat, from + 1)
    }
}

pub proof fn lemma_find_from_some(s: Seq<char>, pat: Seq<char>, from: int)
    ensures
        find_from(s, pat, from) matches Some(j) ==> from <= j && j + pat.len() <= s.len(),
    decreases s.len() + 1 - from,
{
    if from < 0 || from + pat.len() > s.len() {
    } else if occurs(s, from, pat) {
    } else {
        lemma_find_from_some(s, pat, from + 1);
    }
}

/// Executable `find_from(s, pat, 0)`.
pub fn find_seq(s: &[char], pat: &[char]) -> (r: Option<usize>)
    ensures
        r == (match find_from(s@, pat@, 0) {
            Some(j) => Some(j as usize),
            None => None,
        }),
{
    let mut i: usize = 0;
    while i <= s.len() && pat.len() <= s.len() - i
        invariant
            find_from(s@, pat@, 0) == find_from(s@, pat@, i as int),
        decreases s.len() + 1 - i,
    {
        let mut j: usize = 0;
        let mut same = true;
        while j < pat.len()
            invariant
                i + pat@.len() <= s@.len(),
                s@.len() == s.len(),
                j <= pat@.len(),
                same == forall|m: int| 0 <= m < j ==> s@[i + m] == pat@[m],
            decreases pat.len() - j,
        {
            if s[i + j] != pat[j] {
                same = false;
            }
            j = j + 1;
        }
        if same {
            assert(s@.subrange(i as int, i + pat@.len()) =~= pat@);
            return Some(i);
        }
        assert(!(s@.subrange(i as int, i + pat@.len()) =~= pat@)) by {
            let m = choose|m: int| 0 <= m < pat@.len() && s@[i + m] != pat@[m];
            assert(s@.subrange(i as int, i + pat@.len())[m] != pat@[m]);
        }
        i = i + 1;
    }
    None
}

} // verus!
