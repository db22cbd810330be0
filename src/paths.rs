//! Path strings: rebasing a walked entry onto another root, joining, and the
//! final segment of a path.

use vstd::prelude::*;
use crate::text::{CharClass, chars_of, push_all, starts_with, string_of, strip_front, strip_back, tail_of};

verus! {

/// `path` relative to `root`: the prefix `root` removed where `path` begins with
/// it, then any leading separators.
pub open spec fn rel_of(root: Seq<char>, path: Seq<char>) -> Seq<char> {
    let rest = if root.len() <= path.len() && path.take(root.len() as int) == root {
        path.skip(root.len() as int)
    } else {
        path
    };
    strip_front(rest, CharClass::Slash)
}

/// `rel` appended to `base`, with one separator between them unless `base` is
/// empty or already ends with one.
pub open spec fn join(base: Seq<char>, rel: Seq<char>) -> Seq<char> {
    if base.len() == 0 || base.last() == '/' {
        base + rel
    } else {
        base + seq!['/'] + rel
    }
}

/// The index of the last separator of `s`, or -1 where it holds none.
pub open spec fn last_slash(s: Seq<char>) -> int
    decreases s.len(),
{
    if s.len() == 0 {
        -1
    } else if s.last() == '/' {
        s.len() - 1
    } else {
        last_slash(s.drop_last())
    }
}

/// The final segment of a normalised path, trailing separators ignored; none for
/// a root, an empty path, or a final `.` or `..`.
pub open spec fn file_name(path: Seq<char>) -> Option<Seq<char>> {
    let t = strip_back(path, CharClass::Slash);
    let seg = t.skip(last_slash(t) + 1);
    if seg.len() == 0 || seg == seq!['.'] || seg == seq!['.', '.'] {
        None
    } else {
        Some(seg)
    }
}

/// The number of bytes that UTF-8 takes for `c`.
pub open spec fn utf8_len(c: char) -> nat {
    if (c as u32) < 0x80 {
        1
    } else if (c as u32) < 0x800 {
        2
    } else if (c as u32) < 0x10000 {
        3
    } else {
        4
    }
}

/// The number of bytes of `s` in UTF-8 (`str::len`).
pub open spec fn byte_len(s: Seq<char>) -> nat
    decreases s.len(),
{
    if s.len() == 0 {
        0
    } else {
        utf8_len(s[0]) + byte_len(s.drop_first())
    }
}

/// The longest suffix of `s` that takes at most `n` bytes.
pub open spec fn tail_within(s: Seq<char>, n: nat) -> Seq<char>
    decreases s.len(),
{
    if s.len() == 0 || byte_len(s) <= n {
        s
    } else {
        tail_within(s.drop_first(), n)
    }
}

/// A path cut for a progress line of 30 columns: one of more than 30 bytes is
/// shown as `..` and its last 28 bytes. Where byte 28 from the end falls inside a
/// character, that character is left out with the rest.
pub open spec fn shortened(p: Seq<char>) -> Seq<char> {
    if byte_len(p) > 30 {
        seq!['.', '.'] + tail_within(p, 28)
    } else {
        p
    }
}

proof fn lemma_byte_len_step(s: Seq<char>, i: int)
    requires
        0 <= i < s.len(),
    ensures
        byte_len(s.skip(i)) == utf8_len(s[i]) + byte_len(s.skip(i + 1)),
{
    assert(s.skip(i).drop_first() =~= s.skip(i + 1));
}

proof fn lemma_byte_len_mono(s: Seq<char>, i: int, k: int)
    requires
        0 <= i <= k <= s.len(),
    ensures
        byte_len(s.skip(i)) >= byte_len(s.skip(k)),
    decreases k - i,
{
    if i < k {
        lemma_byte_len_step(s, i);
        lemma_byte_len_mono(s, i + 1, k);
    }
}

proof fn lemma_tail_within(s: Seq<char>, n: nat, i: int, j: int)
    requires
        0 <= i <= j <= s.len(),
        byte_len(s.skip(j)) <= n,
        j == 0 || byte_len(s.skip(j - 1)) > n,
    ensures
        tail_within(s.skip(i), n) == s.skip(j),
    decreases j - i,
{
    if i < j {
        lemma_byte_len_mono(s, i, j - 1);
        assert(s.skip(i).drop_first() =~= s.skip(i + 1));
        lemma_tail_within(s, n, i + 1, j);
    }
}

fn utf8_width(c: char) -> (r: usize)
    ensures
        r == utf8_len(c),
{
    if (c as u32) < 0x80 {
        1
    } else if (c as u32) < 0x800 {
        2
    } else if (c as u32) < 0x10000 {
        3
    } else {
        4
    }
}

/// The path of `path` relative to `root`.
pub fn relative_path(root: &str, path: &str) -> (r: String)
    ensures
        r@ == rel_of(root@, path@),
{
    let rc = chars_of(root);
    let pc = chars_of(path);
    let rest = if starts_with(&pc, &rc) {
        tail_of(&pc, rc.len())
    } else {
        pc
    };
    let mut i: usize = 0;
    assert(rest@.skip(0) =~= rest@);
    while i < rest.len() && rest[i] == '/'
        invariant
            i <= rest@.len(),
            strip_front(rest@, CharClass::Slash) == strip_front(rest@.skip(i as int), CharClass::Slash),
        decreases rest.len() - i,
    {
        assert(rest@.skip(i as int).drop_first() =~= rest@.skip(i + 1));
        i = i + 1;
    }
    let out = tail_of(&rest, i);
    string_of(&out)
}

/// `rel` joined onto `base`.
pub fn join_path(base: &str, rel: &str) -> (r: String)
    ensures
        r@ == join(base@, rel@),
{
    let mut out = chars_of(base);
    let rc = chars_of(rel);
    let n = out.len();
    if n > 0 && out[n - 1] != '/' {
        out.push('/');
    }
    push_all(&mut out, &rc);
    string_of(&out)
}

/// The final segment of `path`.
pub fn file_name_of(path: &str) -> (r: Option<String>)
    ensures
        match r {
            Some(s) => file_name(path@) == Some(s@),
            None => file_name(path@) is None,
        },
{
    let v = chars_of(path);
    let mut end: usize = v.len();
    assert(v@.take(end as int) =~= v@);
    while end > 0 && v[end - 1] == '/'
        invariant
            end <= v@.len(),
            strip_back(v@, CharClass::Slash) == strip_back(v@.take(end as int), CharClass::Slash),
        decreases end,
    {
        assert(v@.take(end as int).drop_last() =~= v@.take(end - 1));
        end = end - 1;
    }
    let ghost t = v@.take(end as int);
    let mut start: usize = end;
    assert(t.take(start as int) =~= t);
    while start > 0 && v[start - 1] != '/'
        invariant
            start <= end <= v@.len(),
            t == v@.take(end as int),
            last_slash(t) == last_slash(t.take(start as int)),
            forall|j: int| start <= j < end ==> v@[j] != '/',
        decreases start,
    {
        assert(t.take(start as int).drop_last() =~= t.take(start - 1));
        start = start - 1;
    }
    proof {
        if start > 0 {
            assert(t.take(start as int).last() == '/');
        }
        assert(last_slash(t) + 1 == start);
    }
    let mut seg: Vec<char> = Vec::new();
    let mut i: usize = start;
    while i < end
        invariant
            start <= i <= end <= v@.len(),
            seg@ == v@.subrange(start as int, i as int),
        decreases end - i,
    {
        seg.push(v[i]);
        i = i + 1;
        assert(seg@ =~= v@.subrange(start as int, i as int));
    }
    assert(seg@ =~= t.skip(start as int));
    if seg.len() == 0 || (seg.len() == 1 && seg[0] == '.') || (seg.len() == 2 && seg[0] == '.'
        && seg[1] == '.') {
        proof {
            if seg@.len() == 1 {
                assert(seg@ =~= seq!['.']);
            }
            if seg@.len() == 2 {
                assert(seg@ =~= seq!['.', '.']);
            }
        }
        None
    } else {
        proof {
            if seg@ == seq!['.'] {
                assert(seg@[0] == '.');
            }
            if seg@ == seq!['.', '.'] {
                assert(seg@[1] == '.');
            }
        }
        Some(string_of(&seg))
    }
}

/// A path cut for a progress line of 30 columns.
pub fn shorten_path(path: &str) -> (r: String)
    ensures
        r@ == shortened(path@),
{
    let v = chars_of(path);
    let mut k: usize = v.len();
    let mut acc: usize = 0;
    assert(v@.skip(v@.len() as int) =~= Seq::<char>::empty());
    while k > 0 && acc <= 30
        invariant
            k <= v@.len(),
            acc == byte_len(v@.skip(k as int)),
            acc <= 34,
        decreases k,
    {
        proof {
            lemma_byte_len_step(v@, k - 1);
        }
        acc = acc + utf8_width(v[k - 1]);
        k = k - 1;
    }
    proof {
        lemma_byte_len_mono(v@, 0, k as int);
        assert(v@.skip(0) =~= v@);
    }
    if acc <= 30 {
        return string_of(&v);
    }
    let mut j: usize = v.len();
    let mut b: usize = 0;
    while j > 0 && b + utf8_width(v[j - 1]) <= 28
        invariant
            j <= v@.len(),
            b == byte_len(v@.skip(j as int)),
            b <= 28,
        decreases j,
    {
        proof {
            lemma_byte_len_step(v@, j - 1);
        }
        b = b + utf8_width(v[j - 1]);
        j = j - 1;
    }
    proof {
        if j > 0 {
            lemma_byte_len_step(v@, j - 1);
        }
        lemma_tail_within(v@, 28, 0, j as int);
    }
    let mut out: Vec<char> = Vec::new();
    out.push('.');
    out.push('.');
    let t = tail_of(&v, j);
    push_all(&mut out, &t);
    assert(out@ =~= seq!['.', '.'] + v@.skip(j as int));
    string_of(&out)
}

} // verus!
