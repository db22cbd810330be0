//! Flat key-to-literal substitution of placeholder tokens.

use vstd::prelude::*;
use crate::text::{chars_of, string_of};
use crate::token::{pairs_view, scan, str_to_insert_position};

verus! {

/// `s` with every non-overlapping occurrence of `pat`, found left to right,
/// replaced by `rep` (`str::replace`). An empty pattern leaves `s` as it is.
pub open spec fn replace_all(s: Seq<char>, pat: Seq<char>, rep: Seq<char>) -> Seq<char>
    decreases s.len(),
{
    if pat.len() == 0 || s.len() < pat.len() {
        s
    } else if s.take(pat.len() as int) == pat {
        rep + replace_all(s.skip(pat.len() as int), pat, rep)
    } else {
        seq![s[0]] + replace_all(s.skip(1), pat, rep)
    }
}

/// The value of the last entry of `entries` whose key is `key`: a later entry
/// shadows an earlier one.
pub open spec fn lookup(entries: Seq<(Seq<char>, Seq<char>)>, key: Seq<char>) -> Option<Seq<char>>
    decreases entries.len(),
{
    if entries.len() == 0 {
        None
    } else if entries.last().0 == key {
        Some(entries.last().1)
    } else {
        lookup(entries.drop_last(), key)
    }
}

/// Rewrites `r` token by token: each token whose key the context maps has every
/// occurrence of its literal span replaced by the mapped value.
pub open spec fn apply_tokens(
    r: Seq<char>,
    toks: Seq<(Seq<char>, Seq<char>)>,
    ctx: Seq<(Seq<char>, Seq<char>)>,
) -> Seq<char>
    decreases toks.len(),
{
    if toks.len() == 0 {
        r
    } else {
        let next = match lookup(ctx, toks[0].0) {
            Some(v) => replace_all(r, toks[0].1, v),
            None => r,
        };
        apply_tokens(next, toks.drop_first(), ctx)
    }
}

/// `text` with its tokens substituted through `ctx`.
pub open spec fn substitute(text: Seq<char>, ctx: Seq<(Seq<char>, Seq<char>)>) -> Seq<char> {
    apply_tokens(text, scan(text), ctx)
}

/// An ordered mapping from placeholder keys to the literal strings that replace them.
pub struct SubstitutionContext {
    entries: Vec<(Vec<char>, Vec<char>)>,
}

impl View for SubstitutionContext {
    type V = Seq<(Seq<char>, Seq<char>)>;

    closed spec fn view(&self) -> Seq<(Seq<char>, Seq<char>)> {
        self.entries@.map_values(|e: (Vec<char>, Vec<char>)| (e.0@, e.1@))
    }
}

impl SubstitutionContext {
    /// A context that maps no key.
    pub fn new() -> (r: Self)
        ensures
            r@ == Seq::<(Seq<char>, Seq<char>)>::empty(),
    {
        let r = SubstitutionContext { entries: Vec::new() };
        assert(r@ =~= Seq::<(Seq<char>, Seq<char>)>::empty());
        r
    }

    /// Maps `key` to `value`, in place of any earlier value of `key`.
    pub fn insert(&mut self, key: &str, value: &str)
        ensures
            final(self)@ == old(self)@.push((key@, value@)),
            lookup(final(self)@, key@) == Some(value@),
            forall|k: Seq<char>| k != key@ ==> lookup(final(self)@, k) == lookup(old(self)@, k),
    {
        let k = chars_of(key);
        let v = chars_of(value);
        let ghost before = self@;
        self.entries.push((k, v));
        assert(self@ =~= before.push((key@, value@)));
        assert(self@.drop_last() =~= before);
    }

    /// The value that `key` maps to.
    pub fn value_of(&self, key: &[char]) -> (r: Option<&Vec<char>>)
        ensures
            match r {
                Some(v) => lookup(self@, key@) == Some(v@),
                None => lookup(self@, key@) is None,
            },
    {
        let mut i: usize = self.entries.len();
        assert(self@.take(i as int) =~= self@);
        while i > 0
            invariant
                i <= self.entries@.len(),
                lookup(self@, key@) == lookup(self@.take(i as int), key@),
            decreases i,
        {
            let ghost pre = self@.take(i as int);
            assert(pre.drop_last() =~= self@.take(i - 1));
            if same_chars(&self.entries[i - 1].0, key) {
                return Some(&self.entries[i - 1].1);
            }
            i = i - 1;
        }
        None
    }
}

/// Whether `a` and `b` hold the same characters.
fn same_chars(a: &[char], b: &[char]) -> (r: bool)
    ensures
        r == (a@ == b@),
{
    if a.len() != b.len() {
        return false;
    }
    let mut i: usize = 0;
    while i < a.len()
        invariant
            a@.len() == b@.len(),
            i <= a@.len(),
            forall|j: int| 0 <= j < i ==> a@[j] == b@[j],
        decreases a.len() - i,
    {
        if a[i] != b[i] {
            return false;
        }
        i = i + 1;
    }
    assert(a@ =~= b@);
    true
}

/// Whether `pat` occurs in `s` at index `i`.
fn occurs_at(s: &[char], i: usize, pat: &[char]) -> (r: bool)
    requires
        i + pat@.len() <= s@.len(),
    ensures
        r == (s@.skip(i as int).take(pat@.len() as int) == pat@),
{
    let mut j: usize = 0;
    while j < pat.len()
        invariant
            i + pat@.len() <= s@.len(),
            s@.len() == s.len(),
            j <= pat@.len(),
            forall|k: int| 0 <= k < j ==> s@[i + k] == pat@[k],
        decreases pat.len() - j,
    {
        if s[i + j] != pat[j] {
            assert(s@.skip(i as int).take(pat@.len() as int)[j as int] != pat@[j as int]);
            return false;
        }
        j = j + 1;
    }
    assert(s@.skip(i as int).take(pat@.len() as int) =~= pat@);
    true
}

/// `s` with every occurrence of `pat` replaced by `rep`.
pub fn replace_chars(s: &[char], pat: &[char], rep: &[char]) -> (r: Vec<char>)
    ensures
        r@ == replace_all(s@, pat@, rep@),
{
    let mut out: Vec<char> = Vec::new();
    let mut i: usize = 0;
    assert(s@.skip(0) =~= s@);
    assert(out@ + replace_all(s@, pat@, rep@) =~= replace_all(s@, pat@, rep@));
    while i < s.len()
        invariant
            i <= s@.len(),
            replace_all(s@, pat@, rep@) == out@ + replace_all(s@.skip(i as int), pat@, rep@),
        decreases s.len() - i,
    {
        let ghost rest = s@.skip(i as int);
        if pat.len() > 0 && pat.len() <= s.len() - i && occurs_at(s, i, pat) {
            let mut j: usize = 0;
            let ghost before = out@;
            while j < rep.len()
                invariant
                    j <= rep@.len(),
                    out@ == before + rep@.take(j as int),
                decreases rep.len() - j,
            {
                out.push(rep[j]);
                j = j + 1;
                assert(before + rep@.take(j as int) =~= out@);
            }
            assert(rep@.take(j as int) =~= rep@);
            assert(rest.skip(pat@.len() as int) =~= s@.skip(i + pat@.len()));
            assert(rest.take(pat@.len() as int) =~= s@.skip(i as int).take(pat@.len() as int));
            i = i + pat.len();
        } else {
            proof {
                if pat@.len() > 0 && pat@.len() <= rest.len() {
                    assert(rest.take(pat@.len() as int) =~= s@.skip(i as int).take(pat@.len() as int));
                }
                assert(rest.skip(1) =~= s@.skip(i + 1));
            }
            if pat.len() == 0 || pat.len() > s.len() - i {
                let ghost before = out@;
                proof {
                    assert(replace_all(rest, pat@, rep@) == rest);
                }
                let mut j: usize = i;
                while j < s.len()
                    invariant
                        i <= j <= s@.len(),
                        out@ == before + s@.subrange(i as int, j as int),
                    decreases s.len() - j,
                {
                    out.push(s[j]);
                    j = j + 1;
                    assert(before + s@.subrange(i as int, j as int) =~= out@);
                }
                assert(s@.subrange(i as int, j as int) =~= rest);
                assert(s@.skip(s@.len() as int) =~= Seq::<char>::empty());
                i = s.len();
            } else {
                out.push(s[i]);
                i = i + 1;
            }
        }
    }
    assert(s@.skip(i as int) =~= Seq::<char>::empty());
    assert(out@ + Seq::<char>::empty() =~= out@);
    out
}

/// Replaces the placeholder tokens of `text` whose keys `key_value` maps; tokens
/// with other keys stay as they are.
pub fn str_replace_position(text: &str, key_value: &SubstitutionContext) -> (r: String)
    ensures
        r@ == substitute(text@, key_value@),
{
    let toks = str_to_insert_position(text);
    let mut result = chars_of(text);
    let mut i: usize = 0;
    assert(scan(text@).skip(0) =~= scan(text@));
    while i < toks.len()
        invariant
            i <= toks@.len(),
            pairs_view(toks@) == scan(text@),
            substitute(text@, key_value@) == apply_tokens(
                result@,
                scan(text@).skip(i as int),
                key_value@,
            ),
        decreases toks.len() - i,
    {
        let ghost rest = scan(text@).skip(i as int);
        assert(rest.drop_first() =~= scan(text@).skip(i + 1));
        let (key, span) = toks[i];
        let key_chars = chars_of(key);
        if let Some(value) = key_value.value_of(&key_chars) {
            let span_chars = chars_of(span);
            result = replace_chars(&result, &span_chars, value);
        }
        i = i + 1;
    }
    proof {
        assert(scan(text@).skip(i as int) =~= Seq::<(Seq<char>, Seq<char>)>::empty());
    }
    string_of(&result)
}

/// Substituting a text none of whose tokens has a key in the context gives the
/// text back unchanged.
pub proof fn lemma_substitute_no_known_keys(text: Seq<char>, ctx: Seq<(Seq<char>, Seq<char>)>)
    requires
        forall|i: int| 0 <= i < scan(text).len() ==> lookup(ctx, #[trigger] scan(text)[i].0) is None,
    ensures
        substitute(text, ctx) == text,
{
    lemma_apply_unknown(text, scan(text), ctx);
}

proof fn lemma_apply_unknown(
    r: Seq<char>,
    toks: Seq<(Seq<char>, Seq<char>)>,
    ctx: Seq<(Seq<char>, Seq<char>)>,
)
    requires
        forall|i: int| 0 <= i < toks.len() ==> lookup(ctx, #[trigger] toks[i].0) is None,
    ensures
        apply_tokens(r, toks, ctx) == r,
    decreases toks.len(),
{
    if toks.len() > 0 {
        assert(lookup(ctx, toks[0].0) is None);
        let rest = toks.drop_first();
        assert forall|i: int| 0 <= i < rest.len() implies lookup(ctx, #[trigger] rest[i].0) is None by {
            assert(rest[i] == toks[i + 1]);
        }
        lemma_apply_unknown(r, rest, ctx);
    }
}

/// The tokens of `toks` whose keys `ctx` maps, in order.
pub open spec fn mapped_tokens(
    toks: Seq<(Seq<char>, Seq<char>)>,
    ctx: Seq<(Seq<char>, Seq<char>)>,
) -> Seq<(Seq<char>, Seq<char>)>
    decreases toks.len(),
{
    if toks.len() == 0 {
        seq![]
    } else if lookup(ctx, toks[0].0) is Some {
        seq![toks[0]] + mapped_tokens(toks.drop_first(), ctx)
    } else {
        mapped_tokens(toks.drop_first(), ctx)
    }
}

proof fn lemma_apply_mapped(
    r: Seq<char>,
    toks: Seq<(Seq<char>, Seq<char>)>,
    ctx: Seq<(Seq<char>, Seq<char>)>,
)
    ensures
        apply_tokens(r, toks, ctx) == apply_tokens(r, mapped_tokens(toks, ctx), ctx),
    decreases toks.len(),
{
    if toks.len() > 0 {
        let rest = toks.drop_first();
        if let Some(v) = lookup(ctx, toks[0].0) {
            let next = replace_all(r, toks[0].1, v);
            lemma_apply_mapped(next, rest, ctx);
            let m = seq![toks[0]] + mapped_tokens(rest, ctx);
            assert(m[0] == toks[0]);
            assert(m.drop_first() =~= mapped_tokens(rest, ctx));
        } else {
            lemma_apply_mapped(r, rest, ctx);
        }
    }
}

/// A token whose key the context does not map causes no rewrite: substituting a
/// text gives what rewriting it by its mapped tokens alone gives.
pub proof fn lemma_unmapped_tokens_pass_through(text: Seq<char>, ctx: Seq<(Seq<char>, Seq<char>)>)
    ensures
        substitute(text, ctx) == apply_tokens(text, mapped_tokens(scan(text), ctx), ctx),
{
    lemma_apply_mapped(text, scan(text), ctx);
}

} // verus!
