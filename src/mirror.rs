//! Mirroring a walked source tree onto a destination root: which directories to
//! create and which files to copy or render, skipping every destination that
//! already exists.

use vstd::prelude::*;
use crate::paths::{join, join_path, rel_of, relative_path};
use crate::substitute::{SubstitutionContext, str_replace_position, substitute};
use crate::text::chars_of;

verus! {

/// One node of a walked source tree: its full path and whether it is a directory.
pub struct SourceEntry {
    pub path: String,
    pub is_dir: bool,
}

/// What one planned step does at its destination.
#[derive(Clone, Copy, PartialEq, Eq, Structural, Debug)]
pub enum ActionKind {
    /// Create an empty directory.
    CreateDir,
    /// Copy the source file's bytes verbatim.
    CopyFile,
    /// Read the source file as text, substitute its tokens, and write the result.
    RenderFile,
}

/// One planned step: its kind, the source entry's path and the destination path.
pub struct MirrorAction {
    pub kind: ActionKind,
    pub source: String,
    pub dest: String,
}

pub open spec fn entries_view(es: Seq<SourceEntry>) -> Seq<(Seq<char>, bool)> {
    es.map_values(|e: SourceEntry| (e.path@, e.is_dir))
}

/// A planned step as `(source, dest, kind)`.
pub open spec fn actions_view(acts: Seq<MirrorAction>) -> Seq<(Seq<char>, Seq<char>, ActionKind)> {
    acts.map_values(|a: MirrorAction| (a.source@, a.dest@, a.kind))
}

/// The paths held by a list of strings.
pub open spec fn string_set(ss: Seq<String>) -> Set<Seq<char>> {
    Set::new(|x: Seq<char>| exists|j: int| 0 <= j < ss.len() && ss[j]@ == x)
}

/// The kind of step for an entry.
pub open spec fn kind_of(is_dir: bool, render: bool) -> ActionKind {
    if is_dir {
        ActionKind::CreateDir
    } else if render {
        ActionKind::RenderFile
    } else {
        ActionKind::CopyFile
    }
}

/// The destination of `path`: its path relative to `src_root`, rewritten through
/// `ctx` where one is given, joined onto `dest_root`.
pub open spec fn dest_of(
    src_root: Seq<char>,
    dest_root: Seq<char>,
    ctx: Option<Seq<(Seq<char>, Seq<char>)>>,
    path: Seq<char>,
) -> Seq<char> {
    let rel = rel_of(src_root, path);
    join(
        dest_root,
        match ctx {
            Some(c) => substitute(rel, c),
            None => rel,
        },
    )
}

/// The steps for `entries`, in order, and the paths that exist once they are done.
/// An entry whose destination exists already, or is the destination of an earlier
/// step, gets no step.
/// Files are rendered where a context is given and copied where none is.
pub open spec fn plan(
    entries: Seq<(Seq<char>, bool)>,
    src_root: Seq<char>,
    dest_root: Seq<char>,
    ctx: Option<Seq<(Seq<char>, Seq<char>)>>,
    existing: Set<Seq<char>>,
) -> (Seq<(Seq<char>, Seq<char>, ActionKind)>, Set<Seq<char>>)
    decreases entries.len(),
{
    if entries.len() == 0 {
        (seq![], existing)
    } else {
        let (acts, seen) = plan(entries.drop_last(), src_root, dest_root, ctx, existing);
        let e = entries.last();
        let d = dest_of(src_root, dest_root, ctx, e.0);
        if seen.contains(d) {
            (acts, seen)
        } else {
            (acts.push((e.0, d, kind_of(e.1, ctx is Some))), seen.insert(d))
        }
    }
}

/// The paths that exist after the steps `acts` were carried out over `fs`.
pub open spec fn apply_plan(fs: Set<Seq<char>>, acts: Seq<(Seq<char>, Seq<char>, ActionKind)>) -> Set<
    Seq<char>,
>
    decreases acts.len(),
{
    if acts.len() == 0 {
        fs
    } else {
        apply_plan(fs, acts.drop_last()).insert(acts.last().1)
    }
}

/// Whether `seen` holds `x`.
fn holds_path(seen: &Vec<Vec<char>>, x: &Vec<char>) -> (r: bool)
    ensures
        r == exists|j: int| 0 <= j < seen@.len() && seen@[j]@ == x@,
{
    let mut i: usize = 0;
    while i < seen.len()
        invariant
            i <= seen@.len(),
            forall|j: int| 0 <= j < i ==> seen@[j]@ != x@,
        decreases seen.len() - i,
    {
        if seen[i].len() == x.len() {
            let mut k: usize = 0;
            let mut same = true;
            while k < x.len()
                invariant
                    i < seen@.len(),
                    seen@[i as int]@.len() == x@.len(),
                    k <= x@.len(),
                    same == forall|m: int| 0 <= m < k ==> seen@[i as int]@[m] == x@[m],
                decreases x.len() - k,
            {
                if seen[i][k] != x[k] {
                    same = false;
                }
                k = k + 1;
            }
            if same {
                assert(seen@[i as int]@ =~= x@);
                return true;
            }
        }
        i = i + 1;
    }
    false
}

pub open spec fn chars_set(seen: Seq<Vec<char>>) -> Set<Seq<char>> {
    Set::new(|x: Seq<char>| exists|j: int| 0 <= j < seen.len() && seen[j]@ == x)
}

fn plan_entries(
    source_root: &str,
    dest_root: &str,
    entries: &Vec<SourceEntry>,
    existing: &Vec<String>,
    ctx: Option<&SubstitutionContext>,
) -> (r: Vec<MirrorAction>)
    ensures
        actions_view(r@) == plan(
            entries_view(entries@),
            source_root@,
            dest_root@,
            match ctx {
                Some(c) => Some(c@),
                None => None,
            },
            string_set(existing@),
        ).0,
{
    let ghost cv = match ctx {
        Some(c) => Some(c@),
        None => None,
    };
    let ghost ev = entries_view(entries@);
    let mut seen: Vec<Vec<char>> = Vec::new();
    let mut j: usize = 0;
    while j < existing.len()
        invariant
            j <= existing@.len(),
            seen@.len() == j,
            forall|m: int| 0 <= m < j ==> #[trigger] seen@[m]@ == existing@[m]@,
        decreases existing.len() - j,
    {
        seen.push(chars_of(existing[j].as_str()));
        j = j + 1;
    }
    assert(chars_set(seen@) =~= string_set(existing@)) by {
        assert forall|x: Seq<char>| chars_set(seen@).contains(x) implies string_set(existing@).contains(x) by {
            let m = choose|m: int| 0 <= m < seen@.len() && seen@[m]@ == x;
            assert(existing@[m]@ == x);
        }
        assert forall|x: Seq<char>| string_set(existing@).contains(x) implies chars_set(seen@).contains(x) by {
            let m = choose|m: int| 0 <= m < existing@.len() && existing@[m]@ == x;
            assert(seen@[m]@ == x);
        }
    }
    let mut out: Vec<MirrorAction> = Vec::new();
    let render = ctx.is_some();
    let mut i: usize = 0;
    assert(ev.take(0) =~= Seq::<(Seq<char>, bool)>::empty());
    assert(actions_view(out@) =~= Seq::<(Seq<char>, Seq<char>, ActionKind)>::empty());
    while i < entries.len()
        invariant
            i <= entries@.len(),
            ev == entries_view(entries@),
            render == ctx is Some,
            cv == (match ctx {
                Some(c) => Some(c@),
                None => None,
            }),
            plan(ev.take(i as int), source_root@, dest_root@, cv, string_set(existing@)).0
                == actions_view(out@),
            plan(ev.take(i as int), source_root@, dest_root@, cv, string_set(existing@)).1
                == chars_set(seen@),
        decreases entries.len() - i,
    {
        let entry = &entries[i];
        let rel = relative_path(source_root, entry.path.as_str());
        let rewritten = match ctx {
            Some(c) => str_replace_position(rel.as_str(), c),
            None => rel,
        };
        let d = join_path(dest_root, rewritten.as_str());
        let dc = chars_of(d.as_str());
        proof {
            assert(ev.take(i + 1).drop_last() =~= ev.take(i as int));
            assert(ev.take(i + 1).last() == (entry.path@, entry.is_dir));
            assert(dest_of(source_root@, dest_root@, cv, entry.path@) == d@);
        }
        if !holds_path(&seen, &dc) {
            let kind = if entry.is_dir {
                ActionKind::CreateDir
            } else if render {
                ActionKind::RenderFile
            } else {
                ActionKind::CopyFile
            };
            let ghost before = out@;
            let ghost before_seen = seen@;
            out.push(MirrorAction { kind, source: entry.path.clone(), dest: d });
            seen.push(dc);
            proof {
                assert(actions_view(out@) =~= actions_view(before).push(
                    (entry.path@, d@, kind_of(entry.is_dir, render)),
                ));
                assert(chars_set(seen@) =~= chars_set(before_seen).insert(d@)) by {
                    assert forall|x: Seq<char>| chars_set(seen@).contains(x) implies chars_set(
                        before_seen,
                    ).insert(d@).contains(x) by {
                        let m = choose|m: int| 0 <= m < seen@.len() && seen@[m]@ == x;
                        if m < before_seen.len() {
                            assert(before_seen[m] == seen@[m]);
                        }
                    }
                    assert forall|x: Seq<char>| chars_set(before_seen).insert(d@).contains(x) implies chars_set(
                        seen@,
                    ).contains(x) by {
                        if x == d@ {
                            assert(seen@[before_seen.len() as int]@ == x);
                        } else {
                            let m = choose|m: int| 0 <= m < before_seen.len() && before_seen[m]@ == x;
                            assert(seen@[m] == before_seen[m]);
                        }
                    }
                }
            }
        }
        i = i + 1;
    }
    assert(ev.take(i as int) =~= ev);
    out
}

/// Plans a verbatim copy of the walked tree `entries` under `source_root` onto
/// `dest_root`, skipping destinations in `existing` or planned before.
pub fn mirror_plan(
    source_root: &str,
    dest_root: &str,
    entries: &Vec<SourceEntry>,
    existing: &Vec<String>,
) -> (r: Vec<MirrorAction>)
    ensures
        actions_view(r@) == plan(
            entries_view(entries@),
            source_root@,
            dest_root@,
            None,
            string_set(existing@),
        ).0,
{
    plan_entries(source_root, dest_root, entries, existing, None)
}

/// Plans the rendering of the walked tree `entries` under `source_root` onto
/// `dest_root`: destination paths and file contents go through `ctx`.
pub fn render_plan(
    source_root: &str,
    dest_root: &str,
    entries: &Vec<SourceEntry>,
    existing: &Vec<String>,
    ctx: &SubstitutionContext,
) -> (r: Vec<MirrorAction>)
    ensures
        actions_view(r@) == plan(
            entries_view(entries@),
            source_root@,
            dest_root@,
            Some(ctx@),
            string_set(existing@),
        ).0,
{
    plan_entries(source_root, dest_root, entries, existing, Some(ctx))
}

proof fn lemma_plan_seen(
    es: Seq<(Seq<char>, bool)>,
    src_root: Seq<char>,
    dest_root: Seq<char>,
    ctx: Option<Seq<(Seq<char>, Seq<char>)>>,
    fs: Set<Seq<char>>,
)
    ensures
        plan(es, src_root, dest_root, ctx, fs).1 == apply_plan(
            fs,
            plan(es, src_root, dest_root, ctx, fs).0,
        ),
        fs.subset_of(plan(es, src_root, dest_root, ctx, fs).1),
        forall|i: int|
            0 <= i < es.len() ==> plan(es, src_root, dest_root, ctx, fs).1.contains(
                dest_of(src_root, dest_root, ctx, #[trigger] es[i].0),
            ),
        forall|i: int|
            0 <= i < plan(es, src_root, dest_root, ctx, fs).0.len() ==> !fs.contains(
                #[trigger] plan(es, src_root, dest_root, ctx, fs).0[i].1,
            ),
    decreases es.len(),
{
    if es.len() > 0 {
        let prev = es.drop_last();
        lemma_plan_seen(prev, src_root, dest_root, ctx, fs);
        let (acts, seen) = plan(prev, src_root, dest_root, ctx, fs);
        let d = dest_of(src_root, dest_root, ctx, es.last().0);
        if !seen.contains(d) {
            let next = acts.push((es.last().0, d, kind_of(es.last().1, ctx is Some)));
            assert(next.drop_last() =~= acts);
        }
        assert forall|i: int| 0 <= i < es.len() implies plan(
            es,
            src_root,
            dest_root,
            ctx,
            fs,
        ).1.contains(dest_of(src_root, dest_root, ctx, #[trigger] es[i].0)) by {
            if i < es.len() - 1 {
                assert(es[i] == prev[i]);
            }
        }
    }
}

proof fn lemma_plan_all_present(
    es: Seq<(Seq<char>, bool)>,
    src_root: Seq<char>,
    dest_root: Seq<char>,
    ctx: Option<Seq<(Seq<char>, Seq<char>)>>,
    fs: Set<Seq<char>>,
)
    requires
        forall|i: int| 0 <= i < es.len() ==> fs.contains(dest_of(src_root, dest_root, ctx, #[trigger] es[i].0)),
    ensures
        plan(es, src_root, dest_root, ctx, fs) == (Seq::<(Seq<char>, Seq<char>, ActionKind)>::empty(), fs),
    decreases es.len(),
{
    if es.len() > 0 {
        let prev = es.drop_last();
        assert forall|i: int| 0 <= i < prev.len() implies fs.contains(
            dest_of(src_root, dest_root, ctx, #[trigger] prev[i].0),
        ) by {
            assert(prev[i] == es[i]);
        }
        lemma_plan_all_present(prev, src_root, dest_root, ctx, fs);
        assert(fs.contains(dest_of(src_root, dest_root, ctx, es[es.len() - 1].0)));
    }
}

/// Mirroring twice is mirroring once: after the steps planned for a tree were
/// carried out, planning the same tree onto the same destination plans nothing.
pub proof fn lemma_mirror_idempotent(
    entries: Seq<(Seq<char>, bool)>,
    src_root: Seq<char>,
    dest_root: Seq<char>,
    ctx: Option<Seq<(Seq<char>, Seq<char>)>>,
    fs: Set<Seq<char>>,
)
    ensures
        plan(
            entries,
            src_root,
            dest_root,
            ctx,
            apply_plan(fs, plan(entries, src_root, dest_root, ctx, fs).0),
        ).0 == Seq::<(Seq<char>, Seq<char>, ActionKind)>::empty(),
{
    lemma_plan_seen(entries, src_root, dest_root, ctx, fs);
    let after = apply_plan(fs, plan(entries, src_root, dest_root, ctx, fs).0);
    lemma_plan_all_present(entries, src_root, dest_root, ctx, after);
}

/// Mirroring never overwrites: no planned step has a destination that existed
/// before.
pub proof fn lemma_mirror_no_overwrite(
    entries: Seq<(Seq<char>, bool)>,
    src_root: Seq<char>,
    dest_root: Seq<char>,
    ctx: Option<Seq<(Seq<char>, Seq<char>)>>,
    fs: Set<Seq<char>>,
    path: Seq<char>,
)
    requires
        fs.contains(path),
    ensures
        forall|i: int|
            0 <= i < plan(entries, src_root, dest_root, ctx, fs).0.len() ==> #[trigger] plan(
                entries,
                src_root,
                dest_root,
                ctx,
                fs,
            ).0[i].1 != path,
{
    lemma_plan_seen(entries, src_root, dest_root, ctx, fs);
}

/// Whether `a` is the step that entry `e` calls for.
pub open spec fn is_step_for(
    a: (Seq<char>, Seq<char>, ActionKind),
    e: (Seq<char>, bool),
    src_root: Seq<char>,
    dest_root: Seq<char>,
    ctx: Option<Seq<(Seq<char>, Seq<char>)>>,
) -> bool {
    &&& a.0 == e.0
    &&& a.1 == dest_of(src_root, dest_root, ctx, e.0)
    &&& a.2 == kind_of(e.1, ctx is Some)
}

/// Rendering places every entry: once the planned steps are carried out, the
/// destination of each entry of the tree exists, and each step is the one that
/// some entry calls for: its source's destination, with the kind its node needs.
pub proof fn lemma_render_places_every_entry(
    entries: Seq<(Seq<char>, bool)>,
    src_root: Seq<char>,
    dest_root: Seq<char>,
    ctx: Option<Seq<(Seq<char>, Seq<char>)>>,
    fs: Set<Seq<char>>,
)
    ensures
        forall|i: int|
            0 <= i < entries.len() ==> apply_plan(fs, plan(entries, src_root, dest_root, ctx, fs).0).contains(
                dest_of(src_root, dest_root, ctx, #[trigger] entries[i].0),
            ),
        forall|j: int|
            0 <= j < plan(entries, src_root, dest_root, ctx, fs).0.len() ==> exists|i: int|
                0 <= i < entries.len() && is_step_for(
                    #[trigger] plan(entries, src_root, dest_root, ctx, fs).0[j],
                    entries[i],
                    src_root,
                    dest_root,
                    ctx,
                ),
    decreases entries.len(),
{
    lemma_plan_seen(entries, src_root, dest_root, ctx, fs);
    if entries.len() > 0 {
        let prev = entries.drop_last();
        lemma_render_places_every_entry(prev, src_root, dest_root, ctx, fs);
        let acts = plan(entries, src_root, dest_root, ctx, fs).0;
        let pacts = plan(prev, src_root, dest_root, ctx, fs).0;
        assert forall|j: int| 0 <= j < acts.len() implies exists|i: int|
            0 <= i < entries.len() && is_step_for(#[trigger] acts[j], entries[i], src_root, dest_root, ctx) by {
            if j < pacts.len() {
                assert(acts[j] == pacts[j]);
                let i = choose|i: int|
                    0 <= i < prev.len() && is_step_for(pacts[j], prev[i], src_root, dest_root, ctx);
                assert(prev[i] == entries[i]);
            } else {
                let k = entries.len() - 1;
                assert(is_step_for(acts[j], entries[k], src_root, dest_root, ctx));
            }
        }
    }
}

} // verus!
