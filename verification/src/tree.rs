//! What carrying out the plans does to a directory tree, as a mathematical
//! model, and what holds of it.
//!
//! A tree maps each location at which something is present to the entry that
//! put it there; a location is the sequence of names that leads to it from the
//! target directory. The model describes a run in which every step succeeds,
//! and it reads names as they are written: it knows no links.

use vstd::prelude::*;
use crate::path::{
    basename, climbs, components, dirname, dot_dot, lemma_basename_plain, lemma_climbs, plain_name,
};
use crate::plan::{
    deferred, is_plan, is_whiteout_name, lemma_dirname_stays, opaque_marker, step_of,
    steps_match, strip_whiteout, whiteout_prefix, EntryView, PlanView, StepView,
};

verus! {

/// A place in a tree: the names that lead to it from the target directory.
pub type Location = Seq<Seq<u8>>;

/// The entry that put something into a tree: the index of its layer, and its
/// index in the archive of that layer.
pub struct Origin {
    pub layer: int,
    pub entry: int,
}

/// A tree: what is present, and for each location the entry it is from.
pub type Tree = Map<Location, Origin>;

/// What one step of a plan does to a tree.
pub enum Event {
    /// Nothing.
    Idle,
    /// The entry `origin` is unpacked at `at`, over what was there; the
    /// directories that lead there come to be with it, where they are not
    /// there yet.
    Put { at: Location, origin: Origin },
    /// What is at `first` or at `second`, and all below them, is removed.
    Remove { first: Location, second: Location },
    /// All that lies below `dir` is removed; `dir` itself stays.
    Clear { dir: Location },
}

/// Whether the event makes `f` present.
pub open spec fn puts(ev: Event, f: Location) -> bool {
    ev matches Event::Put { at, origin } && f.len() > 0 && f.is_prefix_of(at)
}

/// Whether the event unpacks its entry at `f`.
pub open spec fn writes(ev: Event, f: Location) -> bool {
    ev matches Event::Put { at, origin } && f.len() > 0 && at == f
}

/// Whether the event makes `f` absent.
pub open spec fn removes(ev: Event, f: Location) -> bool {
    match ev {
        Event::Remove { first, second } => first.is_prefix_of(f) || second.is_prefix_of(f),
        Event::Clear { dir } => dir.is_prefix_of(f) && dir.len() < f.len(),
        _ => false,
    }
}

/// The tree after the event.
pub open spec fn apply(tree: Tree, ev: Event) -> Tree {
    Map::new(
        |f: Location| puts(ev, f) || (tree.dom().contains(f) && !removes(ev, f)),
        |f: Location|
            match ev {
                Event::Put { at, origin } => if writes(ev, f) || !tree.dom().contains(f) {
                    origin
                } else {
                    tree[f]
                },
                _ => tree[f],
            },
    )
}

/// The tree after the events, in their order.
pub open spec fn run(events: Seq<Event>, tree: Tree) -> Tree
    decreases events.len(),
{
    if events.len() == 0 {
        tree
    } else {
        apply(run(events.drop_last(), tree), events.last())
    }
}

/// What unpacking an entry of the given path does: it lands at the
/// components of the path, unless there are none or the path climbs, in
/// which case nothing is unpacked.
pub open spec fn unpacking(path: Seq<u8>, origin: Origin) -> Event {
    let at = components(path);
    if at.len() == 0 || at.contains(dot_dot()) {
        Event::Idle
    } else {
        Event::Put { at, origin }
    }
}

/// What a step does when the turn of its entry comes in the archive.
pub open spec fn event_of(e: EntryView, s: StepView, origin: Origin) -> Event {
    match s {
        StepView::Skip => Event::Idle,
        StepView::Defer => Event::Idle,
        StepView::Extract => unpacking(e.path, origin),
        StepView::Whiteout { dir, name, marker } => Event::Remove {
            first: components(dir).push(name),
            second: components(dir).push(marker),
        },
        StepView::Opaque { dir } => Event::Clear { dir: components(dir) },
    }
}

/// The events of the plan of layer `layer`, in the order in which they
/// happen: one for each entry, in the order of the archive, then the
/// unpacking of each directory, in the order that the plan gives them.
pub open spec fn timeline(plan: PlanView, layer: int) -> Seq<Event> {
    Seq::new(
        plan.entries.len(),
        |i: int| event_of(plan.entries[i], plan.steps[i], Origin { layer, entry: i }),
    ) + Seq::new(
        plan.directories.len(),
        |k: int|
            unpacking(
                plan.entries[plan.directories[k]].path,
                Origin { layer, entry: plan.directories[k] },
            ),
    )
}

/// The tree after the plans are carried out on `start`, one after the other.
pub open spec fn rendered(plans: Seq<PlanView>, start: Tree) -> Tree
    decreases plans.len(),
{
    if plans.len() == 0 {
        start
    } else {
        run(timeline(plans.last(), plans.len() - 1), rendered(plans.drop_last(), start))
    }
}

/// Whether no event after index `i` removes `f`.
pub open spec fn kept_after(events: Seq<Event>, i: int, f: Location) -> bool {
    forall|j: int| i < j < events.len() ==> !removes(#[trigger] events[j], f)
}

/// Whether no event after index `i` puts `f`.
pub open spec fn not_put_after(events: Seq<Event>, i: int, f: Location) -> bool {
    forall|j: int| i < j < events.len() ==> !puts(#[trigger] events[j], f)
}

/// Whether no event after index `i` unpacks its entry at `f`.
pub open spec fn not_written_after(events: Seq<Event>, i: int, f: Location) -> bool {
    forall|j: int| i < j < events.len() ==> !writes(#[trigger] events[j], f)
}

/// Whether some event puts `f` and none after it removes `f`.
pub open spec fn put_and_kept(events: Seq<Event>, f: Location) -> bool {
    exists|i: int| 0 <= i < events.len() && puts(#[trigger] events[i], f) && kept_after(events, i, f)
}

/// Whether a location lies below the target: none of its names is `..`.
pub open spec fn below_target(at: Location) -> bool {
    !at.contains(dot_dot())
}

/// Whether all that the event touches lies below the target, and what it
/// removes is named by a plain name.
pub open spec fn regular(ev: Event) -> bool {
    match ev {
        Event::Idle => true,
        Event::Put { at, origin } => below_target(at) && at.len() > 0,
        Event::Remove { first, second } => below_target(first) && below_target(second)
            && first.len() > 0 && second.len() > 0 && plain_name(first.last()) && plain_name(
            second.last(),
        ),
        Event::Clear { dir } => below_target(dir),
    }
}

/// Whether entry `w` of the plan is a whiteout that removes exactly the
/// location `f`.
pub open spec fn whites_out(plan: PlanView, w: int, f: Location) -> bool {
    &&& 0 <= w < plan.entries.len()
    &&& plan.steps[w] matches StepView::Whiteout { dir, name, marker }
    &&& components(dir).push(name) == f
}

/// The last writer decides what is present: after the events, `f` is present
/// if and only if some event put it and none after that removed it, or it
/// was there at the start and no event removed it.
pub proof fn lemma_run_decides(events: Seq<Event>, tree: Tree, f: Location)
    ensures
        run(events, tree).dom().contains(f) <==> (put_and_kept(events, f) || (tree.dom().contains(
            f,
        ) && kept_after(events, -1, f))),
    decreases events.len(),
{
    if events.len() > 0 {
        let init = events.drop_last();
        let last = events.last();
        let n = events.len() as int;
        lemma_run_decides(init, tree, f);
        assert forall|i: int| -1 <= i < n - 1 implies (kept_after(events, i, f) <==> (kept_after(
            init,
            i,
            f,
        ) && !removes(last, f))) by {
            if kept_after(events, i, f) {
                assert(!removes(events[n - 1], f));
                assert forall|j: int| i < j < init.len() implies !removes(#[trigger] init[j], f) by {
                    assert(init[j] == events[j]);
                }
            }
            if kept_after(init, i, f) && !removes(last, f) {
                assert forall|j: int| i < j < events.len() implies !removes(
                    #[trigger] events[j],
                    f,
                ) by {
                    if j < n - 1 {
                        assert(init[j] == events[j]);
                    }
                }
            }
        }
        if put_and_kept(events, f) {
            let i = choose|i: int|
                0 <= i < events.len() && puts(#[trigger] events[i], f) && kept_after(events, i, f);
            if i < n - 1 {
                assert(init[i] == events[i]);
                assert(kept_after(init, i, f));
            }
        }
        if put_and_kept(init, f) {
            let i = choose|i: int|
                0 <= i < init.len() && puts(#[trigger] init[i], f) && kept_after(init, i, f);
            assert(init[i] == events[i]);
            if !removes(last, f) {
                assert(kept_after(events, i, f));
            }
        }
        if puts(last, f) {
            assert(kept_after(events, n - 1, f));
            assert(puts(events[n - 1], f));
        }
    }
}

/// Events that do not put `f` cannot make it present.
pub proof fn lemma_run_stays_absent(events: Seq<Event>, tree: Tree, f: Location)
    requires
        not_put_after(events, -1, f),
        !tree.dom().contains(f),
    ensures
        !run(events, tree).dom().contains(f),
{
    lemma_run_decides(events, tree, f);
}

/// Events that do not remove `f` cannot make it absent.
pub proof fn lemma_run_stays_present(events: Seq<Event>, tree: Tree, f: Location)
    requires
        kept_after(events, -1, f),
        tree.dom().contains(f),
    ensures
        run(events, tree).dom().contains(f),
{
    lemma_run_decides(events, tree, f);
}

/// A removal with no put after it leaves `f` absent.
pub proof fn lemma_run_removed(events: Seq<Event>, tree: Tree, w: int, f: Location)
    requires
        0 <= w < events.len(),
        removes(events[w], f),
        not_put_after(events, w, f),
    ensures
        !run(events, tree).dom().contains(f),
{
    lemma_run_decides(events, tree, f);
    if put_and_kept(events, f) {
        let i = choose|i: int|
            0 <= i < events.len() && puts(#[trigger] events[i], f) && kept_after(events, i, f);
        assert(i < w);
    }
}

/// A put with no removal after it leaves `f` present.
pub proof fn lemma_run_put(events: Seq<Event>, tree: Tree, i: int, f: Location)
    requires
        0 <= i < events.len(),
        puts(events[i], f),
        kept_after(events, i, f),
    ensures
        run(events, tree).dom().contains(f),
{
    lemma_run_decides(events, tree, f);
}

/// Events that neither remove `f` nor unpack anything at it leave there what
/// was there.
pub proof fn lemma_run_keeps(events: Seq<Event>, tree: Tree, f: Location)
    requires
        tree.dom().contains(f),
        kept_after(events, -1, f),
        not_written_after(events, -1, f),
    ensures
        run(events, tree).dom().contains(f),
        run(events, tree)[f] == tree[f],
    decreases events.len(),
{
    if events.len() > 0 {
        let init = events.drop_last();
        let n = events.len() as int;
        assert forall|j: int| -1 < j < init.len() implies !removes(#[trigger] init[j], f)
            && !writes(init[j], f) by {
            assert(init[j] == events[j]);
        }
        lemma_run_keeps(init, tree, f);
        assert(!removes(events[n - 1], f));
        assert(!writes(events[n - 1], f));
    }
}

/// The last write decides what is there: where event `i` unpacks its entry
/// at `f`, and no event after it removes `f` or unpacks another entry there,
/// `f` holds the entry of event `i` after the events.
pub proof fn lemma_run_written(events: Seq<Event>, tree: Tree, i: int, f: Location)
    requires
        0 <= i < events.len(),
        writes(events[i], f),
        kept_after(events, i, f),
        not_written_after(events, i, f),
    ensures
        run(events, tree).dom().contains(f),
        events[i] matches Event::Put { at, origin } && run(events, tree)[f] == origin,
    decreases events.len(),
{
    let init = events.drop_last();
    let n = events.len() as int;
    if i < n - 1 {
        assert(init[i] == events[i]);
        assert forall|j: int| i < j < init.len() implies !removes(#[trigger] init[j], f)
            && !writes(init[j], f) by {
            assert(init[j] == events[j]);
        }
        lemma_run_written(init, tree, i, f);
        assert(!removes(events[n - 1], f));
        assert(!writes(events[n - 1], f));
    }
}

/// A whiteout hides what lower layers brought: where an event of layer `j`
/// removes `f`, no later event of that layer puts `f`, and no later layer
/// puts `f`, `f` is absent from the rendered tree.
pub proof fn law_whiteout_hides(plans: Seq<PlanView>, start: Tree, j: int, w: int, f: Location)
    requires
        0 <= j < plans.len(),
        0 <= w < timeline(plans[j], j).len(),
        removes(timeline(plans[j], j)[w], f),
        not_put_after(timeline(plans[j], j), w, f),
        forall|m: int|
            j < m < plans.len() ==> not_put_after(timeline(#[trigger] plans[m], m), -1, f),
    ensures
        !rendered(plans, start).dom().contains(f),
    decreases plans.len(),
{
    let n = plans.len() as int;
    let below = plans.drop_last();
    if j == n - 1 {
        lemma_run_removed(timeline(plans.last(), n - 1), rendered(below, start), w, f);
    } else {
        assert(below[j] == plans[j]);
        assert forall|m: int| j < m < below.len() implies not_put_after(
            timeline(#[trigger] below[m], m),
            -1,
            f,
        ) by {
            assert(below[m] == plans[m]);
        }
        law_whiteout_hides(below, start, j, w, f);
        assert(not_put_after(timeline(plans[n - 1], n - 1), -1, f));
        lemma_run_stays_absent(timeline(plans.last(), n - 1), rendered(below, start), f);
    }
}

/// What is unpacked stays until it is removed: where an event of layer `k`
/// puts `f`, no later event of that layer removes `f`, and no later layer
/// removes `f`, `f` is present in the rendered tree.
pub proof fn law_unpacked_stays(plans: Seq<PlanView>, start: Tree, k: int, i: int, f: Location)
    requires
        0 <= k < plans.len(),
        0 <= i < timeline(plans[k], k).len(),
        puts(timeline(plans[k], k)[i], f),
        kept_after(timeline(plans[k], k), i, f),
        forall|m: int| k < m < plans.len() ==> kept_after(timeline(#[trigger] plans[m], m), -1, f),
    ensures
        rendered(plans, start).dom().contains(f),
    decreases plans.len(),
{
    let n = plans.len() as int;
    let below = plans.drop_last();
    if k == n - 1 {
        lemma_run_put(timeline(plans.last(), n - 1), rendered(below, start), i, f);
    } else {
        assert(below[k] == plans[k]);
        assert forall|m: int| k < m < below.len() implies kept_after(
            timeline(#[trigger] below[m], m),
            -1,
            f,
        ) by {
            assert(below[m] == plans[m]);
        }
        law_unpacked_stays(below, start, k, i, f);
        assert(kept_after(timeline(plans[n - 1], n - 1), -1, f));
        lemma_run_stays_present(timeline(plans.last(), n - 1), rendered(below, start), f);
    }
}

/// A later layer overwrites an earlier one: where an event of layer `k`
/// unpacks its entry at `f`, and nothing after it, in that layer or in a
/// later one, removes `f` or unpacks another entry there, the rendered tree
/// holds at `f` the entry of that event, whatever earlier events put there.
pub proof fn law_last_write_remains(
    plans: Seq<PlanView>,
    start: Tree,
    k: int,
    i: int,
    f: Location,
)
    requires
        0 <= k < plans.len(),
        0 <= i < timeline(plans[k], k).len(),
        writes(timeline(plans[k], k)[i], f),
        kept_after(timeline(plans[k], k), i, f),
        not_written_after(timeline(plans[k], k), i, f),
        forall|m: int|
            k < m < plans.len() ==> kept_after(timeline(#[trigger] plans[m], m), -1, f)
                && not_written_after(timeline(plans[m], m), -1, f),
    ensures
        rendered(plans, start).dom().contains(f),
        timeline(plans[k], k)[i] matches Event::Put { at, origin } && rendered(plans, start)[f]
            == origin,
    decreases plans.len(),
{
    let n = plans.len() as int;
    let below = plans.drop_last();
    if k == n - 1 {
        lemma_run_written(timeline(plans.last(), n - 1), rendered(below, start), i, f);
    } else {
        assert(below[k] == plans[k]);
        assert forall|m: int| k < m < below.len() implies kept_after(
            timeline(#[trigger] below[m], m),
            -1,
            f,
        ) && not_written_after(timeline(below[m], m), -1, f) by {
            assert(below[m] == plans[m]);
        }
        law_last_write_remains(below, start, k, i, f);
        assert(kept_after(timeline(plans[n - 1], n - 1), -1, f));
        lemma_run_keeps(timeline(plans.last(), n - 1), rendered(below, start), f);
    }
}

/// The whiteout of an entry removes that entry: a whiteout at index `w` of a
/// plan is an event of its timeline that removes the location it names.
pub proof fn lemma_whiteout_removes(plan: PlanView, layer: int, w: int, f: Location)
    requires
        plan.steps.len() == plan.entries.len(),
        whites_out(plan, w, f),
    ensures
        0 <= w < timeline(plan, layer).len(),
        removes(timeline(plan, layer)[w], f),
{
    assert(timeline(plan, layer)[w] == event_of(
        plan.entries[w],
        plan.steps[w],
        Origin { layer, entry: w },
    ));
    assert(f.is_prefix_of(f)) by {
        assert(f =~= f.subrange(0, f.len() as int));
    }
}

/// A file is present if and only if no later layer whites it out.
///
/// Let `f` be put by an event of layer `k` with no removal of `f` after it in
/// that layer, let no later layer put `f`, and let whiteouts of `f` itself be
/// all that removes `f` in later layers. Then `f` is present in the rendered
/// tree if and only if no layer after `k` holds a whiteout of `f`.
pub proof fn law_present_unless_whited_out(
    plans: Seq<PlanView>,
    start: Tree,
    k: int,
    i: int,
    f: Location,
)
    requires
        0 <= k < plans.len(),
        forall|m: int|
            0 <= m < plans.len() ==> (#[trigger] plans[m]).steps.len() == plans[m].entries.len(),
        0 <= i < timeline(plans[k], k).len(),
        puts(timeline(plans[k], k)[i], f),
        kept_after(timeline(plans[k], k), i, f),
        forall|m: int|
            k < m < plans.len() ==> not_put_after(timeline(#[trigger] plans[m], m), -1, f),
        forall|m: int, e: int|
            k < m < plans.len() && 0 <= e < timeline(plans[m], m).len() && removes(
                #[trigger] timeline(plans[m], m)[e],
                f,
            ) ==> whites_out(plans[m], e, f),
    ensures
        rendered(plans, start).dom().contains(f) <==> !exists|m: int, w: int|
            k < m < plans.len() && #[trigger] whites_out(plans[m], w, f),
{
    if exists|m: int, w: int| k < m < plans.len() && #[trigger] whites_out(plans[m], w, f) {
        let (m, w) = choose|m: int, w: int|
            k < m < plans.len() && #[trigger] whites_out(plans[m], w, f);
        lemma_whiteout_removes(plans[m], m, w, f);
        assert forall|x: int| m < x < plans.len() implies not_put_after(
            timeline(#[trigger] plans[x], x),
            -1,
            f,
        ) by {}
        assert(not_put_after(timeline(plans[m], m), -1, f));
        law_whiteout_hides(plans, start, m, w, f);
    } else {
        assert forall|m: int| k < m < plans.len() implies kept_after(
            timeline(#[trigger] plans[m], m),
            -1,
            f,
        ) by {
            assert forall|e: int| -1 < e < timeline(plans[m], m).len() implies !removes(
                #[trigger] timeline(plans[m], m)[e],
                f,
            ) by {
                if removes(timeline(plans[m], m)[e], f) {
                    assert(whites_out(plans[m], e, f));
                }
            }
        }
        law_unpacked_stays(plans, start, k, i, f);
    }
}

/// A name with `.wh.` before it is a whiteout name, and what it removes is
/// that name.
pub proof fn lemma_strip_one(name: Seq<u8>)
    ensures
        is_whiteout_name(whiteout_prefix() + name),
        strip_whiteout(whiteout_prefix() + name) == name,
{
    let marked = whiteout_prefix() + name;
    assert(whiteout_prefix() =~= marked.subrange(0, 4));
    assert(marked.skip(4) =~= name);
}

/// Which entries white a location out: entry `w` of a plan is a whiteout of
/// `f` if and only if it is no directory, its path does not climb, it lies in
/// the directory of `f`, and its name is `.wh.` followed by the name of `f`,
/// which is a plain name; the marker of an opaque directory is no whiteout.
pub proof fn law_whiteout_names_file(plan: PlanView, w: int, f: Location)
    requires
        steps_match(plan.entries, plan),
        0 <= w < plan.entries.len(),
        f.len() > 0,
    ensures
        whites_out(plan, w, f) <==> {
            &&& !plan.entries[w].is_dir
            &&& !climbs(plan.entries[w].path)
            &&& basename(plan.entries[w].path) == Some(whiteout_prefix() + f.last())
            &&& whiteout_prefix() + f.last() != opaque_marker()
            &&& plain_name(f.last())
            &&& components(dirname(plan.entries[w].path)) == f.drop_last()
        },
{
    let e = plan.entries[w];
    let marked = whiteout_prefix() + f.last();
    lemma_strip_one(f.last());
    assert(plan.steps[w] == step_of(e, plan.steps[w] is Extract));
    if whites_out(plan, w, f) {
        let m = basename(e.path).unwrap();
        let name = strip_whiteout(m);
        assert(components(dirname(e.path)).push(name) == f);
        assert(f.last() == name);
        assert(f.drop_last() =~= components(dirname(e.path)));
        assert(whiteout_prefix() =~= m.subrange(0, 4));
        assert(m =~= whiteout_prefix() + m.skip(4));
    }
    if !e.is_dir && !climbs(e.path) && basename(e.path) == Some(marked) && marked
        != opaque_marker() && plain_name(f.last()) && components(dirname(e.path))
        == f.drop_last() {
        assert(f.drop_last().push(f.last()) =~= f);
    }
}

/// An entry that is extracted is unpacked at the location of its components,
/// as the entry it is, and every directory on the way comes to be with it.
pub proof fn law_extract_puts(plan: PlanView, layer: int, i: int, f: Location)
    requires
        steps_match(plan.entries, plan),
        0 <= i < plan.entries.len(),
        plan.steps[i] is Extract,
        f.len() > 0,
        f.is_prefix_of(components(plan.entries[i].path)),
    ensures
        puts(timeline(plan, layer)[i], f),
        writes(timeline(plan, layer)[i], components(plan.entries[i].path)),
        timeline(plan, layer)[i] matches Event::Put { at, origin } && origin == (Origin {
            layer,
            entry: i,
        }),
{
    let e = plan.entries[i];
    assert(timeline(plan, layer)[i] == event_of(e, plan.steps[i], Origin { layer, entry: i }));
    assert(plan.steps[i] == step_of(e, plan.steps[i] is Extract));
    lemma_climbs(e.path);
}

/// A directory is put when its turn comes after the other entries: where the
/// path of a deferred directory has components, some event after the steps
/// of the archive unpacks it there, as the entry it is, with every directory
/// on the way.
pub proof fn law_directory_puts(plan: PlanView, layer: int, d: int, f: Location) -> (at: int)
    requires
        is_plan(plan.entries, plan),
        0 <= d < plan.entries.len(),
        deferred(plan.entries[d]),
        f.len() > 0,
        f.is_prefix_of(components(plan.entries[d].path)),
    ensures
        plan.entries.len() <= at < timeline(plan, layer).len(),
        puts(timeline(plan, layer)[at], f),
        writes(timeline(plan, layer)[at], components(plan.entries[d].path)),
        timeline(plan, layer)[at] matches Event::Put { at: _, origin } && origin == (Origin {
            layer,
            entry: d,
        }),
{
    assert(plan.directories.contains(d));
    let k = choose|k: int| 0 <= k < plan.directories.len() && plan.directories[k] == d;
    let at = plan.entries.len() + k;
    assert(timeline(plan, layer)[at] == unpacking(
        plan.entries[plan.directories[k]].path,
        Origin { layer, entry: plan.directories[k] },
    ));
    lemma_climbs(plan.entries[d].path);
    at
}

/// No step leaves the target: every event of a plan touches only locations
/// below the target, and removes only what a plain name names.
pub proof fn law_steps_stay_below(plan: PlanView, layer: int, i: int)
    requires
        steps_match(plan.entries, plan),
        forall|k: int|
            0 <= k < plan.directories.len() ==> 0 <= #[trigger] plan.directories[k]
                < plan.entries.len(),
        0 <= i < timeline(plan, layer).len(),
    ensures
        regular(timeline(plan, layer)[i]),
{
    let n = plan.entries.len() as int;
    if i < n {
        let e = plan.entries[i];
        assert(timeline(plan, layer)[i] == event_of(e, plan.steps[i], Origin { layer, entry: i }));
        assert(plan.steps[i] == step_of(e, plan.steps[i] is Extract));
        match plan.steps[i] {
            StepView::Whiteout { dir, name, marker } => {
                lemma_dirname_stays(e.path);
                lemma_climbs(dir);
                lemma_basename_plain(e.path);
                lemma_no_climb_pushed(components(dir), name);
                lemma_no_climb_pushed(components(dir), marker);
            },
            StepView::Opaque { dir } => {
                lemma_dirname_stays(e.path);
                lemma_climbs(dir);
            },
            _ => {},
        }
    } else {
        let k = i - n;
        assert(timeline(plan, layer)[i] == unpacking(
            plan.entries[plan.directories[k]].path,
            Origin { layer, entry: plan.directories[k] },
        ));
    }
}

/// A location that holds no `..` holds none with a plain name after it.
proof fn lemma_no_climb_pushed(at: Location, name: Seq<u8>)
    requires
        !at.contains(dot_dot()),
        plain_name(name),
    ensures
        !at.push(name).contains(dot_dot()),
        at.push(name).last() == name,
{
    let all = at.push(name);
    if all.contains(dot_dot()) {
        let i = choose|i: int| 0 <= i < all.len() && all[i] == dot_dot();
        if i < at.len() {
            assert(at[i] == dot_dot());
        }
    }
}

} // verus!
