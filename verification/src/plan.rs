//! The plan for one layer: what is done for each entry of its archive, and in
//! which order its directories are applied once the other entries are done.

use vstd::prelude::*;
use crate::bytes::{bytes_less, copy_range, lemma_lex_total, lemma_lex_transitive, lex_less};
use crate::path::{
    basename, climbs, dirname, dot_dot, is_climbing, lemma_basename_plain, plain_name, split, DOT,
};

verus! {

/// What the plan reads of one entry of an archive.
#[derive(Debug, Clone)]
pub struct ArchiveEntry {
    /// The path of the entry, as the archive gives it.
    pub path: Vec<u8>,
    /// Whether the entry is a directory.
    pub is_dir: bool,
}

/// An `ArchiveEntry` as a mathematical value.
pub struct EntryView {
    pub path: Seq<u8>,
    pub is_dir: bool,
}

impl View for ArchiveEntry {
    type V = EntryView;

    open spec fn view(&self) -> EntryView {
        EntryView { path: self.path@, is_dir: self.is_dir }
    }
}

/// The entries of a vector as mathematical values.
pub open spec fn entry_views(entries: Seq<ArchiveEntry>) -> Seq<EntryView> {
    Seq::new(entries.len(), |i: int| entries[i]@)
}

/// What is done for one entry when its turn comes in the archive.
#[derive(Debug, Clone)]
pub enum Step {
    /// Nothing is done.
    Skip,
    /// The entry is unpacked into the target directory.
    Extract,
    /// The entry is a directory: it is unpacked after the other entries.
    Defer,
    /// The entry is a whiteout: `name` in the directory `dir` is removed with
    /// all below it, and so is `marker`, the name of the whiteout itself.
    Whiteout { dir: Vec<u8>, name: Vec<u8>, marker: Vec<u8> },
    /// The entry marks the directory `dir` as opaque: all that lies in it is
    /// removed.
    Opaque { dir: Vec<u8> },
}

/// A `Step` as a mathematical value.
pub enum StepView {
    Skip,
    Extract,
    Defer,
    Whiteout { dir: Seq<u8>, name: Seq<u8>, marker: Seq<u8> },
    Opaque { dir: Seq<u8> },
}

impl View for Step {
    type V = StepView;

    open spec fn view(&self) -> StepView {
        match self {
            Step::Skip => StepView::Skip,
            Step::Extract => StepView::Extract,
            Step::Defer => StepView::Defer,
            Step::Whiteout { dir, name, marker } => StepView::Whiteout {
                dir: dir@,
                name: name@,
                marker: marker@,
            },
            Step::Opaque { dir } => StepView::Opaque { dir: dir@ },
        }
    }
}

/// The plan for one layer.
#[derive(Debug, Clone)]
pub struct LayerPlan {
    /// The archive of the layer, decompressed.
    pub archive: Vec<u8>,
    /// The entries of the archive, in its order.
    pub entries: Vec<ArchiveEntry>,
    /// One step for each entry, in the same order.
    pub steps: Vec<Step>,
    /// The entries that are directories, by their index in the archive, in the
    /// order in which they are unpacked after all steps are done.
    pub directories: Vec<usize>,
}

/// A `LayerPlan` as a mathematical value.
pub struct PlanView {
    pub archive: Seq<u8>,
    pub entries: Seq<EntryView>,
    pub steps: Seq<StepView>,
    pub directories: Seq<int>,
}

impl View for LayerPlan {
    type V = PlanView;

    open spec fn view(&self) -> PlanView {
        PlanView {
            archive: self.archive@,
            entries: entry_views(self.entries@),
            steps: Seq::new(self.steps@.len(), |i: int| self.steps@[i]@),
            directories: Seq::new(self.directories@.len(), |i: int| self.directories@[i] as int),
        }
    }
}

/// The prefix `.wh.` by which a name marks a whiteout.
pub open spec fn whiteout_prefix() -> Seq<u8> {
    seq![46u8, 119u8, 104u8, 46u8]
}

/// The name `.wh..wh..opq`, which marks its directory as opaque.
pub open spec fn opaque_marker() -> Seq<u8> {
    seq![46u8, 119u8, 104u8, 46u8, 46u8, 119u8, 104u8, 46u8, 46u8, 111u8, 112u8, 113u8]
}

/// Whether `name` is the name of a whiteout: it starts with `.wh.`.
pub open spec fn is_whiteout_name(name: Seq<u8>) -> bool {
    whiteout_prefix().is_prefix_of(name)
}

/// The name that a whiteout removes: `name` without the `.wh.` that starts
/// it.
pub open spec fn strip_whiteout(name: Seq<u8>) -> Seq<u8> {
    if is_whiteout_name(name) {
        name.skip(4)
    } else {
        name
    }
}

/// Whether an entry is a directory that is applied after the other entries:
/// it is a directory, and its path does not climb.
pub open spec fn deferred(e: EntryView) -> bool {
    e.is_dir && !climbs(e.path)
}

/// Whether the caller's predicate is asked about the entry: its path does
/// not climb, it is no directory, it ends in a name, and the name marks
/// nothing.
pub open spec fn is_candidate(e: EntryView) -> bool {
    !climbs(e.path) && !e.is_dir && (basename(e.path) matches Some(name) && !is_whiteout_name(
        name,
    ))
}

/// The step for an entry, given what the predicate said of its path where it
/// was asked.
///
/// Nothing is done for an entry whose path climbs with `..`, nor for a
/// whiteout that names nothing in its directory: one whose name, without its
/// `.wh.`, is empty, `.` or `..`. So every step stays below the target.
pub open spec fn step_of(e: EntryView, accepted: bool) -> StepView {
    if climbs(e.path) {
        StepView::Skip
    } else if e.is_dir {
        StepView::Defer
    } else {
        match basename(e.path) {
            None => StepView::Skip,
            Some(name) => {
                if name == opaque_marker() {
                    StepView::Opaque { dir: dirname(e.path) }
                } else if is_whiteout_name(name) {
                    if plain_name(strip_whiteout(name)) {
                        StepView::Whiteout {
                            dir: dirname(e.path),
                            name: strip_whiteout(name),
                            marker: name,
                        }
                    } else {
                        StepView::Skip
                    }
                } else if accepted {
                    StepView::Extract
                } else {
                    StepView::Skip
                }
            },
        }
    }
}

/// Whether directory `i` is applied before directory `j`: its path is the
/// greater one, or the paths are equal and it stands first in the archive.
pub open spec fn applies_before(entries: Seq<EntryView>, i: int, j: int) -> bool {
    lex_less(entries[j].path, entries[i].path) || (entries[i].path == entries[j].path && i < j)
}

/// Whether `order` lists the deferred directories among the first `n`
/// entries, each once, by descending path, those of equal path as they stand
/// in the archive.
pub open spec fn orders_directories(entries: Seq<EntryView>, n: int, order: Seq<int>) -> bool {
    &&& forall|k: int|
        0 <= k < order.len() ==> 0 <= #[trigger] order[k] < n && deferred(entries[order[k]])
    &&& forall|i: int| 0 <= i < n && deferred(#[trigger] entries[i]) ==> order.contains(i)
    &&& forall|a: int, b: int|
        0 <= a < b < order.len() ==> applies_before(entries, #[trigger] order[a], #[trigger] order[b])
}

/// Whether `plan` holds `entries` and, for each, the step that `step_of`
/// gives, with the predicate's answer read off the step.
pub open spec fn steps_match(entries: Seq<EntryView>, plan: PlanView) -> bool {
    &&& plan.entries == entries
    &&& plan.steps.len() == entries.len()
    &&& forall|i: int|
        0 <= i < entries.len() ==> #[trigger] plan.steps[i] == step_of(
            entries[i],
            plan.steps[i] is Extract,
        )
}

/// Whether `plan` is the plan for the entries of a whole archive: its steps
/// are theirs, and the deferred directories are listed in the order in which
/// they are applied.
pub open spec fn is_plan(entries: Seq<EntryView>, plan: PlanView) -> bool {
    &&& steps_match(entries, plan)
    &&& orders_directories(entries, entries.len() as int, plan.directories)
}

/// Whether `plan` is the plan for the entries that were read of an archive
/// before it broke: its steps are theirs, and no directory is applied.
pub open spec fn is_cut_plan(entries: Seq<EntryView>, plan: PlanView) -> bool {
    &&& steps_match(entries, plan)
    &&& plan.directories.len() == 0
}

/// Whether every step of the plan stays below the target: nothing is
/// unpacked or deferred at a path that climbs, and every removal names a
/// plain name in a directory that does not climb.
pub open spec fn confined(plan: PlanView) -> bool {
    forall|i: int|
        0 <= i < plan.steps.len() ==> match #[trigger] plan.steps[i] {
            StepView::Skip => true,
            StepView::Extract => !climbs(plan.entries[i].path),
            StepView::Defer => !climbs(plan.entries[i].path),
            StepView::Whiteout { dir, name, marker } => !climbs(dir) && plain_name(name)
                && plain_name(marker),
            StepView::Opaque { dir } => !climbs(dir),
        }
}

/// A directory does not climb where a path in it does not.
pub proof fn lemma_dirname_stays(p: Seq<u8>)
    requires
        !climbs(p),
    ensures
        !climbs(dirname(p)),
{
    crate::path::lemma_trim_end(p);
    let t = crate::path::trim_end(p);
    if t.len() > 0 {
        crate::path::lemma_name_start(t);
        let head = t.subrange(0, crate::path::name_start(t));
        lemma_climbs_trimmed(head);
    }
}

/// Trimming a path does not change whether it climbs.
pub proof fn lemma_climbs_trimmed(p: Seq<u8>)
    ensures
        climbs(crate::path::trim_end(p)) == climbs(p),
{
    crate::path::lemma_trim_end(p);
}

/// Every plan stays below the target: the steps that `step_of` gives are
/// confined.
pub proof fn law_plan_confined(entries: Seq<EntryView>, plan: PlanView)
    requires
        steps_match(entries, plan),
    ensures
        confined(plan),
{
    assert forall|i: int| 0 <= i < plan.steps.len() implies match #[trigger] plan.steps[i] {
        StepView::Skip => true,
        StepView::Extract => !climbs(plan.entries[i].path),
        StepView::Defer => !climbs(plan.entries[i].path),
        StepView::Whiteout { dir, name, marker } => !climbs(dir) && plain_name(name)
            && plain_name(marker),
        StepView::Opaque { dir } => !climbs(dir),
    } by {
        let e = entries[i];
        assert(plan.steps[i] == step_of(e, plan.steps[i] is Extract));
        if !climbs(e.path) {
            lemma_dirname_stays(e.path);
            lemma_basename_plain(e.path);
        }
    }
}

/// The answers of the predicate that a plan records: for each entry, whether
/// it is extracted.
pub open spec fn verdicts(plan: PlanView) -> Seq<bool> {
    Seq::new(plan.steps.len(), |i: int| plan.steps[i] is Extract)
}

/// Of two directories of different index exactly one is applied before the
/// other.
pub proof fn lemma_applies_before_total(entries: Seq<EntryView>, i: int, j: int)
    requires
        i != j,
    ensures
        applies_before(entries, i, j) <==> !applies_before(entries, j, i),
{
    lemma_lex_total(entries[i].path, entries[j].path);
}

/// Only one order lists the directories as `orders_directories` asks.
pub proof fn lemma_directory_order_unique(
    entries: Seq<EntryView>,
    n: int,
    first: Seq<int>,
    second: Seq<int>,
)
    requires
        0 <= n <= entries.len(),
        orders_directories(entries, n, first),
        orders_directories(entries, n, second),
    ensures
        first == second,
    decreases first.len(),
{
    if first.len() == 0 {
        if second.len() > 0 {
            assert(first.contains(second[0]));
        }
    } else if second.len() == 0 {
        assert(second.contains(first[0]));
    } else {
        // The heads agree: each is applied before all else in its order.
        let x = first[0];
        let y = second[0];
        if x != y {
            assert(second.contains(x));
            let a = choose|a: int| 0 <= a < second.len() && second[a] == x;
            assert(applies_before(entries, second[0], second[a]));
            assert(first.contains(y));
            let b = choose|b: int| 0 <= b < first.len() && first[b] == y;
            assert(applies_before(entries, first[0], first[b]));
            lemma_applies_before_total(entries, x, y);
        }
        // The tails order the directories other than the head.
        let rest = entries.update(x, EntryView { path: entries[x].path, is_dir: false });
        let f = first.drop_first();
        let s = second.drop_first();
        lemma_tail_orders(entries, n, first);
        lemma_tail_orders(entries, n, second);
        lemma_directory_order_unique(rest, n, f, s);
        assert(first =~= seq![x] + f);
        assert(second =~= seq![y] + s);
    }
}

/// Without its head, an order lists the directories other than that head.
proof fn lemma_tail_orders(entries: Seq<EntryView>, n: int, order: Seq<int>)
    requires
        0 <= n <= entries.len(),
        orders_directories(entries, n, order),
        order.len() > 0,
    ensures
        orders_directories(
            entries.update(order[0], EntryView { path: entries[order[0]].path, is_dir: false }),
            n,
            order.drop_first(),
        ),
{
    let x = order[0];
    let rest = entries.update(x, EntryView { path: entries[x].path, is_dir: false });
    let tail = order.drop_first();
    assert forall|k: int| 0 <= k < tail.len() implies 0 <= #[trigger] tail[k] < n && deferred(
        rest[tail[k]],
    ) by {
        assert(tail[k] == order[k + 1]);
        assert(applies_before(entries, order[0], order[k + 1]));
        lemma_lex_total(entries[x].path, entries[order[k + 1]].path);
    }
    assert forall|i: int| 0 <= i < n && deferred(#[trigger] rest[i]) implies tail.contains(i) by {
        assert(deferred(entries[i]));
        assert(order.contains(i));
        let a = choose|a: int| 0 <= a < order.len() && order[a] == i;
        assert(tail[a - 1] == i);
    }
    assert forall|a: int, b: int| 0 <= a < b < tail.len() implies applies_before(
        rest,
        #[trigger] tail[a],
        #[trigger] tail[b],
    ) by {
        assert(tail[a] == order[a + 1]);
        assert(tail[b] == order[b + 1]);
        assert(applies_before(entries, order[a + 1], order[b + 1]));
    }
}

/// Only one plan is the plan for given entries and answers of the predicate.
pub proof fn law_plan_unique(entries: Seq<EntryView>, first: PlanView, second: PlanView)
    requires
        is_plan(entries, first),
        is_plan(entries, second),
        first.archive == second.archive,
        verdicts(first) == verdicts(second),
    ensures
        first == second,
{
    assert forall|i: int| 0 <= i < entries.len() implies first.steps[i] == second.steps[i] by {
        assert(verdicts(first)[i] == (first.steps[i] is Extract));
        assert(verdicts(second)[i] == (second.steps[i] is Extract));
    }
    assert(first.steps =~= second.steps);
    lemma_directory_order_unique(
        entries,
        entries.len() as int,
        first.directories,
        second.directories,
    );
}

/// Whether `name` is the name of a whiteout.
pub fn is_whiteout(name: &Vec<u8>) -> (r: bool)
    ensures
        r == is_whiteout_name(name@),
{
    if name.len() < 4 {
        return false;
    }
    let r = name[0] == 46 && name[1] == 119 && name[2] == 104 && name[3] == 46;
    proof {
        let head = name@.subrange(0, 4);
        assert(head[0] == name@[0] && head[1] == name@[1] && head[2] == name@[2] && head[3]
            == name@[3]);
        if r {
            assert(whiteout_prefix() =~= head);
        } else {
            assert(whiteout_prefix()[0] == 46 && whiteout_prefix()[1] == 119
                && whiteout_prefix()[2] == 104 && whiteout_prefix()[3] == 46);
        }
    }
    r
}

/// Whether `name` is the marker of an opaque directory.
pub fn is_opaque_marker(name: &Vec<u8>) -> (r: bool)
    ensures
        r == (name@ == opaque_marker()),
{
    if name.len() != 12 {
        return false;
    }
    let r = name[0] == 46 && name[1] == 119 && name[2] == 104 && name[3] == 46 && name[4] == 46
        && name[5] == 119 && name[6] == 104 && name[7] == 46 && name[8] == 46 && name[9] == 111
        && name[10] == 112 && name[11] == 113;
    proof {
        let m = opaque_marker();
        if r {
            assert(name@ =~= m);
        } else {
            assert(m[0] == 46 && m[1] == 119 && m[2] == 104 && m[3] == 46 && m[4] == 46 && m[5]
                == 119 && m[6] == 104 && m[7] == 46 && m[8] == 46 && m[9] == 111 && m[10] == 112
                && m[11] == 113);
        }
    }
    r
}

/// The name that the whiteout `name` removes.
pub fn whiteout_target(name: &Vec<u8>) -> (r: Vec<u8>)
    ensures
        r@ == strip_whiteout(name@),
{
    if is_whiteout(name) {
        assert(name@.skip(4) =~= name@.subrange(4, name@.len() as int));
        copy_range(name, 4, name.len())
    } else {
        assert(name@.subrange(0, name@.len() as int) =~= name@);
        copy_range(name, 0, name.len())
    }
}

/// Whether `name` can name an entry of a directory, given that it holds no
/// separator: it is not empty, not `.` and not `..`.
fn names_an_entry(name: &Vec<u8>) -> (r: bool)
    requires
        forall|i: int| 0 <= i < name@.len() ==> name@[i] != crate::path::SEP,
    ensures
        r == plain_name(name@),
{
    let n = name.len();
    let dot = n == 1 && name[0] == DOT;
    let dots = n == 2 && name[0] == DOT && name[1] == DOT;
    proof {
        if dot {
            assert(name@ =~= seq![DOT]);
        } else if name@ == seq![DOT] {
            assert(name@[0] == DOT);
        }
        if dots {
            assert(name@ =~= dot_dot());
        } else if name@ == dot_dot() {
            assert(name@[0] == DOT && name@[1] == DOT);
        }
    }
    n > 0 && !dot && !dots
}

/// Puts the directory `idx` at its place in `order`, which lists the
/// directories before it.
fn insert_directory(entries: &Vec<ArchiveEntry>, order: &mut Vec<usize>, idx: usize)
    requires
        idx < entries.len(),
        deferred(entries[idx as int]@),
        orders_directories(
            entry_views(entries@),
            idx as int,
            Seq::new(old(order)@.len(), |i: int| old(order)@[i] as int),
        ),
    ensures
        orders_directories(
            entry_views(entries@),
            idx + 1,
            Seq::new(final(order)@.len(), |i: int| final(order)@[i] as int),
        ),
{
    let ghost views = entry_views(entries@);
    let ghost before = Seq::new(order@.len(), |i: int| order@[i] as int);
    assert forall|k: int| 0 <= k < order.len() implies #[trigger] order@[k] < idx by {
        assert(before[k] < idx);
    }
    let mut pos: usize = 0;
    while pos < order.len() && !bytes_less(&entries[order[pos]].path, &entries[idx].path)
        invariant
            pos <= order.len(),
            idx < entries.len(),
            views == entry_views(entries@),
            before == Seq::new(order@.len(), |i: int| order@[i] as int),
            orders_directories(views, idx as int, before),
            forall|k: int| 0 <= k < order.len() ==> #[trigger] order@[k] < idx,
            forall|k: int| 0 <= k < pos ==> applies_before(views, #[trigger] before[k], idx as int),
        decreases order.len() - pos,
    {
        proof {
            let at = before[pos as int];
            assert(at < idx);
            lemma_lex_total(views[at].path, views[idx as int].path);
        }
        pos = pos + 1;
    }
    order.insert(pos, idx);
    proof {
        let after = Seq::new(order@.len(), |i: int| order@[i] as int);
        assert(after =~= before.insert(pos as int, idx as int));
        assert forall|k: int| 0 <= k < after.len() implies 0 <= #[trigger] after[k] < idx + 1
            && deferred(views[after[k]]) by {
            if k < pos {
                assert(after[k] == before[k]);
            } else if k > pos {
                assert(after[k] == before[k - 1]);
            }
        }
        assert forall|i: int| 0 <= i < idx + 1 && deferred(#[trigger] views[i]) implies after.contains(
            i,
        ) by {
            if i == idx {
                assert(after[pos as int] == i);
            } else {
                assert(before.contains(i));
                let a = choose|a: int| 0 <= a < before.len() && before[a] == i;
                if a < pos {
                    assert(after[a] == i);
                } else {
                    assert(after[a + 1] == i);
                }
            }
        }
        assert forall|a: int, b: int| 0 <= a < b < after.len() implies applies_before(
            views,
            #[trigger] after[a],
            #[trigger] after[b],
        ) by {
            if b < pos {
                assert(after[a] == before[a] && after[b] == before[b]);
            } else if b == pos {
                assert(after[a] == before[a]);
            } else if a == pos {
                // What follows the new directory has a smaller path than it:
                // the directory found at `pos` has, and the rest come after that one.
                let head = before[pos as int];
                assert(after[b] == before[b - 1]);
                assert(lex_less(views[head].path, views[idx as int].path));
                if b - 1 > pos {
                    assert(applies_before(views, before[pos as int], before[b - 1]));
                    lemma_lex_total(views[before[b - 1]].path, views[head].path);
                    if lex_less(views[before[b - 1]].path, views[head].path) {
                        lemma_lex_transitive(
                            views[before[b - 1]].path,
                            views[head].path,
                            views[idx as int].path,
                        );
                    }
                }
            } else if a < pos {
                assert(after[a] == before[a] && after[b] == before[b - 1]);
            } else {
                assert(after[a] == before[a - 1] && after[b] == before[b - 1]);
            }
        }
    }
}

/// Whether the steps of `plan` record what `predicate` answered: each entry
/// about which it is asked is extracted where it said yes, and skipped where
/// it said no.
pub open spec fn follows<P: Fn(&Vec<u8>) -> bool>(plan: &LayerPlan, predicate: &P) -> bool {
    forall|i: int|
        0 <= i < plan.entries.len() && is_candidate(#[trigger] plan.entries[i]@)
            ==> predicate.ensures((&plan.entries[i].path,), plan.steps[i] is Extract)
}

/// Whether `plan` extracts every entry that can be extracted.
pub open spec fn extracts_all(plan: PlanView) -> bool {
    forall|i: int|
        0 <= i < plan.entries.len() && is_candidate(#[trigger] plan.entries[i])
            ==> plan.steps[i] is Extract
}

/// Plans one layer from the entries of its archive. The predicate is asked,
/// in the order of the archive, about the path of each entry that could be
/// extracted. Where the entries are those of a `whole` archive, its
/// directories are applied after them; where the archive broke after them,
/// no directory is.
pub fn plan_entries<P: Fn(&Vec<u8>) -> bool>(
    archive: Vec<u8>,
    entries: Vec<ArchiveEntry>,
    whole: bool,
    predicate: &P,
) -> (plan: LayerPlan)
    requires
        forall|p: &Vec<u8>| predicate.requires((p,)),
    ensures
        plan.archive@ == archive@,
        plan.entries@ == entries@,
        whole ==> is_plan(entry_views(entries@), plan@),
        !whole ==> is_cut_plan(entry_views(entries@), plan@),
        confined(plan@),
        follows(&plan, predicate),
{
    let ghost views = entry_views(entries@);
    let mut steps: Vec<Step> = Vec::new();
    let mut directories: Vec<usize> = Vec::new();
    let mut i: usize = 0;
    while i < entries.len()
        invariant
            i <= entries.len(),
            steps.len() == i,
            views == entry_views(entries@),
            forall|p: &Vec<u8>| predicate.requires((p,)),
            forall|j: int|
                0 <= j < i ==> (#[trigger] steps[j])@ == step_of(views[j], steps[j] is Extract),
            forall|j: int|
                0 <= j < i && is_candidate(#[trigger] entries[j]@) ==> predicate.ensures(
                    (&entries[j].path,),
                    steps[j] is Extract,
                ),
            orders_directories(
                views,
                i as int,
                Seq::new(directories@.len(), |k: int| directories@[k] as int),
            ),
        decreases entries.len() - i,
    {
        let entry = &entries[i];
        let climbing = is_climbing(&entry.path);
        let step = if !climbing && entry.is_dir {
            insert_directory(&entries, &mut directories, i);
            Step::Defer
        } else {
            proof {
                let order = Seq::new(directories@.len(), |k: int| directories@[k] as int);
                assert forall|j: int| 0 <= j < i + 1 && deferred(#[trigger] views[j]) implies order.contains(
                    j,
                ) by {}
            }
            if climbing {
                Step::Skip
            } else {
                match split(&entry.path) {
                    None => Step::Skip,
                    Some((dir, name)) => {
                        proof {
                            lemma_basename_plain(entry.path@);
                        }
                        if is_opaque_marker(&name) {
                            Step::Opaque { dir }
                        } else if is_whiteout(&name) {
                            let target = whiteout_target(&name);
                            assert forall|k: int| 0 <= k < target@.len() implies target@[k]
                                != crate::path::SEP by {
                                assert(target@[k] == name@[k + 4]);
                            }
                            if names_an_entry(&target) {
                                Step::Whiteout { dir, name: target, marker: name }
                            } else {
                                Step::Skip
                            }
                        } else if predicate(&entry.path) {
                            Step::Extract
                        } else {
                            Step::Skip
                        }
                    },
                }
            }
        };
        assert(step@ == step_of(views[i as int], step is Extract));
        steps.push(step);
        i = i + 1;
    }
    if !whole {
        directories = Vec::new();
    }
    let plan = LayerPlan { archive, entries, steps, directories };
    assert(plan@.steps.len() == views.len());
    assert forall|j: int| 0 <= j < views.len() implies #[trigger] plan@.steps[j] == step_of(
        views[j],
        plan@.steps[j] is Extract,
    ) by {
        assert(plan@.steps[j] == plan.steps@[j]@);
    }
    proof {
        law_plan_confined(views, plan@);
    }
    plan
}

} // verus!
