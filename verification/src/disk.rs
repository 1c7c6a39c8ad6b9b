//! A model of the disk, and what a copy achieves on every disk that behaves
//! like the model.
//!
//! The copier never touches the disk: it asks, and its caller acts. What
//! the copy achieves is therefore stated of runs: sequences of moments in
//! which each operation that the copier asked for was performed by a disk of
//! this model, and its outcome handed to the copier. An operation may fail at
//! any time; a failed operation changes nothing, but for the directories that
//! a creation made before it failed. Nothing but the copy changes the disk.
use crate::copier::{
    advance, entry_task, entry_tasks, is_failure, law_start_mirrors, law_step_mirrors, mirrors,
    start_spec, step_spec, tasks_mirror, went_well, ActionView, CopierView, EntryKind, ErrorView,
    EventView, Phase, TaskView,
};
use crate::path::{apart, below, lemma_above, lemma_below_entry, lemma_way, way};
use vstd::prelude::*;

verus! {

/// What stands at a path of the disk.
pub enum Node {
    File(Seq<u8>),
    Dir,
    Other,
}

/// The kind that an examination of `node` reports.
pub open spec fn kind_of(node: Node) -> EntryKind {
    match node {
        Node::File(_) => EntryKind::File,
        Node::Dir => EntryKind::Directory,
        Node::Other => EntryKind::Other,
    }
}

/// Whatever stands on the disk stands in directories: every path above an
/// entry, down from the first component, is a directory.
pub open spec fn tree_shaped(disk: Map<Seq<Seq<char>>, Node>) -> bool {
    forall|path: Seq<Seq<char>>, k: int|
        disk.contains_key(path) && 0 < k < path.len() ==> disk.contains_key(
            #[trigger] path.take(k),
        ) && disk[path.take(k)] is Dir
}

/// `disk` with a directory at each of the first `k` paths down to `path`
/// at which nothing stood.
pub open spec fn with_dirs(disk: Map<Seq<Seq<char>>, Node>, path: Seq<Seq<char>>, k: int) -> Map<
    Seq<Seq<char>>,
    Node,
> {
    Map::new(
        |q: Seq<Seq<char>>| disk.contains_key(q) || exists|j: int| 1 <= j <= k && q == path.take(j),
        |q: Seq<Seq<char>>|
            if disk.contains_key(q) {
                disk[q]
            } else {
                Node::Dir
            },
    )
}

/// Creating the directory `path` with its missing ancestors leads from `disk`
/// to `after`: the creation goes down from the first component through
/// directories, as far as it gets, and succeeds only where it reaches `path`.
pub open spec fn creates_dirs(
    disk: Map<Seq<Seq<char>>, Node>,
    path: Seq<Seq<char>>,
    ok: bool,
    after: Map<Seq<Seq<char>>, Node>,
) -> bool {
    exists|k: int|
        {
            &&& 0 <= k <= path.len()
            &&& #[trigger] with_dirs(disk, path, k) == after
            &&& forall|j: int|
                1 <= j <= k && disk.contains_key(#[trigger] path.take(j)) ==> disk[path.take(j)] is Dir
            &&& ok ==> k == path.len()
        }
}

/// `names` lists the directory `path` of `disk`: no entry of it is left out.
pub open spec fn lists(disk: Map<Seq<Seq<char>>, Node>, path: Seq<Seq<char>>, names: Seq<Seq<char>>) -> bool {
    &&& disk.contains_key(path)
    &&& disk[path] is Dir
    &&& forall|name: Seq<char>| disk.contains_key(#[trigger] path.push(name)) ==> names.contains(name)
}

/// The disk performs `action`, reports `event`, and is `after` afterwards.
pub open spec fn performs(
    disk: Map<Seq<Seq<char>>, Node>,
    action: ActionView,
    event: EventView,
    after: Map<Seq<Seq<char>>, Node>,
) -> bool {
    match action {
        ActionView::Finish(_) => after == disk,
        ActionView::Stat(path) => {
            &&& after == disk
            &&& event matches EventView::Kind(Ok(kind)) ==> disk.contains_key(path) && kind_of(
                disk[path],
            ) == kind
        },
        ActionView::ReadDir(path) => {
            &&& after == disk
            &&& event matches EventView::Entries(Ok(names)) ==> lists(disk, path, names)
        },
        ActionView::CreateDir(path) => creates_dirs(
            disk,
            path,
            went_well(event),
            after,
        ),
        ActionView::CreateParent(path) => if path.len() > 0 {
            creates_dirs(disk, path.drop_last(), went_well(event), after)
        } else {
            after == disk
        },
        ActionView::CopyFile(from, to) => if went_well(event) {
            &&& disk.contains_key(from)
            &&& disk[from] is File
            &&& after == disk.insert(to, disk[from])
        } else {
            after == disk
        },
    }
}

/// One moment of a copy: the copier, the operation it asked for, the disk.
pub struct Moment {
    pub copier: CopierView,
    pub action: ActionView,
    pub disk: Map<Seq<Seq<char>>, Node>,
}

/// From `now` the copy comes to `next`: the disk performs the operation that
/// was asked for, and the copier takes the outcome.
pub open spec fn follows(now: Moment, next: Moment) -> bool {
    exists|event: EventView| #[trigger]
        performs(now.disk, now.action, event, next.disk) && (next.copier, next.action)
            == step_spec(now.copier, event)
}

/// An event that leads from `now` to `next`, where one follows the other.
pub open spec fn event_between(now: Moment, next: Moment) -> EventView {
    choose|event: EventView| #[trigger]
        performs(now.disk, now.action, event, next.disk) && (next.copier, next.action)
            == step_spec(now.copier, event)
}

/// `moments` is a run of the copy of `src` to `dest` that begins on `disk`.
pub open spec fn is_run(
    src: Seq<Seq<char>>,
    dest: Seq<Seq<char>>,
    disk: Map<Seq<Seq<char>>, Node>,
    moments: Seq<Moment>,
) -> bool {
    &&& moments.len() > 0
    &&& moments[0] == Moment {
        copier: start_spec(src, dest).0,
        action: start_spec(src, dest).1,
        disk,
    }
    &&& forall|i: int| 0 <= i < moments.len() - 1 ==> follows(#[trigger] moments[i], moments[i + 1])
}

/// The entry that stood on `before` the way `rel` down from `src` stands on
/// `disk` the same way down from `dest`: a file with the same bytes, or a
/// directory.
pub open spec fn mirrored(
    disk: Map<Seq<Seq<char>>, Node>,
    before: Map<Seq<Seq<char>>, Node>,
    src: Seq<Seq<char>>,
    dest: Seq<Seq<char>>,
    rel: Seq<Seq<char>>,
) -> bool {
    &&& before.contains_key(src + rel)
    &&& disk.contains_key(dest + rel)
    &&& match before[src + rel] {
        Node::File(bytes) => disk[dest + rel] == Node::File(bytes),
        Node::Dir => disk[dest + rel] is Dir,
        Node::Other => false,
    }
}

/// Nothing at or above a destination path lies below the source root.
pub proof fn lemma_outside_source(
    src: Seq<Seq<char>>,
    dest: Seq<Seq<char>>,
    target: Seq<Seq<char>>,
    path: Seq<Seq<char>>,
)
    requires
        apart(src, dest),
        below(dest, target),
        below(path, target),
    ensures
        !below(src, path),
{
    if below(src, path) {
        lemma_above(src, path, target);
        lemma_above(src, dest, target);
    }
}

/// A creation of directories keeps every entry as it is, adds nothing but
/// directories on the way down to its path, and where it succeeds the path
/// is a directory.
pub proof fn lemma_creates_dirs(
    disk: Map<Seq<Seq<char>>, Node>,
    path: Seq<Seq<char>>,
    ok: bool,
    after: Map<Seq<Seq<char>>, Node>,
)
    requires
        creates_dirs(disk, path, ok, after),
    ensures
        forall|q: Seq<Seq<char>>| #[trigger]
            disk.contains_key(q) ==> after.contains_key(q) && after[q] == disk[q],
        forall|q: Seq<Seq<char>>| #[trigger]
            after.contains_key(q) && !disk.contains_key(q) ==> after[q] is Dir && below(q, path)
                && q.len() > 0,
        ok && path.len() > 0 ==> after.contains_key(path) && after[path] is Dir,
{
    let k = choose|k: int|
        {
            &&& 0 <= k <= path.len()
            &&& #[trigger] with_dirs(disk, path, k) == after
            &&& forall|j: int|
                1 <= j <= k && disk.contains_key(#[trigger] path.take(j)) ==> disk[path.take(j)] is Dir
            &&& ok ==> k == path.len()
        };
    lemma_above(path, path, path);
    assert forall|q: Seq<Seq<char>>| #[trigger]
        after.contains_key(q) && !disk.contains_key(q) implies after[q] is Dir && below(q, path)
        && q.len() > 0 by {
        let j = choose|j: int| 1 <= j <= k && q == path.take(j);
        assert(below(path.take(j), path));
    }
    if ok && path.len() > 0 {
        assert(path.take(path.len() as int) =~= path);
        assert(1 <= k <= k && path == path.take(k));
        assert(after.contains_key(path));
    }
}

/// The operation that a copier waits for.
pub open spec fn awaited(copier: CopierView) -> ActionView {
    match copier {
        CopierView::Finished { result } => ActionView::Finish(result),
        CopierView::Working { phase, current, .. } => match phase {
            Phase::Stat => ActionView::Stat(current.src),
            Phase::Parent => ActionView::CreateParent(current.dest),
            Phase::Copy => ActionView::CopyFile(current.src, current.dest),
            Phase::Dir => ActionView::CreateDir(current.dest),
            Phase::List => ActionView::ReadDir(current.src),
        },
    }
}

/// `disk` holds at `path` what `before` held there.
pub open spec fn agrees(
    disk: Map<Seq<Seq<char>>, Node>,
    before: Map<Seq<Seq<char>>, Node>,
    path: Seq<Seq<char>>,
) -> bool {
    &&& disk.contains_key(path) == before.contains_key(path)
    &&& before.contains_key(path) ==> disk[path] == before[path]
}

/// At and below `src`, `disk` is as `before` was: the source is not written to.
pub open spec fn source_kept(
    disk: Map<Seq<Seq<char>>, Node>,
    before: Map<Seq<Seq<char>>, Node>,
    src: Seq<Seq<char>>,
) -> bool {
    forall|path: Seq<Seq<char>>| #[trigger] below(src, path) ==> agrees(disk, before, path)
}

/// `path` is the source of `task` or lies below it.
pub open spec fn task_covers(task: TaskView, path: Seq<Seq<char>>) -> bool {
    below(task.src, path)
}

/// One of the tasks `waiting` covers `path`.
pub open spec fn waiting_covers(waiting: Seq<TaskView>, path: Seq<Seq<char>>) -> bool {
    exists|i: int| 0 <= i < waiting.len() && task_covers(#[trigger] waiting[i], path)
}

/// A task that the copier holds covers `path`: the path is still to be copied.
pub open spec fn covered(copier: CopierView, path: Seq<Seq<char>>) -> bool {
    match copier {
        CopierView::Working { current, waiting, .. } => task_covers(current, path)
            || waiting_covers(waiting, path),
        CopierView::Finished { .. } => false,
    }
}

/// The entry at `path` is copied already, or a task covers it.
pub open spec fn accounted(
    copier: CopierView,
    disk: Map<Seq<Seq<char>>, Node>,
    before: Map<Seq<Seq<char>>, Node>,
    src: Seq<Seq<char>>,
    dest: Seq<Seq<char>>,
    path: Seq<Seq<char>>,
) -> bool {
    mirrored(disk, before, src, dest, way(src, path)) || covered(copier, path)
}

/// Every entry at or below `src` is copied already or covered by a task.
pub open spec fn all_accounted(
    copier: CopierView,
    disk: Map<Seq<Seq<char>>, Node>,
    before: Map<Seq<Seq<char>>, Node>,
    src: Seq<Seq<char>>,
    dest: Seq<Seq<char>>,
) -> bool {
    forall|path: Seq<Seq<char>>|
        below(src, path) && before.contains_key(path) ==> #[trigger] accounted(
            copier,
            disk,
            before,
            src,
            dest,
            path,
        )
}

/// What the copier has learnt of its current task by the phase it is in.
pub open spec fn phase_facts(
    copier: CopierView,
    disk: Map<Seq<Seq<char>>, Node>,
    before: Map<Seq<Seq<char>>, Node>,
) -> bool {
    copier matches CopierView::Working { phase, current, .. } ==> {
        &&& phase == Phase::Parent || phase == Phase::Copy ==> before.contains_key(current.src)
            && before[current.src] is File
        &&& phase == Phase::Dir || phase == Phase::List ==> before.contains_key(current.src)
            && before[current.src] is Dir
        &&& phase == Phase::List ==> disk.contains_key(current.dest) && disk[current.dest] is Dir
    }
}

/// The copy has ended with an error.
pub open spec fn failed(copier: CopierView) -> bool {
    copier matches CopierView::Finished { result: Err(_) }
}

/// What holds at every moment of a run that began on `before`: the tasks
/// mirror the roots, the action is the one waited for, the source is kept,
/// and the copier knows of its current task what its phase relies on.
pub open spec fn steady(
    moment: Moment,
    before: Map<Seq<Seq<char>>, Node>,
    src: Seq<Seq<char>>,
    dest: Seq<Seq<char>>,
) -> bool {
    &&& tasks_mirror(src, dest, moment.copier)
    &&& moment.action == awaited(moment.copier)
    &&& source_kept(moment.disk, before, src)
    &&& phase_facts(moment.copier, moment.disk, before)
}

/// What holds at every moment of a run on a disk where everything stands in
/// directories: beyond what is steady, every entry is copied or covered
/// until the copy fails.
pub open spec fn sound(
    moment: Moment,
    before: Map<Seq<Seq<char>>, Node>,
    src: Seq<Seq<char>>,
    dest: Seq<Seq<char>>,
) -> bool {
    &&& steady(moment, before, src, dest)
    &&& !failed(moment.copier) ==> all_accounted(moment.copier, moment.disk, before, src, dest)
}

/// The action of a step is the one that the copier then waits for.
pub proof fn lemma_awaited(copier: CopierView, event: EventView)
    ensures
        step_spec(copier, event).1 == awaited(step_spec(copier, event).0),
{
}

/// A step leaves the source as it was.
proof fn lemma_source_kept(
    now: Moment,
    event: EventView,
    after: Map<Seq<Seq<char>>, Node>,
    before: Map<Seq<Seq<char>>, Node>,
    src: Seq<Seq<char>>,
    dest: Seq<Seq<char>>,
)
    requires
        apart(src, dest),
        steady(now, before, src, dest),
        performs(now.disk, now.action, event, after),
    ensures
        source_kept(after, before, src),
{
    let disk = now.disk;
    assert forall|path: Seq<Seq<char>>| #[trigger] below(src, path) implies agrees(
        after,
        before,
        path,
    ) by {
        assert(agrees(disk, before, path));
        match now.copier {
            CopierView::Finished { .. } => {},
            CopierView::Working { phase, current, waiting } => {
                let target = current.dest;
                lemma_above(target, target, target);
                match phase {
                    Phase::Stat => {},
                    Phase::List => {},
                    Phase::Copy => {
                        if path == target {
                            lemma_outside_source(src, dest, target, path);
                        }
                    },
                    Phase::Dir => {
                        lemma_creates_dirs(disk, target, went_well(event), after);
                        if after.contains_key(path) && !disk.contains_key(path) {
                            lemma_outside_source(src, dest, target, path);
                        }
                    },
                    Phase::Parent => {
                        if target.len() > 0 {
                            let parent = target.drop_last();
                            lemma_creates_dirs(
                                disk,
                                parent,
                                went_well(event),
                                after,
                            );
                            if after.contains_key(path) && !disk.contains_key(path) {
                                assert(parent =~= target.take(target.len() - 1));
                                lemma_above(path, parent, target);
                                lemma_outside_source(src, dest, target, path);
                            }
                        }
                    },
                }
            },
        }
    }
}

/// What was copied stays copied: a step never changes an entry of the
/// destination that mirrors its source.
proof fn lemma_mirrored_kept(
    now: Moment,
    event: EventView,
    after: Map<Seq<Seq<char>>, Node>,
    before: Map<Seq<Seq<char>>, Node>,
    src: Seq<Seq<char>>,
    dest: Seq<Seq<char>>,
    rel: Seq<Seq<char>>,
)
    requires
        apart(src, dest),
        steady(now, before, src, dest),
        performs(now.disk, now.action, event, after),
        mirrored(now.disk, before, src, dest, rel),
    ensures
        mirrored(after, before, src, dest, rel),
{
    let disk = now.disk;
    let place = dest + rel;
    match now.copier {
        CopierView::Finished { .. } => {},
        CopierView::Working { phase, current, waiting } => {
            let target = current.dest;
            match phase {
                Phase::Stat => {},
                Phase::List => {},
                Phase::Copy => {
                    if place == target && went_well(event) {
                        lemma_way(dest, rel, target);
                        lemma_way(src, rel, current.src);
                        assert(src + rel == current.src);
                        assert(below(src, current.src));
                        assert(agrees(disk, before, current.src));
                    }
                },
                Phase::Dir => {
                    lemma_creates_dirs(disk, target, went_well(event), after);
                    assert(disk.contains_key(place));
                },
                Phase::Parent => {
                    if target.len() > 0 {
                        lemma_creates_dirs(
                            disk,
                            target.drop_last(),
                            went_well(event),
                            after,
                        );
                        assert(disk.contains_key(place));
                    }
                },
            }
        },
    }
}

/// A step teaches the copier what its next phase relies on.
proof fn lemma_phase_facts(
    now: Moment,
    event: EventView,
    after: Map<Seq<Seq<char>>, Node>,
    before: Map<Seq<Seq<char>>, Node>,
    src: Seq<Seq<char>>,
    dest: Seq<Seq<char>>,
)
    requires
        apart(src, dest),
        steady(now, before, src, dest),
        performs(now.disk, now.action, event, after),
    ensures
        phase_facts(step_spec(now.copier, event).0, after, before),
{
    let disk = now.disk;
    match now.copier {
        CopierView::Finished { .. } => {},
        CopierView::Working { phase, current, waiting } => {
            assert(below(src, current.src));
            assert(agrees(disk, before, current.src));
            if phase == Phase::Dir && went_well(event) {
                lemma_creates_dirs(disk, current.dest, true, after);
                lemma_above(dest, dest, dest);
                assert(dest.len() > 0) by {
                    if dest.len() == 0 {
                        assert(dest.subrange(0, 0) =~= dest);
                        assert(src.subrange(0, 0) =~= dest);
                    }
                }
            }
        },
    }
}

/// A task of the stack that covers a path is held by the copier that takes
/// up the stack.
proof fn lemma_advance_covers(stack: Seq<TaskView>, path: Seq<Seq<char>>, i: int)
    requires
        0 <= i < stack.len(),
        task_covers(stack[i], path),
    ensures
        covered(advance(stack).0, path),
{
    let next = advance(stack).0;
    let waiting = stack.drop_last();
    assert(next == CopierView::Working {
        phase: Phase::Stat,
        current: stack.last(),
        waiting,
    });
    if i < stack.len() - 1 {
        assert(waiting[i] == stack[i]);
        assert(0 <= i < waiting.len() && task_covers(waiting[i], path));
        assert(waiting_covers(waiting, path));
    } else {
        assert(stack.last() == stack[i]);
    }
}

/// Below a file nothing stands, and what stands below a directory stands in
/// one of its entries.
proof fn lemma_entry_on_the_way(
    before: Map<Seq<Seq<char>>, Node>,
    dir: Seq<Seq<char>>,
    path: Seq<Seq<char>>,
)
    requires
        tree_shaped(before),
        before.contains_key(path),
        below(dir, path),
        dir.len() > 0,
        dir != path,
    ensures
        before.contains_key(dir),
        before[dir] is Dir,
        dir.len() < path.len(),
        before.contains_key(dir.push(path[dir.len() as int])),
        below(dir.push(path[dir.len() as int]), path),
{
    let k = dir.len() as int;
    assert(dir =~= path.take(k));
    if k == path.len() {
        assert(path.take(k) =~= path);
    }
    assert(before.contains_key(path.take(k)));
    let entry = dir.push(path[k]);
    assert(entry =~= path.take(k + 1));
    if k + 1 < path.len() {
        assert(before.contains_key(path.take(k + 1)));
    } else {
        assert(path.take(k + 1) =~= path);
    }
    lemma_above(entry, entry, path);
}

/// After a step every entry of the source is copied or covered, as before it.
proof fn lemma_accounted(
    now: Moment,
    event: EventView,
    after: Map<Seq<Seq<char>>, Node>,
    before: Map<Seq<Seq<char>>, Node>,
    src: Seq<Seq<char>>,
    dest: Seq<Seq<char>>,
    path: Seq<Seq<char>>,
)
    requires
        tree_shaped(before),
        apart(src, dest),
        sound(now, before, src, dest),
        performs(now.disk, now.action, event, after),
        !failed(step_spec(now.copier, event).0),
        below(src, path),
        before.contains_key(path),
    ensures
        accounted(step_spec(now.copier, event).0, after, before, src, dest, path),
{
    let disk = now.disk;
    let next = step_spec(now.copier, event).0;
    let rel = way(src, path);
    lemma_way(src, rel, path);
    assert(!failed(now.copier));
    assert(accounted(now.copier, disk, before, src, dest, path));
    assert(src.len() > 0) by {
        if src.len() == 0 {
            assert(dest.subrange(0, 0) =~= src);
        }
    }
    if mirrored(disk, before, src, dest, rel) {
        lemma_mirrored_kept(now, event, after, before, src, dest, rel);
    } else {
        match now.copier {
            CopierView::Finished { .. } => {},
            CopierView::Working { phase, current, waiting } => {
                assert(below(src, current.src));
                assert(agrees(disk, before, current.src));
                lemma_way(src, rel, current.src);
                lemma_way(dest, rel, current.dest);
                let by_current = task_covers(current, path);
                let held = if by_current {
                    0
                } else {
                    choose|i: int| 0 <= i < waiting.len() && task_covers(#[trigger] waiting[i], path)
                };
                if phase == Phase::Copy && went_well(event) {
                    if by_current {
                        if current.src != path {
                            lemma_entry_on_the_way(before, current.src, path);
                        }
                        assert(src + rel == current.src);
                        assert(dest + rel == current.dest);
                        assert(mirrored(after, before, src, dest, rel));
                    } else {
                        lemma_advance_covers(waiting, path, held);
                    }
                } else if phase == Phase::List && event is Entries && event->Entries_0 is Ok {
                    let names = event->Entries_0->Ok_0;
                    let entries = entry_tasks(current, names);
                    let stack = waiting + entries;
                    if by_current {
                        if current.src == path {
                            assert(src + rel == current.src);
                            assert(dest + rel == current.dest);
                            assert(mirrored(after, before, src, dest, rel));
                        } else {
                            lemma_entry_on_the_way(before, current.src, path);
                            let name = path[current.src.len() as int];
                            let entry = current.src.push(name);
                            lemma_above(src, current.src, entry);
                            lemma_below_entry(src, current.src, name);
                            assert(below(src, entry));
                            assert(agrees(disk, before, entry));
                            assert(disk.contains_key(current.src.push(name)));
                            assert(names.contains(name));
                            let at = choose|at: int| 0 <= at < names.len() && names[at] == name;
                            let j = names.len() - 1 - at;
                            assert(entries[j] == entry_task(current, name));
                            assert(stack[waiting.len() + j] == entries[j]);
                            lemma_advance_covers(stack, path, waiting.len() + j);
                        }
                    } else {
                        assert(stack[held] == waiting[held]);
                        lemma_advance_covers(stack, path, held);
                    }
                } else {
                    assert(next matches CopierView::Working { current: c, waiting: w, .. } && c
                        == current && w == waiting);
                    if !by_current {
                        assert(task_covers(waiting[held], path));
                    }
                }
            },
        }
    }
}

/// A step of a run leads from a steady moment to a steady moment.
proof fn lemma_step_steady(
    now: Moment,
    next: Moment,
    before: Map<Seq<Seq<char>>, Node>,
    src: Seq<Seq<char>>,
    dest: Seq<Seq<char>>,
)
    requires
        apart(src, dest),
        steady(now, before, src, dest),
        follows(now, next),
    ensures
        steady(next, before, src, dest),
{
    let event = event_between(now, next);
    law_step_mirrors(src, dest, now.copier, event);
    lemma_awaited(now.copier, event);
    lemma_source_kept(now, event, next.disk, before, src, dest);
    lemma_phase_facts(now, event, next.disk, before, src, dest);
}

/// A step of a run leads from a sound moment to a sound moment.
proof fn lemma_step_sound(
    now: Moment,
    next: Moment,
    before: Map<Seq<Seq<char>>, Node>,
    src: Seq<Seq<char>>,
    dest: Seq<Seq<char>>,
)
    requires
        tree_shaped(before),
        apart(src, dest),
        sound(now, before, src, dest),
        follows(now, next),
    ensures
        sound(next, before, src, dest),
{
    let event = event_between(now, next);
    lemma_step_steady(now, next, before, src, dest);
    if !failed(next.copier) {
        assert forall|path: Seq<Seq<char>>|
            below(src, path) && before.contains_key(path) implies #[trigger] accounted(
            next.copier,
            next.disk,
            before,
            src,
            dest,
            path,
        ) by {
            lemma_accounted(now, event, next.disk, before, src, dest, path);
        }
    }
}

/// Every moment of a run on paths that are apart is steady.
proof fn lemma_run_steady(
    src: Seq<Seq<char>>,
    dest: Seq<Seq<char>>,
    before: Map<Seq<Seq<char>>, Node>,
    moments: Seq<Moment>,
    i: int,
)
    requires
        apart(src, dest),
        is_run(src, dest, before, moments),
        0 <= i < moments.len(),
    ensures
        steady(moments[i], before, src, dest),
    decreases i,
{
    if i == 0 {
        law_start_mirrors(src, dest);
    } else {
        lemma_run_steady(src, dest, before, moments, i - 1);
        assert(follows(moments[i - 1], moments[i - 1 + 1]));
        lemma_step_steady(moments[i - 1], moments[i], before, src, dest);
    }
}

/// Every moment of a run on paths that are apart is sound.
proof fn lemma_run_sound(
    src: Seq<Seq<char>>,
    dest: Seq<Seq<char>>,
    before: Map<Seq<Seq<char>>, Node>,
    moments: Seq<Moment>,
    i: int,
)
    requires
        tree_shaped(before),
        apart(src, dest),
        is_run(src, dest, before, moments),
        0 <= i < moments.len(),
    ensures
        sound(moments[i], before, src, dest),
    decreases i,
{
    if i == 0 {
        law_start_mirrors(src, dest);
        let first = moments[0];
        assert forall|path: Seq<Seq<char>>|
            below(src, path) && before.contains_key(path) implies #[trigger] accounted(
            first.copier,
            first.disk,
            before,
            src,
            dest,
            path,
        ) by {
            assert(task_covers(TaskView { src, dest }, path));
        }
    } else {
        lemma_run_sound(src, dest, before, moments, i - 1);
        assert(follows(moments[i - 1], moments[i - 1 + 1]));
        lemma_step_sound(moments[i - 1], moments[i], before, src, dest);
    }
}

/// A run on paths that are not apart is over before it began: at every
/// moment the copier is finished with the refusal and the disk is as it was.
pub proof fn law_overlapping_run_does_nothing(
    src: Seq<Seq<char>>,
    dest: Seq<Seq<char>>,
    before: Map<Seq<Seq<char>>, Node>,
    moments: Seq<Moment>,
    at: int,
)
    requires
        !apart(src, dest),
        is_run(src, dest, before, moments),
        0 <= at < moments.len(),
    ensures
        moments[at].disk == before,
        moments[at].copier == (CopierView::Finished {
            result: Err(ErrorView::OverlappingPaths { src, dest }),
        }),
        moments[at].action == ActionView::Finish(Err(ErrorView::OverlappingPaths { src, dest })),
{
    law_failure_ends_run(src, dest, before, moments, 0, at);
}

/// A copy that ends well has reproduced the tree.
///
/// Take a disk on which everything stands in directories. In every run of
/// a copy on that disk that ends well, source and destination are apart, and
/// every entry that stood at or below the source stands the same way down
/// from the destination: every directory as a directory, every file as a
/// file with the same bytes.
pub proof fn law_copy_reproduces_tree(
    src: Seq<Seq<char>>,
    dest: Seq<Seq<char>>,
    before: Map<Seq<Seq<char>>, Node>,
    moments: Seq<Moment>,
)
    requires
        tree_shaped(before),
        is_run(src, dest, before, moments),
        moments.last().action == ActionView::Finish(Ok(())),
    ensures
        apart(src, dest),
        forall|rel: Seq<Seq<char>>|
            before.contains_key(src + rel) ==> #[trigger] mirrored(
                moments.last().disk,
                before,
                src,
                dest,
                rel,
            ),
{
    let last = moments.last();
    if !apart(src, dest) {
        law_overlapping_run_does_nothing(src, dest, before, moments, moments.len() - 1);
    }
    lemma_run_sound(src, dest, before, moments, moments.len() - 1);
    assert(last.copier == CopierView::Finished { result: Ok::<(), ErrorView>(()) });
    assert forall|rel: Seq<Seq<char>>| before.contains_key(src + rel) implies #[trigger] mirrored(
        last.disk,
        before,
        src,
        dest,
        rel,
    ) by {
        lemma_way(src, rel, src + rel);
        assert(accounted(last.copier, last.disk, before, src, dest, src + rel));
    }
}

/// What was copied remains, however the copy ends.
///
/// In every run, on whatever disk and whatever paths, an entry that at some
/// moment stands at the destination as it stood at the source stands so at
/// every later moment: no step undoes a copy, and none follows the failure
/// that ends a run.
pub proof fn law_copied_entries_remain(
    src: Seq<Seq<char>>,
    dest: Seq<Seq<char>>,
    before: Map<Seq<Seq<char>>, Node>,
    moments: Seq<Moment>,
    earlier: int,
    later: int,
    rel: Seq<Seq<char>>,
)
    requires
        is_run(src, dest, before, moments),
        0 <= earlier <= later < moments.len(),
        mirrored(moments[earlier].disk, before, src, dest, rel),
    ensures
        mirrored(moments[later].disk, before, src, dest, rel),
    decreases later - earlier,
{
    if !apart(src, dest) {
        law_overlapping_run_does_nothing(src, dest, before, moments, earlier);
        law_overlapping_run_does_nothing(src, dest, before, moments, later);
    } else if earlier < later {
        law_copied_entries_remain(src, dest, before, moments, earlier, later - 1, rel);
        lemma_run_steady(src, dest, before, moments, later - 1);
        let now = moments[later - 1];
        let next = moments[later - 1 + 1];
        assert(follows(now, next));
        lemma_mirrored_kept(now, event_between(now, next), next.disk, before, src, dest, rel);
    }
}

/// What a run has not changed at `path`: outside the destination and what
/// lies below it, an entry that stood before stands as it stood, and where
/// nothing stood nothing stands, but for a directory above the destination.
pub open spec fn left_alone(
    disk: Map<Seq<Seq<char>>, Node>,
    before: Map<Seq<Seq<char>>, Node>,
    dest: Seq<Seq<char>>,
    path: Seq<Seq<char>>,
) -> bool {
    if below(dest, path) {
        true
    } else if before.contains_key(path) {
        disk.contains_key(path) && disk[path] == before[path]
    } else {
        disk.contains_key(path) ==> below(path, dest) && disk[path] is Dir
    }
}

/// Outside the destination, what lies below it and the directories that were
/// missing above it, `disk` is as `before` was.
pub open spec fn rest_kept(
    disk: Map<Seq<Seq<char>>, Node>,
    before: Map<Seq<Seq<char>>, Node>,
    dest: Seq<Seq<char>>,
) -> bool {
    forall|path: Seq<Seq<char>>| #[trigger] left_alone(disk, before, dest, path)
}

/// A step changes nothing outside the destination, what lies below it and
/// the directories that were missing above it.
proof fn lemma_rest_kept(
    now: Moment,
    event: EventView,
    after: Map<Seq<Seq<char>>, Node>,
    before: Map<Seq<Seq<char>>, Node>,
    src: Seq<Seq<char>>,
    dest: Seq<Seq<char>>,
)
    requires
        steady(now, before, src, dest),
        rest_kept(now.disk, before, dest),
        performs(now.disk, now.action, event, after),
    ensures
        rest_kept(after, before, dest),
{
    let disk = now.disk;
    assert forall|path: Seq<Seq<char>>| #[trigger] left_alone(after, before, dest, path) by {
        assert(left_alone(disk, before, dest, path));
        match now.copier {
            CopierView::Finished { .. } => {},
            CopierView::Working { phase, current, waiting } => {
                let target = current.dest;
                assert(below(dest, target));
                match phase {
                    Phase::Stat => {},
                    Phase::List => {},
                    Phase::Copy => {},
                    Phase::Dir => {
                        lemma_creates_dirs(disk, target, went_well(event), after);
                        if after.contains_key(path) && !disk.contains_key(path) {
                            lemma_above(path, dest, target);
                        }
                    },
                    Phase::Parent => {
                        if target.len() > 0 {
                            let parent = target.drop_last();
                            lemma_creates_dirs(
                                disk,
                                parent,
                                went_well(event),
                                after,
                            );
                            if after.contains_key(path) && !disk.contains_key(path) {
                                assert(parent =~= target.take(target.len() - 1));
                                lemma_above(path, parent, target);
                                lemma_above(path, dest, target);
                            }
                        }
                    },
                }
            },
        }
    }
}

/// A copy touches nothing but its destination.
///
/// At every moment of every run, on whatever disk and whatever paths,
/// however the run goes on: the source and everything below it is as it
/// was; every other entry outside the destination is as it was; and nothing
/// new stands anywhere but at the destination, below it, or, as a directory,
/// above it where a directory was missing.
pub proof fn law_run_leaves_the_rest(
    src: Seq<Seq<char>>,
    dest: Seq<Seq<char>>,
    before: Map<Seq<Seq<char>>, Node>,
    moments: Seq<Moment>,
    at: int,
)
    requires
        is_run(src, dest, before, moments),
        0 <= at < moments.len(),
    ensures
        source_kept(moments[at].disk, before, src),
        rest_kept(moments[at].disk, before, dest),
    decreases at,
{
    if !apart(src, dest) {
        law_overlapping_run_does_nothing(src, dest, before, moments, at);
        assert forall|path: Seq<Seq<char>>| #[trigger] below(src, path) implies agrees(
            before,
            before,
            path,
        ) by {}
        assert forall|path: Seq<Seq<char>>| #[trigger] left_alone(before, before, dest, path) by {}
    } else {
        lemma_run_steady(src, dest, before, moments, at);
        if at == 0 {
            assert forall|path: Seq<Seq<char>>| #[trigger]
                left_alone(before, before, dest, path) by {}
        } else {
            law_run_leaves_the_rest(src, dest, before, moments, at - 1);
            lemma_run_steady(src, dest, before, moments, at - 1);
            let now = moments[at - 1];
            let next = moments[at - 1 + 1];
            assert(follows(now, next));
            lemma_rest_kept(now, event_between(now, next), next.disk, before, src, dest);
        }
    }
}

/// A run that meets a failure ends with an error: after the first operation
/// that fails, every moment of the run is finished with that error.
pub proof fn law_failure_ends_run(
    src: Seq<Seq<char>>,
    dest: Seq<Seq<char>>,
    before: Map<Seq<Seq<char>>, Node>,
    moments: Seq<Moment>,
    earlier: int,
    later: int,
)
    requires
        is_run(src, dest, before, moments),
        0 <= earlier <= later < moments.len(),
        failed(moments[earlier].copier),
    ensures
        moments[later].copier == moments[earlier].copier,
        moments[later].action == moments[earlier].action,
        moments[later].disk == moments[earlier].disk,
        moments[later].action is Finish,
    decreases later - earlier,
{
    if earlier < later {
        law_failure_ends_run(src, dest, before, moments, earlier, later - 1);
        let now = moments[later - 1];
        assert(follows(now, moments[later - 1 + 1]));
    } else if earlier > 0 {
        let now = moments[earlier - 1];
        assert(follows(now, moments[earlier - 1 + 1]));
        lemma_awaited(now.copier, event_between(now, moments[earlier]));
    }
}

/// Whatever stands at or below `dest` is what stood the same way down from
/// `src`: nothing else was written there.
pub open spec fn only_copies(
    disk: Map<Seq<Seq<char>>, Node>,
    before: Map<Seq<Seq<char>>, Node>,
    src: Seq<Seq<char>>,
    dest: Seq<Seq<char>>,
) -> bool {
    forall|rel: Seq<Seq<char>>| #[trigger]
        disk.contains_key(dest + rel) ==> before.contains_key(src + rel) && disk[dest + rel]
            == before[src + rel]
}

/// A path on the way down to the current destination mirrors a directory on
/// the way down to the current source, or the current source itself.
proof fn lemma_on_the_way(
    before: Map<Seq<Seq<char>>, Node>,
    src: Seq<Seq<char>>,
    dest: Seq<Seq<char>>,
    current: TaskView,
    rel: Seq<Seq<char>>,
)
    requires
        tree_shaped(before),
        apart(src, dest),
        mirrors(src, dest, current),
        before.contains_key(current.src),
        below(dest + rel, current.dest),
    ensures
        before.contains_key(src + rel),
        dest + rel == current.dest <==> src + rel == current.src,
        src + rel != current.src ==> before[src + rel] is Dir,
{
    let down = way(src, current.src);
    lemma_way(src, down, current.src);
    lemma_way(dest, down, current.dest);
    lemma_way(dest, rel, dest + rel);
    lemma_way(src, rel, src + rel);
    let n = rel.len() as int;
    let k = src.len() + n;
    assert(rel =~= down.take(n)) by {
        assert(n <= down.len());
        assert forall|i: int| 0 <= i < n implies rel[i] == down[i] by {
            assert((dest + rel)[dest.len() + i] == rel[i]);
            assert(current.dest[dest.len() + i] == down[i]);
            assert(current.dest.subrange(0, (dest + rel).len() as int)[dest.len() + i]
                == current.dest[dest.len() + i]);
        }
    }
    assert(src + rel =~= current.src.take(k));
    assert(src.len() > 0) by {
        if src.len() == 0 {
            assert(dest.subrange(0, 0) =~= src);
        }
    }
    if k == current.src.len() {
        assert(current.src.take(k) =~= current.src);
        assert(rel =~= down);
    } else {
        assert(before.contains_key(current.src.take(k)));
        if dest + rel == current.dest {
            assert((dest + rel).len() == current.dest.len());
        }
    }
}

/// A step writes nothing at or below the destination but copies.
proof fn lemma_only_copies(
    now: Moment,
    event: EventView,
    after: Map<Seq<Seq<char>>, Node>,
    before: Map<Seq<Seq<char>>, Node>,
    src: Seq<Seq<char>>,
    dest: Seq<Seq<char>>,
)
    requires
        tree_shaped(before),
        apart(src, dest),
        steady(now, before, src, dest),
        only_copies(now.disk, before, src, dest),
        performs(now.disk, now.action, event, after),
    ensures
        only_copies(after, before, src, dest),
{
    let disk = now.disk;
    assert forall|rel: Seq<Seq<char>>| #[trigger]
        after.contains_key(dest + rel) implies before.contains_key(src + rel) && after[dest + rel]
        == before[src + rel] by {
        let place = dest + rel;
        if disk.contains_key(place) {
            assert(before.contains_key(src + rel) && disk[place] == before[src + rel]);
        }
        match now.copier {
            CopierView::Finished { .. } => {},
            CopierView::Working { phase, current, waiting } => {
                let target = current.dest;
                assert(below(src, current.src));
                assert(agrees(disk, before, current.src));
                lemma_above(target, target, target);
                match phase {
                    Phase::Stat => {},
                    Phase::List => {},
                    Phase::Copy => {
                        if went_well(event) && place == target {
                            lemma_on_the_way(before, src, dest, current, rel);
                        }
                    },
                    Phase::Dir => {
                        lemma_creates_dirs(disk, target, went_well(event), after);
                        if !disk.contains_key(place) {
                            lemma_on_the_way(before, src, dest, current, rel);
                        }
                    },
                    Phase::Parent => {
                        if target.len() > 0 {
                            let parent = target.drop_last();
                            lemma_creates_dirs(
                                disk,
                                parent,
                                went_well(event),
                                after,
                            );
                            if !disk.contains_key(place) {
                                assert(parent =~= target.take(target.len() - 1));
                                lemma_above(place, parent, target);
                                lemma_on_the_way(before, src, dest, current, rel);
                                assert(place.len() < target.len());
                            }
                        }
                    },
                }
            },
        }
    }
}

/// Nothing but copies is written to the destination.
///
/// Take a disk on which everything stands in directories and nothing stands
/// at or below the destination. At every moment of every run of the copy,
/// however it goes on, whatever stands at or below the destination is the
/// entry that stood the same way down from the source: with the same bytes
/// where it is a file. Together with a good end, the two trees are the same.
pub proof fn law_destination_holds_only_copies(
    src: Seq<Seq<char>>,
    dest: Seq<Seq<char>>,
    before: Map<Seq<Seq<char>>, Node>,
    moments: Seq<Moment>,
    at: int,
)
    requires
        tree_shaped(before),
        forall|rel: Seq<Seq<char>>| !before.contains_key(#[trigger] (dest + rel)),
        is_run(src, dest, before, moments),
        0 <= at < moments.len(),
    ensures
        only_copies(moments[at].disk, before, src, dest),
    decreases at,
{
    if !apart(src, dest) {
        law_overlapping_run_does_nothing(src, dest, before, moments, at);
    } else if at > 0 {
        law_destination_holds_only_copies(src, dest, before, moments, at - 1);
        lemma_run_steady(src, dest, before, moments, at - 1);
        let now = moments[at - 1];
        let next = moments[at - 1 + 1];
        assert(follows(now, next));
        lemma_only_copies(now, event_between(now, next), next.disk, before, src, dest);
    }
}

/// `moments` is a run of the copy of `src` to `dest` that begins on `disk`,
/// and `events` are what the disk reported in it, one between each moment
/// and the next.
pub open spec fn is_run_by(
    src: Seq<Seq<char>>,
    dest: Seq<Seq<char>>,
    disk: Map<Seq<Seq<char>>, Node>,
    moments: Seq<Moment>,
    events: Seq<EventView>,
) -> bool {
    &&& moments.len() == events.len() + 1
    &&& moments[0] == Moment {
        copier: start_spec(src, dest).0,
        action: start_spec(src, dest).1,
        disk,
    }
    &&& forall|i: int|
        0 <= i < events.len() ==> performs(
            moments[i].disk,
            moments[i].action,
            #[trigger] events[i],
            moments[i + 1].disk,
        ) && (moments[i + 1].copier, moments[i + 1].action) == step_spec(
            moments[i].copier,
            events[i],
        )
}

/// The event tells a copier at work of a failure: an operation failed, what
/// was examined is neither file nor directory, or the event does not answer
/// the operation that was asked for.
pub open spec fn fails(copier: CopierView, event: EventView) -> bool {
    copier matches CopierView::Working { phase, .. } && is_failure(phase, event)
}

/// A run with its events is a run.
pub proof fn law_run_by_is_run(
    src: Seq<Seq<char>>,
    dest: Seq<Seq<char>>,
    before: Map<Seq<Seq<char>>, Node>,
    moments: Seq<Moment>,
    events: Seq<EventView>,
)
    requires
        is_run_by(src, dest, before, moments, events),
    ensures
        is_run(src, dest, before, moments),
{
    assert forall|i: int| 0 <= i < moments.len() - 1 implies follows(
        #[trigger] moments[i],
        moments[i + 1],
    ) by {
        assert(performs(moments[i].disk, moments[i].action, events[i], moments[i + 1].disk));
    }
}

/// A copy in which nothing fails does not end with an error.
///
/// Take a source and a destination that are apart, and a run in which no
/// event tells of a failure. Then at no moment the copier is finished with
/// an error: where the run is over, it ended well, and by
/// `law_copy_reproduces_tree` the tree is reproduced.
pub proof fn law_no_failure_no_error(
    src: Seq<Seq<char>>,
    dest: Seq<Seq<char>>,
    before: Map<Seq<Seq<char>>, Node>,
    moments: Seq<Moment>,
    events: Seq<EventView>,
    at: int,
)
    requires
        apart(src, dest),
        is_run_by(src, dest, before, moments, events),
        forall|i: int| 0 <= i < events.len() ==> !fails(moments[i].copier, #[trigger] events[i]),
        0 <= at < moments.len(),
    ensures
        !failed(moments[at].copier),
        moments[at].action == awaited(moments[at].copier),
        moments[at].action is Finish ==> moments[at].action == ActionView::Finish(Ok(())),
    decreases at,
{
    if at > 0 {
        law_no_failure_no_error(src, dest, before, moments, events, at - 1);
        let now = moments[at - 1];
        let event = events[at - 1];
        assert(!fails(now.copier, event));
        assert((moments[at - 1 + 1].copier, moments[at - 1 + 1].action) == step_spec(
            now.copier,
            event,
        ));
        lemma_awaited(now.copier, event);
    }
}

/// A step keeps what stood at or below the destination without a
/// counterpart at the source.
proof fn lemma_stranger_kept(
    now: Moment,
    event: EventView,
    after: Map<Seq<Seq<char>>, Node>,
    before: Map<Seq<Seq<char>>, Node>,
    src: Seq<Seq<char>>,
    dest: Seq<Seq<char>>,
    rel: Seq<Seq<char>>,
)
    requires
        steady(now, before, src, dest),
        performs(now.disk, now.action, event, after),
        !before.contains_key(src + rel),
        now.disk.contains_key(dest + rel),
    ensures
        after.contains_key(dest + rel),
        after[dest + rel] == now.disk[dest + rel],
{
    let disk = now.disk;
    let place = dest + rel;
    match now.copier {
        CopierView::Finished { .. } => {},
        CopierView::Working { phase, current, waiting } => {
            let target = current.dest;
            match phase {
                Phase::Stat => {},
                Phase::List => {},
                Phase::Copy => {
                    if place == target {
                        lemma_way(dest, rel, target);
                        lemma_way(src, rel, current.src);
                        assert(src + rel == current.src);
                    }
                },
                Phase::Dir => {
                    lemma_creates_dirs(disk, target, went_well(event), after);
                },
                Phase::Parent => {
                    if target.len() > 0 {
                        lemma_creates_dirs(disk, target.drop_last(), went_well(event), after);
                    }
                },
            }
        },
    }
}

/// What stood at the destination and is no copy is kept.
///
/// At every moment of every run, however it goes on: an entry that stood at
/// or below the destination before the copy, the same way down from which
/// nothing stood at the source, stands as it stood. The copy replaces only
/// what it copies over.
pub proof fn law_strangers_are_kept(
    src: Seq<Seq<char>>,
    dest: Seq<Seq<char>>,
    before: Map<Seq<Seq<char>>, Node>,
    moments: Seq<Moment>,
    at: int,
    rel: Seq<Seq<char>>,
)
    requires
        is_run(src, dest, before, moments),
        0 <= at < moments.len(),
        before.contains_key(dest + rel),
        !before.contains_key(src + rel),
    ensures
        moments[at].disk.contains_key(dest + rel),
        moments[at].disk[dest + rel] == before[dest + rel],
    decreases at,
{
    if !apart(src, dest) {
        law_overlapping_run_does_nothing(src, dest, before, moments, at);
    } else if at > 0 {
        law_strangers_are_kept(src, dest, before, moments, at - 1, rel);
        lemma_run_steady(src, dest, before, moments, at - 1);
        let now = moments[at - 1];
        let next = moments[at - 1 + 1];
        assert(follows(now, next));
        lemma_stranger_kept(now, event_between(now, next), next.disk, before, src, dest, rel);
    }
}

} // verus!
