//! Recursive copy, as a machine that decides and a caller that acts.
//!
//! The copier holds a stack of pending tasks. It asks for one file-system
//! operation at a time and is told how it went; the caller performs the
//! operations. The tree is walked depth first, the entries of a directory in
//! the order of its listing. The first failure ends the copy: nothing that
//! was copied before is undone. A copy whose source and destination are not
//! apart is refused before anything is asked of the disk.
use crate::path::{
    apart, are_apart, below, child, clone_names, lemma_below_entry, names_view, way,
};
use vstd::prelude::*;
use vstd::string::*;

verus! {

/// What stands at a path.
#[derive(Clone, Copy, Debug, PartialEq, Eq, Structural)]
pub enum EntryKind {
    File,
    Directory,
    /// A link, a device, a socket: anything that is neither file nor directory.
    Other,
}

/// Why a copy failed, with the path at which it failed and what the disk
/// gave as the cause.
#[derive(Debug, PartialEq, Eq)]
pub enum CopyError {
    /// The source at `path` does not exist or could not be examined.
    SourceMissing { path: Vec<String>, cause: String },
    /// The source at `path` is neither a file nor a directory.
    UnsupportedSourceType { path: Vec<String> },
    /// The operation that was asked for at `path` failed.
    IoError { path: Vec<String>, cause: String },
    /// One of source and destination is the other or lies inside it.
    OverlappingPaths { src: Vec<String>, dest: Vec<String> },
}

/// A failure in specifications.
pub enum ErrorView {
    SourceMissing { path: Seq<Seq<char>>, cause: Seq<char> },
    UnsupportedSourceType { path: Seq<Seq<char>> },
    IoError { path: Seq<Seq<char>>, cause: Seq<char> },
    OverlappingPaths { src: Seq<Seq<char>>, dest: Seq<Seq<char>> },
}

impl View for CopyError {
    type V = ErrorView;

    open spec fn view(&self) -> ErrorView {
        match *self {
            CopyError::SourceMissing { path, cause } => ErrorView::SourceMissing {
                path: names_view(path@),
                cause: cause@,
            },
            CopyError::UnsupportedSourceType { path } => ErrorView::UnsupportedSourceType {
                path: names_view(path@),
            },
            CopyError::IoError { path, cause } => ErrorView::IoError {
                path: names_view(path@),
                cause: cause@,
            },
            CopyError::OverlappingPaths { src, dest } => ErrorView::OverlappingPaths {
                src: names_view(src@),
                dest: names_view(dest@),
            },
        }
    }
}

/// The view of the result of a copy.
pub open spec fn result_view(result: Result<(), CopyError>) -> Result<(), ErrorView> {
    match result {
        Ok(()) => Ok(()),
        Err(e) => Err(e@),
    }
}

/// One pending copy: from `src` to `dest`.
#[derive(Debug)]
pub struct CopyTask {
    pub src: Vec<String>,
    pub dest: Vec<String>,
}

/// A task in specifications: source and destination, each as its components.
pub struct TaskView {
    pub src: Seq<Seq<char>>,
    pub dest: Seq<Seq<char>>,
}

impl View for CopyTask {
    type V = TaskView;

    open spec fn view(&self) -> TaskView {
        TaskView { src: names_view(self.src@), dest: names_view(self.dest@) }
    }
}

/// The tasks of `tasks`, each by its view.
pub open spec fn tasks_view(tasks: Seq<CopyTask>) -> Seq<TaskView> {
    tasks.map_values(|task: CopyTask| task@)
}

/// The operation that the copier waits for.
#[derive(Clone, Copy, Debug, PartialEq, Eq, Structural)]
pub enum Phase {
    /// Examining the source of the current task.
    Stat,
    /// Creating the directory that will hold the destination file.
    Parent,
    /// Copying the bytes of the source file.
    Copy,
    /// Creating the destination directory.
    Dir,
    /// Listing the source directory.
    List,
}

/// The operation that the caller is to perform next.
#[derive(Debug)]
pub enum CopyAction {
    /// Examine what stands at the path.
    Stat(Vec<String>),
    /// Create the parent directory of the path, and its missing ancestors.
    CreateParent(Vec<String>),
    /// Copy the bytes of the first path to the second, replacing what is there.
    CopyFile(Vec<String>, Vec<String>),
    /// Create the directory at the path, and its missing ancestors.
    CreateDir(Vec<String>),
    /// List the names of the entries of the directory at the path.
    ReadDir(Vec<String>),
    /// The copy is over, with this result.
    Finish(Result<(), CopyError>),
}

/// An action in specifications.
pub enum ActionView {
    Stat(Seq<Seq<char>>),
    CreateParent(Seq<Seq<char>>),
    CopyFile(Seq<Seq<char>>, Seq<Seq<char>>),
    CreateDir(Seq<Seq<char>>),
    ReadDir(Seq<Seq<char>>),
    Finish(Result<(), ErrorView>),
}

impl View for CopyAction {
    type V = ActionView;

    open spec fn view(&self) -> ActionView {
        match *self {
            CopyAction::Stat(path) => ActionView::Stat(names_view(path@)),
            CopyAction::CreateParent(path) => ActionView::CreateParent(names_view(path@)),
            CopyAction::CopyFile(src, dest) => ActionView::CopyFile(
                names_view(src@),
                names_view(dest@),
            ),
            CopyAction::CreateDir(path) => ActionView::CreateDir(names_view(path@)),
            CopyAction::ReadDir(path) => ActionView::ReadDir(names_view(path@)),
            CopyAction::Finish(result) => ActionView::Finish(result_view(result)),
        }
    }
}

/// How the operation that was asked for went: well, or not, with the cause
/// that the disk gave.
#[derive(Debug)]
pub enum CopyEvent {
    /// What stands at the examined path, or why it could not be examined.
    Kind(Result<EntryKind, String>),
    /// Whether creating a directory or copying a file succeeded.
    Completed(Result<(), String>),
    /// The names of the entries of the listed directory, in the order of the
    /// listing.
    Entries(Result<Vec<String>, String>),
}

/// An event in specifications.
pub enum EventView {
    Kind(Result<EntryKind, Seq<char>>),
    Completed(Result<(), Seq<char>>),
    Entries(Result<Seq<Seq<char>>, Seq<char>>),
}

impl View for CopyEvent {
    type V = EventView;

    open spec fn view(&self) -> EventView {
        match *self {
            CopyEvent::Kind(Ok(kind)) => EventView::Kind(Ok(kind)),
            CopyEvent::Kind(Err(cause)) => EventView::Kind(Err(cause@)),
            CopyEvent::Completed(Ok(())) => EventView::Completed(Ok(())),
            CopyEvent::Completed(Err(cause)) => EventView::Completed(Err(cause@)),
            CopyEvent::Entries(Ok(names)) => EventView::Entries(Ok(names_view(names@))),
            CopyEvent::Entries(Err(cause)) => EventView::Entries(Err(cause@)),
        }
    }
}

/// The copier: at work on a task, with more waiting, or finished.
#[derive(Debug)]
pub enum Copier {
    Working { phase: Phase, current: CopyTask, waiting: Vec<CopyTask> },
    Finished { result: Result<(), CopyError> },
}

/// The copier in specifications. The end of `waiting` is taken up next.
pub enum CopierView {
    Working { phase: Phase, current: TaskView, waiting: Seq<TaskView> },
    Finished { result: Result<(), ErrorView> },
}

impl View for Copier {
    type V = CopierView;

    open spec fn view(&self) -> CopierView {
        match *self {
            Copier::Working { phase, current, waiting } => CopierView::Working {
                phase,
                current: current@,
                waiting: tasks_view(waiting@),
            },
            Copier::Finished { result } => CopierView::Finished { result: result_view(result) },
        }
    }
}

/// The task for the entry `name` of the directory that `task` copies.
pub open spec fn entry_task(task: TaskView, name: Seq<char>) -> TaskView {
    TaskView { src: task.src.push(name), dest: task.dest.push(name) }
}

/// The tasks for the entries `names` of the directory that `task` copies,
/// the last entry first: put at the end of the stack, the first entry is
/// taken up first.
pub open spec fn entry_tasks(task: TaskView, names: Seq<Seq<char>>) -> Seq<TaskView> {
    Seq::new(names.len(), |j: int| entry_task(task, names[names.len() - 1 - j]))
}

/// The copy ends with `result`.
pub open spec fn finish(result: Result<(), ErrorView>) -> (CopierView, ActionView) {
    (CopierView::Finished { result }, ActionView::Finish(result))
}

/// The current task is done: the task at the end of `stack` is taken up, or
/// the copy ends well where none is left.
pub open spec fn advance(stack: Seq<TaskView>) -> (CopierView, ActionView) {
    if stack.len() == 0 {
        finish(Ok(()))
    } else {
        (
            CopierView::Working {
                phase: Phase::Stat,
                current: stack.last(),
                waiting: stack.drop_last(),
            },
            ActionView::Stat(stack.last().src),
        )
    }
}

/// The copier and its first action for a copy of `src` to `dest`: the source
/// is examined first, unless the two paths are not apart, which ends the copy
/// before it began.
pub open spec fn start_spec(src: Seq<Seq<char>>, dest: Seq<Seq<char>>) -> (CopierView, ActionView) {
    if apart(src, dest) {
        (
            CopierView::Working {
                phase: Phase::Stat,
                current: TaskView { src, dest },
                waiting: Seq::empty(),
            },
            ActionView::Stat(src),
        )
    } else {
        finish(Err(ErrorView::OverlappingPaths { src, dest }))
    }
}

/// The event says that a directory was created or a file copied.
pub open spec fn went_well(event: EventView) -> bool {
    event matches EventView::Completed(Ok(_))
}

/// The path at which the operation of `phase` was asked for.
pub open spec fn asked_at(phase: Phase, current: TaskView) -> Seq<Seq<char>> {
    match phase {
        Phase::Stat => current.src,
        Phase::Copy => current.src,
        Phase::List => current.src,
        Phase::Parent => current.dest,
        Phase::Dir => current.dest,
    }
}

/// The cause that `event` gives for a failure. An event that reports no
/// failure, but does not answer the operation that was asked for, has this
/// said as the cause.
pub open spec fn cause_of(event: EventView) -> Seq<char> {
    match event {
        EventView::Kind(Err(cause)) => cause,
        EventView::Completed(Err(cause)) => cause,
        EventView::Entries(Err(cause)) => cause,
        _ => "the answer does not fit the operation"@,
    }
}

/// The copier after `event` and the action it asks for next.
///
/// A file is copied after its parent directory was created. A directory is
/// created, then listed, and its entries become tasks. A source that is
/// missing, or neither file nor directory, ends the copy, and so does every
/// operation that failed and every event that does not answer the operation
/// that was asked for; the error names the path and the cause. A finished
/// copier stays finished.
pub open spec fn step_spec(copier: CopierView, event: EventView) -> (CopierView, ActionView) {
    match copier {
        CopierView::Finished { result } => (copier, ActionView::Finish(result)),
        CopierView::Working { phase, current, waiting } => match (phase, event) {
            (Phase::Stat, EventView::Kind(Err(cause))) => finish(
                Err(ErrorView::SourceMissing { path: current.src, cause }),
            ),
            (Phase::Stat, EventView::Kind(Ok(EntryKind::File))) => (
                CopierView::Working { phase: Phase::Parent, current, waiting },
                ActionView::CreateParent(current.dest),
            ),
            (Phase::Stat, EventView::Kind(Ok(EntryKind::Directory))) => (
                CopierView::Working { phase: Phase::Dir, current, waiting },
                ActionView::CreateDir(current.dest),
            ),
            (Phase::Stat, EventView::Kind(Ok(EntryKind::Other))) => finish(
                Err(ErrorView::UnsupportedSourceType { path: current.src }),
            ),
            (Phase::Parent, EventView::Completed(Ok(()))) => (
                CopierView::Working { phase: Phase::Copy, current, waiting },
                ActionView::CopyFile(current.src, current.dest),
            ),
            (Phase::Copy, EventView::Completed(Ok(()))) => advance(waiting),
            (Phase::Dir, EventView::Completed(Ok(()))) => (
                CopierView::Working { phase: Phase::List, current, waiting },
                ActionView::ReadDir(current.src),
            ),
            (Phase::List, EventView::Entries(Ok(names))) => advance(
                waiting + entry_tasks(current, names),
            ),
            _ => finish(
                Err(ErrorView::IoError { path: asked_at(phase, current), cause: cause_of(event) }),
            ),
        },
    }
}

/// A copy of `error`.
fn clone_error(error: &CopyError) -> (copy: CopyError)
    ensures
        copy@ == error@,
{
    match error {
        CopyError::SourceMissing { path, cause } => CopyError::SourceMissing {
            path: clone_names(path),
            cause: cause.clone(),
        },
        CopyError::UnsupportedSourceType { path } => CopyError::UnsupportedSourceType {
            path: clone_names(path),
        },
        CopyError::IoError { path, cause } => CopyError::IoError {
            path: clone_names(path),
            cause: cause.clone(),
        },
        CopyError::OverlappingPaths { src, dest } => CopyError::OverlappingPaths {
            src: clone_names(src),
            dest: clone_names(dest),
        },
    }
}

/// The copy ends with the error `error`.
fn failed(error: CopyError) -> (r: (Copier, CopyAction))
    ensures
        (r.0@, r.1@) == finish(Err(error@)),
{
    let again = clone_error(&error);
    (Copier::Finished { result: Err(error) }, CopyAction::Finish(Err(again)))
}

/// The cause that `event` gives for a failure.
fn cause_text(event: CopyEvent) -> (cause: String)
    ensures
        cause@ == cause_of(event@),
{
    match event {
        CopyEvent::Kind(Err(cause)) => cause,
        CopyEvent::Completed(Err(cause)) => cause,
        CopyEvent::Entries(Err(cause)) => cause,
        _ => "the answer does not fit the operation".to_owned(),
    }
}

/// Begins the copy of `src` to `dest`.
///
/// Returns the copier and the first operation it asks for. The caller
/// performs each operation and hands its outcome to `Copier::step`, until the
/// action is `Finish`. Where one of the two paths is the other or lies inside
/// it, the copy is refused: the copier is finished with `OverlappingPaths`
/// and asks for nothing.
pub fn copy_recursive(src: Vec<String>, dest: Vec<String>) -> (r: (Copier, CopyAction))
    ensures
        (r.0@, r.1@) == start_spec(names_view(src@), names_view(dest@)),
{
    if !are_apart(&src, &dest) {
        return failed(CopyError::OverlappingPaths { src, dest });
    }
    let first = clone_names(&src);
    let copier = Copier::Working {
        phase: Phase::Stat,
        current: CopyTask { src, dest },
        waiting: Vec::new(),
    };
    assert(tasks_view(Seq::<CopyTask>::empty()) =~= Seq::<TaskView>::empty());
    (copier, CopyAction::Stat(first))
}

/// Takes up the task at the end of `waiting`.
fn next_task(waiting: Vec<CopyTask>) -> (r: (Copier, CopyAction))
    ensures
        (r.0@, r.1@) == advance(tasks_view(waiting@)),
{
    let mut waiting = waiting;
    let ghost stack = waiting@;
    match waiting.pop() {
        None => (Copier::Finished { result: Ok(()) }, CopyAction::Finish(Ok(()))),
        Some(task) => {
            let path = clone_names(&task.src);
            assert(tasks_view(waiting@) =~= tasks_view(stack).drop_last());
            assert(tasks_view(stack).last() == task@);
            (
                Copier::Working { phase: Phase::Stat, current: task, waiting },
                CopyAction::Stat(path),
            )
        },
    }
}

/// Puts the tasks for the entries `names` of `current` on the stack.
fn push_entries(waiting: Vec<CopyTask>, current: &CopyTask, names: &Vec<String>) -> (stack: Vec<
    CopyTask,
>)
    ensures
        tasks_view(stack@) == tasks_view(waiting@) + entry_tasks(current@, names_view(names@)),
{
    let mut stack = waiting;
    let ghost below_them = tasks_view(waiting@);
    let ghost entries = entry_tasks(current@, names_view(names@));
    let n = names.len();
    let mut left: usize = n;
    assert(tasks_view(stack@) =~= below_them + entries.take(0));
    while left > 0
        invariant
            n == names@.len(),
            left <= n,
            entries == entry_tasks(current@, names_view(names@)),
            tasks_view(stack@) == below_them + entries.take(n - left),
        decreases left,
    {
        left -= 1;
        let ghost before = stack@;
        let task = CopyTask {
            src: child(&current.src, &names[left]),
            dest: child(&current.dest, &names[left]),
        };
        assert(task@ == entries[n - 1 - left]);
        stack.push(task);
        assert(tasks_view(stack@) =~= tasks_view(before).push(task@));
        assert(below_them + entries.take(n - left) =~= (below_them + entries.take(
            n - 1 - left,
        )).push(entries[n - 1 - left]));
    }
    assert(entries.take(n as int) =~= entries);
    stack
}

impl Copier {
    /// Whether the copy is over.
    pub fn is_finished(&self) -> (b: bool)
        ensures
            b == (self@ is Finished),
    {
        match self {
            Copier::Finished { .. } => true,
            Copier::Working { .. } => false,
        }
    }

    /// Takes the outcome of the operation that was asked for last and
    /// decides what is to be done next.
    pub fn step(self, event: CopyEvent) -> (r: (Copier, CopyAction))
        ensures
            (r.0@, r.1@) == step_spec(self@, event@),
    {
        match self {
            Copier::Finished { result } => {
                let again = match &result {
                    Ok(()) => Ok(()),
                    Err(error) => Err(clone_error(error)),
                };
                (Copier::Finished { result }, CopyAction::Finish(again))
            },
            Copier::Working { phase, current, waiting } => match (phase, event) {
                (Phase::Stat, CopyEvent::Kind(Err(cause))) => failed(
                    CopyError::SourceMissing { path: current.src, cause },
                ),
                (Phase::Stat, CopyEvent::Kind(Ok(EntryKind::File))) => {
                    let dest = clone_names(&current.dest);
                    (
                        Copier::Working { phase: Phase::Parent, current, waiting },
                        CopyAction::CreateParent(dest),
                    )
                },
                (Phase::Stat, CopyEvent::Kind(Ok(EntryKind::Directory))) => {
                    let dest = clone_names(&current.dest);
                    (
                        Copier::Working { phase: Phase::Dir, current, waiting },
                        CopyAction::CreateDir(dest),
                    )
                },
                (Phase::Stat, CopyEvent::Kind(Ok(EntryKind::Other))) => failed(
                    CopyError::UnsupportedSourceType { path: current.src },
                ),
                (Phase::Parent, CopyEvent::Completed(Ok(()))) => {
                    let src = clone_names(&current.src);
                    let dest = clone_names(&current.dest);
                    (
                        Copier::Working { phase: Phase::Copy, current, waiting },
                        CopyAction::CopyFile(src, dest),
                    )
                },
                (Phase::Copy, CopyEvent::Completed(Ok(()))) => next_task(waiting),
                (Phase::Dir, CopyEvent::Completed(Ok(()))) => {
                    let src = clone_names(&current.src);
                    (
                        Copier::Working { phase: Phase::List, current, waiting },
                        CopyAction::ReadDir(src),
                    )
                },
                (Phase::List, CopyEvent::Entries(Ok(names))) => next_task(
                    push_entries(waiting, &current, &names),
                ),
                (phase, event) => {
                    let path = match phase {
                        Phase::Stat => current.src,
                        Phase::Copy => current.src,
                        Phase::List => current.src,
                        Phase::Parent => current.dest,
                        Phase::Dir => current.dest,
                    };
                    failed(CopyError::IoError { path, cause: cause_text(event) })
                },
            },
        }
    }
}

/// `task` copies to the place below `dest` that it copies from below `src`:
/// both paths are the same way down from the two roots.
pub open spec fn mirrors(src: Seq<Seq<char>>, dest: Seq<Seq<char>>, task: TaskView) -> bool {
    &&& below(src, task.src)
    &&& below(dest, task.dest)
    &&& way(src, task.src) == way(dest, task.dest)
}

/// Every task that the copier holds mirrors the roots `src` and `dest`.
pub open spec fn tasks_mirror(src: Seq<Seq<char>>, dest: Seq<Seq<char>>, copier: CopierView) -> bool {
    copier matches CopierView::Working { current, waiting, .. } ==> {
        &&& mirrors(src, dest, current)
        &&& forall|i: int| 0 <= i < waiting.len() ==> mirrors(src, dest, #[trigger] waiting[i])
    }
}

/// The action reads only below `src`, writes only below `dest`, and copies a
/// file only to the place that mirrors it.
pub open spec fn action_mirrors(src: Seq<Seq<char>>, dest: Seq<Seq<char>>, action: ActionView) -> bool {
    match action {
        ActionView::Stat(path) => below(src, path),
        ActionView::ReadDir(path) => below(src, path),
        ActionView::CreateParent(path) => below(dest, path),
        ActionView::CreateDir(path) => below(dest, path),
        ActionView::CopyFile(from, to) => mirrors(src, dest, TaskView { src: from, dest: to }),
        ActionView::Finish(_) => true,
    }
}

/// The event reports a failure to the copier in `phase`, or does not answer
/// the operation that was asked for.
pub open spec fn is_failure(phase: Phase, event: EventView) -> bool {
    match (phase, event) {
        (Phase::Stat, EventView::Kind(Ok(EntryKind::File))) => false,
        (Phase::Stat, EventView::Kind(Ok(EntryKind::Directory))) => false,
        (Phase::Parent, EventView::Completed(Ok(()))) => false,
        (Phase::Copy, EventView::Completed(Ok(()))) => false,
        (Phase::Dir, EventView::Completed(Ok(()))) => false,
        (Phase::List, EventView::Entries(Ok(_))) => false,
        _ => true,
    }
}

/// A copy begins with tasks and an action that mirror its roots.
pub proof fn law_start_mirrors(src: Seq<Seq<char>>, dest: Seq<Seq<char>>)
    ensures
        tasks_mirror(src, dest, start_spec(src, dest).0),
        action_mirrors(src, dest, start_spec(src, dest).1),
{
    let name = Seq::<char>::empty();
    lemma_below_entry(src, src, name);
    lemma_below_entry(dest, dest, name);
}

/// A copy is refused exactly where its paths are not apart: where the
/// destination is the source, lies inside it or holds it, the copier is
/// finished with `OverlappingPaths` before anything is asked of the disk, and
/// where the paths are apart the source is examined.
pub proof fn law_overlap_is_refused(src: Seq<Seq<char>>, dest: Seq<Seq<char>>)
    ensures
        !apart(src, dest) <==> start_spec(src, dest) == finish(
            Err(ErrorView::OverlappingPaths { src, dest }),
        ),
        apart(src, dest) <==> start_spec(src, dest).1 == ActionView::Stat(src),
        dest == src || below(src, dest) || below(dest, src) <==> !apart(src, dest),
{
    lemma_below_entry(src, src, Seq::<char>::empty());
}

/// Every step keeps the tasks mirroring the roots, and asks only for
/// operations that mirror them: a file or directory below the source root is
/// copied to the same relative path below the destination root.
pub proof fn law_step_mirrors(
    src: Seq<Seq<char>>,
    dest: Seq<Seq<char>>,
    copier: CopierView,
    event: EventView,
)
    requires
        tasks_mirror(src, dest, copier),
    ensures
        tasks_mirror(src, dest, step_spec(copier, event).0),
        action_mirrors(src, dest, step_spec(copier, event).1),
{
    match copier {
        CopierView::Finished { .. } => {},
        CopierView::Working { phase, current, waiting } => {
            let stack = match (phase, event) {
                (Phase::List, EventView::Entries(Ok(names))) => waiting + entry_tasks(
                    current,
                    names,
                ),
                _ => waiting,
            };
            assert forall|i: int| 0 <= i < stack.len() implies mirrors(
                src,
                dest,
                #[trigger] stack[i],
            ) by {
                if i >= waiting.len() {
                    let names = event->Entries_0->Ok_0;
                    let name = names[names.len() - 1 - (i - waiting.len())];
                    assert(stack[i] == entry_task(current, name));
                    lemma_below_entry(src, current.src, name);
                    lemma_below_entry(dest, current.dest, name);
                } else {
                    assert(stack[i] == waiting[i]);
                }
            }
            if stack.len() > 0 {
                assert(mirrors(src, dest, stack.last()));
                assert forall|i: int| 0 <= i < stack.drop_last().len() implies mirrors(
                    src,
                    dest,
                    #[trigger] stack.drop_last()[i],
                ) by {
                    assert(stack.drop_last()[i] == stack[i]);
                }
            }
        },
    }
}

/// The first failure ends the copy at once, with the error of its kind: a
/// missing source, a source that is neither file nor directory, or an
/// operation that failed. The error names the path at which the operation
/// was asked for and the cause that the event gave.
pub proof fn law_fail_fast(phase: Phase, current: TaskView, waiting: Seq<TaskView>, event: EventView)
    requires
        is_failure(phase, event),
    ensures
        step_spec(CopierView::Working { phase, current, waiting }, event) == finish(
            Err(
                if phase == Phase::Stat && event is Kind && event->Kind_0 is Err {
                    ErrorView::SourceMissing { path: current.src, cause: cause_of(event) }
                } else if phase == Phase::Stat && event == EventView::Kind(Ok(EntryKind::Other)) {
                    ErrorView::UnsupportedSourceType { path: current.src }
                } else {
                    ErrorView::IoError { path: asked_at(phase, current), cause: cause_of(event) }
                },
            ),
        ),
{
}

/// A finished copier stays finished, whatever it is told, and names its
/// result again: no operation is asked for after the end, so nothing that
/// was copied is touched again.
pub proof fn law_finished_is_final(result: Result<(), ErrorView>, event: EventView)
    ensures
        step_spec(CopierView::Finished { result }, event) == (
            CopierView::Finished { result },
            ActionView::Finish(result),
        ),
{
}

/// A copy ends well only when the last pending task is done: after a file
/// was copied or an empty directory was listed, with nothing left waiting.
pub proof fn law_success_is_earned(
    phase: Phase,
    current: TaskView,
    waiting: Seq<TaskView>,
    event: EventView,
)
    ensures
        step_spec(CopierView::Working { phase, current, waiting }, event).1 == ActionView::Finish(
            Ok(()),
        ) <==> waiting.len() == 0 && (phase == Phase::Copy && went_well(event) || phase
            == Phase::List && event == EventView::Entries(Ok(Seq::empty()))),
{
    if phase == Phase::List {
        if let EventView::Entries(Ok(names)) = event {
            assert(entry_tasks(current, names).len() == names.len());
            if names.len() == 0 {
                assert(names =~= Seq::empty());
            }
        }
    }
}

/// The tree is walked depth first, in the order of the listings: after a
/// directory was listed, its first entry is examined next, its other entries
/// wait in their order, the next entry on top, and what waited before waits
/// below them all.
pub proof fn law_entries_in_listing_order(
    current: TaskView,
    waiting: Seq<TaskView>,
    names: Seq<Seq<char>>,
)
    requires
        names.len() > 0,
    ensures
        step_spec(
            CopierView::Working { phase: Phase::List, current, waiting },
            EventView::Entries(Ok(names)),
        ) == (
            CopierView::Working {
                phase: Phase::Stat,
                current: entry_task(current, names[0]),
                waiting: waiting + entry_tasks(current, names.drop_first()),
            },
            ActionView::Stat(current.src.push(names[0])),
        ),
{
    let stack = waiting + entry_tasks(current, names);
    assert(stack.last() == entry_task(current, names[0]));
    assert(stack.drop_last() =~= waiting + entry_tasks(current, names.drop_first()));
}

} // verus!
