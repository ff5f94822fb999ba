//! What is recorded of a boost.
use crate::config::Config;
use crate::error::{Error, ErrorView};
use crate::paths::{is_absolute, join, joined, parts, parts_of, rooted, Parts, PathView};
use crate::text::{before, copy_all, copy_opt, opt_text, same, text_before, texts};
use crate::usage::UsageRecord;
use vstd::prelude::*;

verus! {

/// How far a boost has come.
#[derive(Clone, Copy, PartialEq, Eq, Structural, Debug)]
pub enum Phase {
    Preparing,
    Active,
    Stopping,
    Stopped,
    CleanupRequired,
}

/// A task that a boost takes in: a thread of an app server, which another thread may direct.
pub struct Task {
    pub socket: String,
    pub thread_id: String,
    pub child: bool,
}

/// What is known of a task.
pub struct TaskView {
    pub socket: Seq<char>,
    pub thread_id: Seq<char>,
    pub child: bool,
}

impl View for Task {
    type V = TaskView;

    open spec fn view(&self) -> TaskView {
        TaskView { socket: self.socket@, thread_id: self.thread_id@, child: self.child }
    }
}

/// What is known of tasks.
pub open spec fn task_views(tasks: Seq<Task>) -> Seq<TaskView> {
    tasks.map_values(|t: Task| t@)
}

/// A reading of an account's quota.
pub struct Observation {
    pub slot: u32,
    pub usage: UsageRecord,
}

/// The state of a boost.
pub struct State {
    pub run_id: String,
    pub phase: Phase,
    pub deadline: i64,
    pub sockets: Vec<String>,
    pub tasks: Vec<Task>,
    pub activated: bool,
    pub defaults_pending: bool,
    pub reason: Option<String>,
    pub errors: Vec<String>,
}

/// What is known of a boost.
pub struct StateView {
    pub run_id: Seq<char>,
    pub phase: Phase,
    pub deadline: i64,
    pub sockets: Seq<Seq<char>>,
    pub tasks: Seq<TaskView>,
    pub activated: bool,
    pub defaults_pending: bool,
    pub reason: Option<Seq<char>>,
    pub errors: Seq<Seq<char>>,
}

impl View for State {
    type V = StateView;

    open spec fn view(&self) -> StateView {
        StateView {
            run_id: self.run_id@,
            phase: self.phase,
            deadline: self.deadline,
            sockets: texts(self.sockets@),
            tasks: task_views(self.tasks@),
            activated: self.activated,
            defaults_pending: self.defaults_pending,
            reason: opt_text(self.reason),
            errors: texts(self.errors@),
        }
    }
}

/// A boost that is about to begin.
pub open spec fn preparing_state(
    run_id: Seq<char>,
    deadline: i64,
    sockets: Seq<Seq<char>>,
) -> StateView {
    StateView {
        run_id,
        phase: Phase::Preparing,
        deadline,
        sockets,
        tasks: Seq::empty(),
        activated: false,
        defaults_pending: false,
        reason: None,
        errors: Seq::empty(),
    }
}

impl Task {
    pub fn copy(&self) -> (r: Task)
        ensures
            r@ == self@,
    {
        Task {
            socket: self.socket.clone(),
            thread_id: self.thread_id.clone(),
            child: self.child,
        }
    }
}

/// Copies of tasks.
pub fn copy_tasks(tasks: &Vec<Task>) -> (r: Vec<Task>)
    ensures
        task_views(r@) == task_views(tasks@),
{
    let mut out: Vec<Task> = Vec::new();
    let mut i: usize = 0;
    while i < tasks.len()
        invariant
            i <= tasks.len(),
            task_views(out@) == task_views(tasks@).take(i as int),
        decreases tasks.len() - i,
    {
        let ghost was = out@;
        let task = tasks[i].copy();
        out.push(task);
        i += 1;
        proof {
            assert(task_views(out@) =~= task_views(was).push(tasks@[i - 1]@));
            assert(task_views(out@) =~= task_views(tasks@).take(i as int));
        }
    }
    proof {
        assert(task_views(tasks@).take(i as int) =~= task_views(tasks@));
    }
    out
}

impl State {
    /// A boost that is about to begin.
    pub fn preparing(run_id: &str, deadline: i64, sockets: &Vec<String>) -> (r: State)
        ensures
            r@ == preparing_state(run_id@, deadline, texts(sockets@)),
    {
        let r = State {
            run_id: run_id.to_owned(),
            phase: Phase::Preparing,
            deadline,
            sockets: copy_all(sockets),
            tasks: Vec::new(),
            activated: false,
            defaults_pending: false,
            reason: None,
            errors: Vec::new(),
        };
        proof {
            assert(r@.tasks =~= Seq::empty());
            assert(r@.errors =~= Seq::empty());
        }
        r
    }

    pub fn copy(&self) -> (r: State)
        ensures
            r@ == self@,
    {
        State {
            run_id: self.run_id.clone(),
            phase: self.phase,
            deadline: self.deadline,
            sockets: copy_all(&self.sockets),
            tasks: copy_tasks(&self.tasks),
            activated: self.activated,
            defaults_pending: self.defaults_pending,
            reason: copy_opt(&self.reason),
            errors: copy_all(&self.errors),
        }
    }
}

// ---------------------------------------------------------------- order

/// The names `.` and `..` stand before all others.
pub open spec fn name_rank(name: Seq<char>) -> int {
    if name == "."@ {
        0
    } else if name == ".."@ {
        1
    } else {
        2
    }
}

/// Whether a name stands before another.
pub open spec fn name_before(a: Seq<char>, b: Seq<char>) -> bool {
    if name_rank(a) != name_rank(b) {
        name_rank(a) < name_rank(b)
    } else {
        name_rank(a) == 2 && text_before(a, b)
    }
}

/// Whether names stand before others: by the first in which they differ.
pub open spec fn names_before(a: Seq<Seq<char>>, b: Seq<Seq<char>>) -> bool
    decreases a.len(),
{
    if b.len() == 0 {
        false
    } else if a.len() == 0 {
        true
    } else if a[0] != b[0] {
        name_before(a[0], b[0])
    } else {
        names_before(a.skip(1), b.skip(1))
    }
}

/// Whether a path stands before another: by what they are made of, the root first.
pub open spec fn path_before(a: PathView, b: PathView) -> bool {
    if a.rooted == b.rooted {
        names_before(a.names, b.names)
    } else if a.rooted {
        b.names.len() > 0
    } else {
        a.names.len() == 0
    }
}

/// Whether a task stands before another: by socket, thread, and kind.
pub open spec fn task_before(a: TaskView, b: TaskView) -> bool {
    let x = parts_of(a.socket);
    let y = parts_of(b.socket);
    if x != y {
        path_before(x, y)
    } else if a.thread_id != b.thread_id {
        text_before(a.thread_id, b.thread_id)
    } else {
        !a.child && b.child
    }
}

/// Whether two tasks are one: sockets are compared by what their paths are made of.
pub open spec fn one_task(a: TaskView, b: TaskView) -> bool {
    parts_of(a.socket) == parts_of(b.socket) && a.thread_id == b.thread_id && a.child == b.child
}

fn rank(name: &str) -> (r: u8)
    ensures
        r == name_rank(name@),
{
    if same(name, ".") {
        0
    } else if same(name, "..") {
        1
    } else {
        2
    }
}

fn order_names(a: &Vec<String>, b: &Vec<String>) -> (r: bool)
    ensures
        r == names_before(texts(a@), texts(b@)),
{
    let ghost x = texts(a@);
    let ghost y = texts(b@);
    let mut i: usize = 0;
    proof {
        assert(x.skip(0) =~= x);
        assert(y.skip(0) =~= y);
    }
    loop
        invariant
            i <= a.len(),
            i <= b.len(),
            x == texts(a@),
            y == texts(b@),
            names_before(x, y) == names_before(x.skip(i as int), y.skip(i as int)),
        decreases a.len() - i,
    {
        proof {
            if i < a.len() && i < b.len() {
                assert(x.skip(i as int)[0] == a@[i as int]@);
                assert(y.skip(i as int)[0] == b@[i as int]@);
                assert(x.skip(i as int).skip(1) =~= x.skip(i + 1));
                assert(y.skip(i as int).skip(1) =~= y.skip(i + 1));
            }
        }
        if i == b.len() {
            return false;
        }
        if i == a.len() {
            return true;
        }
        if !same(&a[i], &b[i]) {
            let p = rank(&a[i]);
            let q = rank(&b[i]);
            return if p != q {
                p < q
            } else {
                p == 2 && before(&a[i], &b[i])
            };
        }
        i += 1;
    }
}

fn order_paths(a: &Parts, b: &Parts) -> (r: bool)
    ensures
        r == path_before(a@, b@),
{
    if a.rooted == b.rooted {
        order_names(&a.names, &b.names)
    } else if a.rooted {
        b.names.len() > 0
    } else {
        a.names.len() == 0
    }
}

fn order_tasks(a: &Task, b: &Task) -> (r: bool)
    ensures
        r == task_before(a@, b@),
{
    let x = parts(&a.socket);
    let y = parts(&b.socket);
    if !x.same_as(&y) {
        order_paths(&x, &y)
    } else if !same(&a.thread_id, &b.thread_id) {
        before(&a.thread_id, &b.thread_id)
    } else {
        !a.child && b.child
    }
}

fn is_one(a: &Task, b: &Task) -> (r: bool)
    ensures
        r == one_task(a@, b@),
{
    parts(&a.socket).same_as(&parts(&b.socket)) && same(&a.thread_id, &b.thread_id) && a.child
        == b.child
}

// ---------------------------------------------------------------- sets of tasks

/// Where a task belongs among ordered tasks: after those that stand before it.
pub open spec fn place(tasks: Seq<TaskView>, task: TaskView) -> int
    decreases tasks.len(),
{
    if tasks.len() > 0 && task_before(tasks[0], task) {
        1 + place(tasks.skip(1), task)
    } else {
        0
    }
}

/// Whether a task is among ordered tasks.
pub open spec fn enrolled(tasks: Seq<TaskView>, task: TaskView) -> bool {
    place(tasks, task) < tasks.len() && one_task(tasks[place(tasks, task)], task)
}

/// Ordered tasks with one more, unless it is among them.
pub open spec fn with_task(tasks: Seq<TaskView>, task: TaskView) -> Seq<TaskView> {
    if enrolled(tasks, task) {
        tasks
    } else {
        tasks.insert(place(tasks, task), task)
    }
}

/// Ordered tasks with more.
pub open spec fn with_tasks(tasks: Seq<TaskView>, more: Seq<TaskView>) -> Seq<TaskView>
    decreases more.len(),
{
    if more.len() == 0 {
        tasks
    } else {
        with_task(with_tasks(tasks, more.drop_last()), more.last())
    }
}

/// Ordered tasks without one.
pub open spec fn without_task(tasks: Seq<TaskView>, task: TaskView) -> Seq<TaskView> {
    if enrolled(tasks, task) {
        tasks.remove(place(tasks, task))
    } else {
        tasks
    }
}

/// Whether tasks are in order, none twice.
pub open spec fn ordered(tasks: Seq<TaskView>) -> bool {
    forall|i: int, j: int|
        0 <= i < j < tasks.len() ==> task_before(#[trigger] tasks[i], #[trigger] tasks[j])
}

proof fn lemma_place(tasks: Seq<TaskView>, task: TaskView)
    ensures
        0 <= place(tasks, task) <= tasks.len(),
        forall|i: int| 0 <= i < place(tasks, task) ==> task_before(#[trigger] tasks[i], task),
        place(tasks, task) < tasks.len() ==> !task_before(tasks[place(tasks, task)], task),
    decreases tasks.len(),
{
    if tasks.len() > 0 && task_before(tasks[0], task) {
        let rest = tasks.skip(1);
        lemma_place(rest, task);
        assert forall|i: int| 0 <= i < place(tasks, task) implies task_before(
            #[trigger] tasks[i],
            task,
        ) by {
            if i > 0 {
                assert(rest[i - 1] == tasks[i]);
            }
        }
        if place(tasks, task) < tasks.len() {
            assert(rest[place(rest, task)] == tasks[place(tasks, task)]);
        }
    }
}

fn find_place(tasks: &Vec<Task>, task: &Task) -> (r: usize)
    ensures
        r <= tasks.len(),
        r == place(task_views(tasks@), task@),
{
    let ghost all = task_views(tasks@);
    let mut i: usize = 0;
    proof {
        assert(all.skip(0) =~= all);
    }
    while i < tasks.len() && order_tasks(&tasks[i], task)
        invariant
            i <= tasks.len(),
            all == task_views(tasks@),
            place(all, task@) == i + place(all.skip(i as int), task@),
        decreases tasks.len() - i,
    {
        proof {
            assert(all.skip(i as int)[0] == tasks@[i as int]@);
            assert(all.skip(i as int).skip(1) =~= all.skip(i + 1));
        }
        i += 1;
    }
    proof {
        if i < tasks.len() {
            assert(all.skip(i as int)[0] == tasks@[i as int]@);
        }
    }
    i
}

/// Adds a task to ordered tasks: whether it was not among them.
pub fn insert_task(tasks: &mut Vec<Task>, task: Task) -> (r: bool)
    ensures
        task_views(final(tasks)@) == with_task(task_views(old(tasks)@), task@),
        r == !enrolled(task_views(old(tasks)@), task@),
{
    let i: usize = find_place(tasks, &task);
    if i < tasks.len() && is_one(&tasks[i], &task) {
        return false;
    }
    let ghost was = tasks@;
    let ghost added = task;
    tasks.insert(i, task);
    proof {
        assert(task_views(tasks@) =~= task_views(was).insert(i as int, added@));
    }
    true
}

/// Takes a task out of ordered tasks.
pub fn remove_task(tasks: &mut Vec<Task>, task: &Task)
    ensures
        task_views(final(tasks)@) == without_task(task_views(old(tasks)@), task@),
{
    let i: usize = find_place(tasks, task);
    if i < tasks.len() && is_one(&tasks[i], task) {
        let ghost was = tasks@;
        let _ = tasks.remove(i);
        proof {
            assert(task_views(tasks@) =~= task_views(was).remove(i as int));
        }
    }
}

/// Adds tasks to ordered tasks.
pub fn insert_tasks(tasks: &mut Vec<Task>, more: &Vec<Task>)
    ensures
        task_views(final(tasks)@) == with_tasks(task_views(old(tasks)@), task_views(more@)),
{
    let ghost all = task_views(more@);
    let mut i: usize = 0;
    proof {
        assert(all.take(0) =~= Seq::empty());
    }
    while i < more.len()
        invariant
            i <= more.len(),
            all == task_views(more@),
            task_views(tasks@) == with_tasks(task_views(old(tasks)@), all.take(i as int)),
        decreases more.len() - i,
    {
        proof {
            assert(all.take(i + 1).drop_last() =~= all.take(i as int));
            assert(all.take(i + 1).last() == more@[i as int]@);
        }
        let _ = insert_task(tasks, more[i].copy());
        i += 1;
    }
    proof {
        assert(all.take(i as int) =~= all);
    }
}

// ---------------------------------------------------------------- the order is one

proof fn lemma_chars_differ(x: char, y: char)
    ensures
        x != y ==> x as u32 != y as u32,
{
}

proof fn lemma_text_order(a: Seq<char>, b: Seq<char>, c: Seq<char>)
    ensures
        !text_before(a, a),
        a != b ==> text_before(a, b) || text_before(b, a),
        text_before(a, b) && text_before(b, c) ==> text_before(a, c),
    decreases a.len(),
{
    if a.len() > 0 {
        lemma_text_order(
            a.skip(1),
            if b.len() > 0 {
                b.skip(1)
            } else {
                b
            },
            if c.len() > 0 {
                c.skip(1)
            } else {
                c
            },
        );
        if b.len() > 0 && a[0] != b[0] {
            lemma_chars_differ(a[0], b[0]);
        }
        if b.len() > 0 && a[0] == b[0] && a.skip(1) == b.skip(1) {
            assert(a =~= b) by {
                assert forall|i: int| 0 <= i < a.len() implies a[i] == b[i] by {
                    if i > 0 {
                        assert(a.skip(1)[i - 1] == a[i]);
                        assert(b.skip(1)[i - 1] == b[i]);
                    }
                }
                assert(a.skip(1).len() == b.skip(1).len());
            }
        }
    } else if b.len() == 0 {
        assert(a =~= b);
    }
}

proof fn lemma_name_order(a: Seq<char>, b: Seq<char>, c: Seq<char>)
    ensures
        !name_before(a, a),
        a != b ==> name_before(a, b) || name_before(b, a),
        name_before(a, b) && name_before(b, c) ==> name_before(a, c),
{
    lemma_text_order(a, b, c);
}

proof fn lemma_names_order(a: Seq<Seq<char>>, b: Seq<Seq<char>>, c: Seq<Seq<char>>)
    ensures
        !names_before(a, a),
        a != b ==> names_before(a, b) || names_before(b, a),
        names_before(a, b) && names_before(b, c) ==> names_before(a, c),
    decreases a.len(),
{
    if a.len() > 0 {
        lemma_names_order(
            a.skip(1),
            if b.len() > 0 {
                b.skip(1)
            } else {
                b
            },
            if c.len() > 0 {
                c.skip(1)
            } else {
                c
            },
        );
        if b.len() > 0 {
            lemma_name_order(a[0], b[0], a[0]);
            if c.len() > 0 {
                lemma_name_order(a[0], b[0], c[0]);
                lemma_name_order(b[0], c[0], a[0]);
            }
        }
        if b.len() > 0 && a[0] == b[0] && a.skip(1) == b.skip(1) {
            assert(a =~= b) by {
                assert forall|i: int| 0 <= i < a.len() implies a[i] == b[i] by {
                    if i > 0 {
                        assert(a.skip(1)[i - 1] == a[i]);
                        assert(b.skip(1)[i - 1] == b[i]);
                    }
                }
                assert(a.skip(1).len() == b.skip(1).len());
            }
        }
    } else if b.len() == 0 {
        assert(a =~= b);
    }
}

proof fn lemma_path_order(a: PathView, b: PathView, c: PathView)
    ensures
        !path_before(a, a),
        a != b ==> path_before(a, b) || path_before(b, a),
        path_before(a, b) && path_before(b, c) ==> path_before(a, c),
{
    lemma_names_order(a.names, b.names, c.names);
    lemma_names_order(b.names, c.names, a.names);
}

/// Tasks have one order: no task stands before itself, of two that differ one stands before the
/// other, and what stands before a task stands before all that follow it.
pub proof fn law_task_order(a: TaskView, b: TaskView, c: TaskView)
    ensures
        !task_before(a, a),
        !one_task(a, b) ==> task_before(a, b) || task_before(b, a),
        one_task(a, b) ==> !task_before(a, b) && !task_before(b, a),
        task_before(a, b) && task_before(b, c) ==> task_before(a, c),
{
    let x = parts_of(a.socket);
    let y = parts_of(b.socket);
    let z = parts_of(c.socket);
    lemma_path_order(x, y, z);
    lemma_path_order(y, x, z);
    lemma_text_order(a.thread_id, b.thread_id, c.thread_id);
    lemma_text_order(b.thread_id, a.thread_id, c.thread_id);
}

/// Adding a task keeps the order and puts the task in; taking one out keeps the order and leaves
/// it out.
pub proof fn law_tasks_stay_ordered(tasks: Seq<TaskView>, task: TaskView)
    requires
        ordered(tasks),
    ensures
        ordered(with_task(tasks, task)),
        enrolled(with_task(tasks, task), task),
        ordered(without_task(tasks, task)),
        !enrolled(without_task(tasks, task), task),
{
    let p = place(tasks, task);
    lemma_place(tasks, task);
    if p < tasks.len() {
        law_task_order(tasks[p], task, task);
    }
    let after = with_task(tasks, task);
    if !enrolled(tasks, task) {
        assert forall|i: int, j: int| 0 <= i < j < after.len() implies task_before(
            #[trigger] after[i],
            #[trigger] after[j],
        ) by {
            if j == p {
                assert(after[i] == tasks[i]);
            } else if i == p {
                assert(after[j] == tasks[j - 1]);
                if j - 1 > p {
                    law_task_order(task, tasks[p], tasks[j - 1]);
                }
            } else {
                let a = if i < p {
                    i
                } else {
                    i - 1
                };
                let b = if j < p {
                    j
                } else {
                    j - 1
                };
                assert(after[i] == tasks[a]);
                assert(after[j] == tasks[b]);
            }
        }
        let q = place(after, task);
        lemma_place(after, task);
        law_task_order(task, task, task);
        if q < p {
            assert(task_before(after[q], task)) by {
                assert(after[q] == tasks[q]);
            }
        } else if q > p {
            assert(task_before(after[p], task));
        }
    }
    let less = without_task(tasks, task);
    if enrolled(tasks, task) {
        assert forall|i: int, j: int| 0 <= i < j < less.len() implies task_before(
            #[trigger] less[i],
            #[trigger] less[j],
        ) by {
            let a = if i < p {
                i
            } else {
                i + 1
            };
            let b = if j < p {
                j
            } else {
                j + 1
            };
            assert(less[i] == tasks[a]);
            assert(less[j] == tasks[b]);
        }
        let q = place(less, task);
        lemma_place(less, task);
        if q < less.len() && one_task(less[q], task) {
            let a = if q < p {
                q
            } else {
                q + 1
            };
            assert(less[q] == tasks[a]);
            law_task_order(tasks[a], tasks[p], task);
            law_task_order(tasks[p], tasks[a], task);
            if a < p {
                assert(task_before(tasks[a], tasks[p]));
            } else {
                assert(task_before(tasks[p], tasks[a]));
            }
        }
    }
}

// ---------------------------------------------------------------- files

/// The directory of a boost's files.
pub open spec fn boost_dir(config: Config) -> Seq<char> {
    joined(config.account_store@, "boost"@)
}

pub open spec fn state_path(config: Config) -> Seq<char> {
    joined(boost_dir(config), "state.json"@)
}

pub open spec fn lock_path(config: Config) -> Seq<char> {
    joined(boost_dir(config), "controller.lock"@)
}

pub open spec fn stop_path(config: Config) -> Seq<char> {
    joined(boost_dir(config), "stop"@)
}

pub open spec fn log_path(config: Config) -> Seq<char> {
    joined(boost_dir(config), "controller.log"@)
}

/// The files of a boost.
pub struct Files {
    pub state: String,
    pub lock: String,
    pub stop: String,
    pub log: String,
}

impl Files {
    /// Whether these are the files under a configuration.
    pub open spec fn of(&self, config: Config) -> bool {
        &&& self.state@ == state_path(config)
        &&& self.lock@ == lock_path(config)
        &&& self.stop@ == stop_path(config)
        &&& self.log@ == log_path(config)
    }

    pub fn new(config: &Config) -> (r: Files)
        ensures
            r.of(*config),
    {
        let directory = join(&config.account_store, "boost");
        Files {
            state: join(&directory, "state.json"),
            lock: join(&directory, "controller.lock"),
            stop: join(&directory, "stop"),
            log: join(&directory, "controller.log"),
        }
    }
}

// ---------------------------------------------------------------- sockets

/// Where a path belongs among ordered paths.
pub open spec fn path_place(paths: Seq<Seq<char>>, path: Seq<char>) -> int
    decreases paths.len(),
{
    if paths.len() > 0 && path_before(parts_of(paths[0]), parts_of(path)) {
        1 + path_place(paths.skip(1), path)
    } else {
        0
    }
}

/// Ordered paths with one more, unless it is among them.
pub open spec fn with_path(paths: Seq<Seq<char>>, path: Seq<char>) -> Seq<Seq<char>> {
    let p = path_place(paths, path);
    if p < paths.len() && parts_of(paths[p]) == parts_of(path) {
        paths
    } else {
        paths.insert(p, path)
    }
}

/// Paths in order, none twice.
pub open spec fn sorted_paths(paths: Seq<Seq<char>>) -> Seq<Seq<char>>
    decreases paths.len(),
{
    if paths.len() == 0 {
        Seq::empty()
    } else {
        with_path(sorted_paths(paths.drop_last()), paths.last())
    }
}

/// The sockets that a boost covers: those given, or the usual one.
pub open spec fn chosen_sockets(config: Config, values: Seq<Seq<char>>) -> Seq<Seq<char>> {
    if values.len() == 0 {
        seq![joined(config.codex_home@, "app-server-control/app-server-control.sock"@)]
    } else {
        values
    }
}

pub open spec fn all_rooted(paths: Seq<Seq<char>>) -> bool {
    forall|i: int| 0 <= i < paths.len() ==> rooted(#[trigger] paths[i])
}

fn insert_path(paths: &mut Vec<String>, path: &str)
    ensures
        texts(final(paths)@) == with_path(texts(old(paths)@), path@),
{
    let ghost all = texts(paths@);
    let wanted = parts(path);
    let mut i: usize = 0;
    proof {
        assert(all.skip(0) =~= all);
    }
    while i < paths.len() && order_paths(&parts(&paths[i]), &wanted)
        invariant
            i <= paths.len(),
            paths@ == old(paths)@,
            all == texts(paths@),
            wanted@ == parts_of(path@),
            path_place(all, path@) == i + path_place(all.skip(i as int), path@),
        decreases paths.len() - i,
    {
        proof {
            assert(all.skip(i as int)[0] == paths@[i as int]@);
            assert(all.skip(i as int).skip(1) =~= all.skip(i + 1));
        }
        i += 1;
    }
    proof {
        if i < paths.len() {
            assert(all.skip(i as int)[0] == paths@[i as int]@);
        }
    }
    if i < paths.len() && parts(&paths[i]).same_as(&wanted) {
        return;
    }
    let ghost was = paths@;
    let text = path.to_owned();
    paths.insert(i, text);
    proof {
        assert(texts(paths@) =~= texts(was).insert(i as int, path@));
    }
}

/// The sockets that a boost covers, in order and none twice: those given, or the usual one. All
/// of them have to be absolute.
pub fn sockets(config: &Config, values: &Vec<String>) -> (r: Result<Vec<String>, Error>)
    ensures
        ({
            let chosen = chosen_sockets(*config, texts(values@));
            match r {
                Ok(paths) => all_rooted(chosen) && texts(paths@) == sorted_paths(chosen),
                Err(error) => !all_rooted(chosen) && error@ == ErrorView::Message(
                    "Boost socket paths must be absolute."@,
                ),
            }
        }),
{
    let mut chosen = copy_all(values);
    if values.len() == 0 {
        chosen.push(join(&config.codex_home, "app-server-control/app-server-control.sock"));
    }
    let ghost all = chosen_sockets(*config, texts(values@));
    proof {
        assert(texts(chosen@) =~= all);
    }
    let mut unique: Vec<String> = Vec::new();
    let mut i: usize = 0;
    proof {
        assert(all.take(0) =~= Seq::empty());
        assert(texts(unique@) =~= Seq::empty());
    }
    while i < chosen.len()
        invariant
            i <= chosen.len(),
            all == texts(chosen@),
            all == chosen_sockets(*config, texts(values@)),
            texts(unique@) == sorted_paths(all.take(i as int)),
            forall|k: int| 0 <= k < i ==> rooted(#[trigger] all[k]),
        decreases chosen.len() - i,
    {
        assert(all[i as int] == chosen@[i as int]@);
        if !is_absolute(&chosen[i]) {
            return Err(Error::message("Boost socket paths must be absolute."));
        }
        proof {
            assert(all.take(i + 1).drop_last() =~= all.take(i as int));
            assert(all.take(i + 1).last() == chosen@[i as int]@);
        }
        insert_path(&mut unique, &chosen[i]);
        i += 1;
    }
    proof {
        assert(all.take(i as int) =~= all);
    }
    Ok(unique)
}

proof fn lemma_path_place(paths: Seq<Seq<char>>, path: Seq<char>)
    ensures
        0 <= path_place(paths, path) <= paths.len(),
        forall|i: int|
            0 <= i < path_place(paths, path) ==> path_before(
                parts_of(#[trigger] paths[i]),
                parts_of(path),
            ),
        path_place(paths, path) < paths.len() ==> !path_before(
            parts_of(paths[path_place(paths, path)]),
            parts_of(path),
        ),
    decreases paths.len(),
{
    if paths.len() > 0 && path_before(parts_of(paths[0]), parts_of(path)) {
        let rest = paths.skip(1);
        lemma_path_place(rest, path);
        assert forall|i: int| 0 <= i < path_place(paths, path) implies path_before(
            parts_of(#[trigger] paths[i]),
            parts_of(path),
        ) by {
            if i > 0 {
                assert(rest[i - 1] == paths[i]);
            }
        }
        if path_place(paths, path) < paths.len() {
            assert(rest[path_place(rest, path)] == paths[path_place(paths, path)]);
        }
    }
}

/// Whether paths stand in strict order: none twice.
pub open spec fn ascending(paths: Seq<Seq<char>>) -> bool {
    forall|i: int, j: int|
        0 <= i < j < paths.len() ==> path_before(
            parts_of(#[trigger] paths[i]),
            parts_of(#[trigger] paths[j]),
        )
}

/// Whether a path is among others; what the paths are made of is compared.
pub open spec fn holds_path(paths: Seq<Seq<char>>, path: Seq<char>) -> bool {
    exists|i: int| 0 <= i < paths.len() && parts_of(#[trigger] paths[i]) == parts_of(path)
}

proof fn lemma_with_path(paths: Seq<Seq<char>>, path: Seq<char>, other: Seq<char>)
    requires
        ascending(paths),
    ensures
        ascending(with_path(paths, path)),
        holds_path(with_path(paths, path), other) <==> holds_path(paths, other) || parts_of(path)
            == parts_of(other),
        with_path(paths, path).contains(other) ==> paths.contains(other) || other == path,
{
    let p = path_place(paths, path);
    let after = with_path(paths, path);
    lemma_path_place(paths, path);
    if p < paths.len() && parts_of(paths[p]) == parts_of(path) {
    } else {
        assert forall|i: int, j: int| 0 <= i < j < after.len() implies path_before(
            parts_of(#[trigger] after[i]),
            parts_of(#[trigger] after[j]),
        ) by {
            let a = if i < p {
                i
            } else {
                i - 1
            };
            let b = if j < p {
                j
            } else {
                j - 1
            };
            if j == p {
                assert(after[i] == paths[i]);
            } else if i == p {
                assert(after[j] == paths[j - 1]);
                lemma_path_order(parts_of(path), parts_of(paths[p]), parts_of(paths[j - 1]));
                lemma_path_order(parts_of(paths[p]), parts_of(path), parts_of(path));
                if j - 1 > p {
                    assert(path_before(parts_of(paths[p]), parts_of(paths[j - 1])));
                }
            } else {
                assert(after[i] == paths[a] && after[j] == paths[b]);
            }
        }
        assert(after[p] == path);
        if holds_path(paths, other) {
            let i = choose|i: int|
                0 <= i < paths.len() && parts_of(#[trigger] paths[i]) == parts_of(other);
            let k = if i < p {
                i
            } else {
                i + 1
            };
            assert(after[k] == paths[i]);
        }
        if holds_path(after, other) {
            let i = choose|i: int|
                0 <= i < after.len() && parts_of(#[trigger] after[i]) == parts_of(other);
            if i < p {
                assert(after[i] == paths[i]);
            } else if i > p {
                assert(after[i] == paths[i - 1]);
            }
        }
        if after.contains(other) {
            let i = after.index_of(other);
            if i < p {
                assert(after[i] == paths[i]);
            } else if i > p {
                assert(after[i] == paths[i - 1]);
            }
        }
    }
}

/// Sorted paths stand in strict order, each of them is one of those given, and each of those given
/// is among them.
pub proof fn law_sockets_are_sorted(paths: Seq<Seq<char>>)
    ensures
        ascending(sorted_paths(paths)),
        forall|path: Seq<char>|
            holds_path(sorted_paths(paths), path) <==> #[trigger] holds_path(paths, path),
        forall|path: Seq<char>| #[trigger]
            sorted_paths(paths).contains(path) ==> paths.contains(path),
    decreases paths.len(),
{
    if paths.len() > 0 {
        let rest = paths.drop_last();
        law_sockets_are_sorted(rest);
        lemma_with_path(sorted_paths(rest), paths.last(), paths.last());
        assert forall|path: Seq<char>|
            holds_path(sorted_paths(paths), path) <==> #[trigger] holds_path(paths, path) by {
            lemma_with_path(sorted_paths(rest), paths.last(), path);
            assert(holds_path(rest, path) <==> holds_path(sorted_paths(rest), path));
            if holds_path(rest, path) {
                let i = choose|i: int|
                    0 <= i < rest.len() && parts_of(#[trigger] rest[i]) == parts_of(path);
                assert(paths[i] == rest[i]);
            }
            if parts_of(paths.last()) == parts_of(path) {
                assert(paths[paths.len() - 1] == paths.last());
            }
            if holds_path(paths, path) {
                let i = choose|i: int|
                    0 <= i < paths.len() && parts_of(#[trigger] paths[i]) == parts_of(path);
                if i < rest.len() {
                    assert(rest[i] == paths[i]);
                }
            }
        }
        assert forall|path: Seq<char>| #[trigger]
            sorted_paths(paths).contains(path) implies paths.contains(path) by {
            lemma_with_path(sorted_paths(rest), paths.last(), path);
            if rest.contains(path) {
                assert(paths[rest.index_of(path)] == path);
            } else {
                assert(paths[paths.len() - 1] == path);
            }
        }
    }
}

}
