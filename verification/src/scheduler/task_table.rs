//! The tasks that are stored: each belongs to a conversation, and no other conversation sees it.

use vstd::prelude::*;

use crate::scheduler::model::ScheduledTask;
use crate::scheduler::service::{claim_scheduled_task, ClaimedTask, PlannedTask};
use crate::text::{
    is_before, lemma_text_before_strict, lemma_text_not_before_transitive, same_text, text_before,
};

verus! {

/// Whether a task belongs to a conversation.
pub open spec fn belongs_to(task: ScheduledTask, source: Seq<char>, conversation: Seq<char>) -> bool {
    task.source@ == source && task.source_conversation_id@ == conversation
}

/// Whether a task has an id and belongs to a conversation.
pub open spec fn is_task(
    task: ScheduledTask,
    source: Seq<char>,
    conversation: Seq<char>,
    id: Seq<char>,
) -> bool {
    task.id@ == id && belongs_to(task, source, conversation)
}

/// Whether no two tasks have the same id.
pub open spec fn ids_differ(tasks: Seq<ScheduledTask>) -> bool {
    forall|i: int, j: int|
        0 <= i < j < tasks.len() ==> (#[trigger] tasks[i]).id@ != (#[trigger] tasks[j]).id@
}

/// Whether there is a task with an id.
pub open spec fn has_id(tasks: Seq<ScheduledTask>, id: Seq<char>) -> bool {
    exists|i: int| 0 <= i < tasks.len() && (#[trigger] tasks[i]).id@ == id
}

/// Whether a conversation has a task with an id.
pub open spec fn has_task(
    tasks: Seq<ScheduledTask>,
    source: Seq<char>,
    conversation: Seq<char>,
    id: Seq<char>,
) -> bool {
    exists|i: int|
        0 <= i < tasks.len() && is_task(#[trigger] tasks[i], source, conversation, id)
}

/// Whether there is a task with an id that runs next at a point in time.
pub open spec fn runs_at(tasks: Seq<ScheduledTask>, id: Seq<char>, timestamp: i64) -> bool {
    exists|i: int|
        0 <= i < tasks.len() && (#[trigger] tasks[i]).id@ == id && tasks[i].next_run_at == timestamp
}

/// The tasks of a conversation, in the order in which they are stored.
pub open spec fn of_conversation(
    tasks: Seq<ScheduledTask>,
    source: Seq<char>,
    conversation: Seq<char>,
) -> Seq<ScheduledTask>
    decreases tasks.len(),
{
    if tasks.len() == 0 {
        Seq::empty()
    } else {
        let front = of_conversation(tasks.drop_last(), source, conversation);
        if belongs_to(tasks.last(), source, conversation) {
            front.push(tasks.last())
        } else {
            front
        }
    }
}

/// The tasks that are due by a point in time, in the order in which they are stored.
pub open spec fn due_by(tasks: Seq<ScheduledTask>, now: i64) -> Seq<ScheduledTask>
    decreases tasks.len(),
{
    if tasks.len() == 0 {
        Seq::empty()
    } else {
        let front = due_by(tasks.drop_last(), now);
        if tasks.last().next_run_at <= now {
            front.push(tasks.last())
        } else {
            front
        }
    }
}

/// Whether a task runs before another; of two that run at the same time, the one with the smaller id.
pub open spec fn runs_before(a: ScheduledTask, b: ScheduledTask) -> bool {
    a.next_run_at < b.next_run_at || (a.next_run_at == b.next_run_at && text_before(a.id@, b.id@))
}

/// Ordered tasks with one more, behind those that do not run after it.
pub open spec fn task_inserted(sorted: Seq<ScheduledTask>, task: ScheduledTask) -> Seq<ScheduledTask>
    decreases sorted.len(),
{
    if sorted.len() == 0 || !runs_before(task, sorted.last()) {
        sorted.push(task)
    } else {
        task_inserted(sorted.drop_last(), task).push(sorted.last())
    }
}

/// Tasks in the order in which they run.
pub open spec fn tasks_in_order(tasks: Seq<ScheduledTask>) -> Seq<ScheduledTask>
    decreases tasks.len(),
{
    if tasks.len() == 0 {
        Seq::empty()
    } else {
        task_inserted(tasks_in_order(tasks.drop_last()), tasks.last())
    }
}

fn put_in_order(tasks: Vec<ScheduledTask>) -> (r: Vec<ScheduledTask>)
    ensures
        r@ == tasks_in_order(tasks@),
{
    let ghost all = tasks@;
    let mut rest = tasks;
    let mut sorted: Vec<ScheduledTask> = Vec::new();
    let ghost mut done: int = 0;
    assert(all.take(0) =~= Seq::empty());
    assert(all.skip(0) =~= all);
    while rest.len() > 0
        invariant
            0 <= done <= all.len(),
            rest@ == all.skip(done),
            sorted@ == tasks_in_order(all.take(done)),
        decreases rest@.len(),
    {
        let task = rest.remove(0);
        let ghost before = sorted@;
        let mut at: usize = sorted.len();
        while at > 0 && (task.next_run_at < sorted[at - 1].next_run_at || (task.next_run_at
            == sorted[at - 1].next_run_at && is_before(&task.id, &sorted[at - 1].id)))
            invariant
                at <= sorted@.len(),
                before == sorted@,
                forall|j: int| at <= j < before.len() ==> runs_before(task, #[trigger] before[j]),
            decreases at,
        {
            at -= 1;
        }
        proof {
            lemma_task_inserted_at(before, task, at as int);
            assert(all.take(done + 1).drop_last() =~= all.take(done));
            assert(all.take(done + 1).last() == task);
            assert(all.skip(done).remove(0) =~= all.skip(done + 1));
            done = done + 1;
        }
        sorted.insert(at, task);
    }
    assert(all.take(done) =~= all);
    sorted
}

/// Tasks after one of a conversation was planned anew.
pub open spec fn replanned(
    before: Seq<ScheduledTask>,
    after: Seq<ScheduledTask>,
    source: Seq<char>,
    conversation: Seq<char>,
    id: Seq<char>,
    plan: PlannedTask,
    now: i64,
) -> bool {
    after.len() == before.len() && forall|i: int|
        0 <= i < before.len() ==> #[trigger] after[i] == if is_task(
            before[i],
            source,
            conversation,
            id,
        ) {
            ScheduledTask {
                title: plan.title,
                schedule: plan.schedule,
                instruction: plan.instruction,
                next_run_at: plan.next_run_at,
                updated_at: now,
                ..before[i]
            }
        } else {
            before[i]
        }
}

/// Tasks without those of a conversation that have an id.
pub open spec fn without_task(
    tasks: Seq<ScheduledTask>,
    source: Seq<char>,
    conversation: Seq<char>,
    id: Seq<char>,
) -> Seq<ScheduledTask>
    decreases tasks.len(),
{
    if tasks.len() == 0 {
        Seq::empty()
    } else {
        let front = without_task(tasks.drop_last(), source, conversation, id);
        if is_task(tasks.last(), source, conversation, id) {
            front
        } else {
            front.push(tasks.last())
        }
    }
}

/// Tasks after one with an id was claimed at its time: it waits for its next run, or is taken out
/// where it has none.
pub open spec fn claimed(
    before: Seq<ScheduledTask>,
    after: Seq<ScheduledTask>,
    id: Seq<char>,
    following: Option<i64>,
    now: i64,
) -> bool {
    exists|i: int|
        0 <= i < before.len() && (#[trigger] before[i]).id@ == id && after == match following {
            Some(next) => before.update(
                i,
                ScheduledTask {
                    next_run_at: next,
                    last_triggered_at: Some(before[i].next_run_at),
                    updated_at: now,
                    ..before[i]
                },
            ),
            None => before.remove(i),
        }
}

/// The tasks that are stored.
#[derive(Debug, PartialEq, Eq)]
pub struct TaskTable {
    tasks: Vec<ScheduledTask>,
}

impl View for TaskTable {
    /// The tasks, in the order in which they are stored.
    type V = Seq<ScheduledTask>;

    closed spec fn view(&self) -> Seq<ScheduledTask> {
        self.tasks@
    }
}

impl TaskTable {
    #[verifier::type_invariant]
    closed spec fn fits(self) -> bool {
        ids_differ(self.tasks@)
    }

    /// No tasks.
    pub fn new() -> (r: TaskTable)
        ensures
            r@ == Seq::<ScheduledTask>::empty(),
    {
        TaskTable { tasks: Vec::new() }
    }

    fn position(&self, id: &str) -> (r: Option<usize>)
        ensures
            match r {
                Some(at) => at < self@.len() && self@[at as int].id@ == id@ && forall|j: int|
                    0 <= j < self@.len() && (#[trigger] self@[j]).id@ == id@ ==> j == at,
                None => !has_id(self@, id@),
            },
    {
        proof {
            use_type_invariant(self);
        }
        let mut i: usize = 0;
        while i < self.tasks.len()
            invariant
                i <= self.tasks@.len(),
                ids_differ(self.tasks@),
                forall|j: int| 0 <= j < i ==> (#[trigger] self.tasks@[j]).id@ != id@,
            decreases self.tasks@.len() - i,
        {
            if same_text(&self.tasks[i].id, id) {
                assert forall|j: int| 0 <= j < self@.len() && (#[trigger] self@[j]).id@
                    == id@ implies j == i by {
                    if i < j {
                        assert(self.tasks@[i as int].id@ != self.tasks@[j].id@);
                    }
                }
                return Some(i);
            }
            i += 1;
        }
        None
    }

    fn position_in(&self, source: &str, conversation: &str, id: &str) -> (r: Option<usize>)
        ensures
            match r {
                Some(at) => at < self@.len() && is_task(
                    self@[at as int],
                    source@,
                    conversation@,
                    id@,
                ) && forall|j: int|
                    0 <= j < self@.len() && is_task(
                        #[trigger] self@[j],
                        source@,
                        conversation@,
                        id@,
                    ) ==> j == at,
                None => !has_task(self@, source@, conversation@, id@),
            },
    {
        match self.position(id) {
            Some(at) => {
                if same_text(&self.tasks[at].source, source) && same_text(
                    &self.tasks[at].source_conversation_id,
                    conversation,
                ) {
                    Some(at)
                } else {
                    None
                }
            },
            None => None,
        }
    }

    /// Stores a task, unless there is one with its id; tells whether it was stored.
    pub fn insert_scheduled_task(&mut self, task: ScheduledTask) -> (r: bool)
        ensures
            r == !has_id(old(self)@, task.id@),
            final(self)@ == if r {
                old(self)@.push(task)
            } else {
                old(self)@
            },
    {
        proof {
            use_type_invariant(&*self);
        }
        if self.position(&task.id).is_some() {
            return false;
        }
        let mut tasks: Vec<ScheduledTask> = Vec::new();
        std::mem::swap(&mut tasks, &mut self.tasks);
        tasks.push(task);
        assert(ids_differ(tasks@));
        self.tasks = tasks;
        true
    }

    /// The task with an id, whichever conversation it belongs to.
    pub fn stored_task(&self, id: &str) -> (r: Option<&ScheduledTask>)
        ensures
            match r {
                Some(task) => self@.contains(*task) && task.id@ == id@,
                None => !has_id(self@, id@),
            },
    {
        match self.position(id) {
            Some(at) => {
                assert(self@[at as int] == self.tasks@[at as int]);
                Some(&self.tasks[at])
            },
            None => None,
        }
    }

    /// The task of a conversation with an id.
    pub fn get_scheduled_task(&self, source: &str, conversation: &str, id: &str) -> (r: Option<
        ScheduledTask,
    >)
        ensures
            match r {
                Some(task) => self@.contains(task) && is_task(task, source@, conversation@, id@),
                None => !has_task(self@, source@, conversation@, id@),
            },
    {
        match self.position_in(source, conversation, id) {
            Some(at) => {
                assert(self@[at as int] == self.tasks@[at as int]);
                Some(self.tasks[at].clone())
            },
            None => None,
        }
    }

    /// The tasks of a conversation, in the order in which they run.
    pub fn get_running_scheduled_tasks(&self, source: &str, conversation: &str) -> (r: Vec<
        ScheduledTask,
    >)
        ensures
            r@ == tasks_in_order(of_conversation(self@, source@, conversation@)),
    {
        let ghost all = self@;
        let mut found: Vec<ScheduledTask> = Vec::new();
        let mut i: usize = 0;
        assert(all.take(0) =~= Seq::empty());
        while i < self.tasks.len()
            invariant
                i <= self.tasks@.len(),
                all == self.tasks@,
                found@ == of_conversation(all.take(i as int), source@, conversation@),
            decreases self.tasks@.len() - i,
        {
            assert(all.take(i + 1).drop_last() =~= all.take(i as int));
            if same_text(&self.tasks[i].source, source) && same_text(
                &self.tasks[i].source_conversation_id,
                conversation,
            ) {
                found.push(self.tasks[i].clone());
            }
            i += 1;
        }
        assert(all.take(i as int) =~= all);
        put_in_order(found)
    }

    /// The tasks that are due by a point in time, in the order in which they run.
    pub fn get_due_scheduled_tasks(&self, now: i64) -> (r: Vec<ScheduledTask>)
        ensures
            r@ == tasks_in_order(due_by(self@, now)),
    {
        let ghost all = self@;
        let mut found: Vec<ScheduledTask> = Vec::new();
        let mut i: usize = 0;
        assert(all.take(0) =~= Seq::empty());
        while i < self.tasks.len()
            invariant
                i <= self.tasks@.len(),
                all == self.tasks@,
                found@ == due_by(all.take(i as int), now),
            decreases self.tasks@.len() - i,
        {
            assert(all.take(i + 1).drop_last() =~= all.take(i as int));
            if self.tasks[i].next_run_at <= now {
                found.push(self.tasks[i].clone());
            }
            i += 1;
        }
        assert(all.take(i as int) =~= all);
        put_in_order(found)
    }

    /// When a task runs next, where there is one.
    pub fn next_scheduled_task_timestamp(&self) -> (r: Option<i64>)
        ensures
            match r {
                Some(next) => (exists|i: int|
                    0 <= i < self@.len() && (#[trigger] self@[i]).next_run_at == next) && forall|
                    i: int,
                |
                    0 <= i < self@.len() ==> next <= (#[trigger] self@[i]).next_run_at,
                None => self@.len() == 0,
            },
    {
        if self.tasks.len() == 0 {
            return None;
        }
        let mut next: i64 = self.tasks[0].next_run_at;
        let mut i: usize = 1;
        assert(self.tasks@[0].next_run_at == next);
        while i < self.tasks.len()
            invariant
                1 <= i <= self.tasks@.len(),
                exists|j: int| 0 <= j < i && (#[trigger] self.tasks@[j]).next_run_at == next,
                forall|j: int| 0 <= j < i ==> next <= (#[trigger] self.tasks@[j]).next_run_at,
            decreases self.tasks@.len() - i,
        {
            if self.tasks[i].next_run_at < next {
                next = self.tasks[i].next_run_at;
                assert(self.tasks@[i as int].next_run_at == next);
            }
            i += 1;
        }
        Some(next)
    }

    /// Plans a task of a conversation anew; tells whether there is one.
    pub fn update_scheduled_task(
        &mut self,
        source: &str,
        conversation: &str,
        id: &str,
        plan: PlannedTask,
        now: i64,
    ) -> (r: bool)
        ensures
            r == has_task(old(self)@, source@, conversation@, id@),
            replanned(old(self)@, final(self)@, source@, conversation@, id@, plan, now),
    {
        proof {
            use_type_invariant(&*self);
        }
        let ghost before = self.tasks@;
        let at = match self.position_in(source, conversation, id) {
            Some(at) => at,
            None => {
                return false;
            },
        };
        let mut tasks: Vec<ScheduledTask> = Vec::new();
        std::mem::swap(&mut tasks, &mut self.tasks);
        let task = tasks.remove(at);
        let changed = ScheduledTask {
            title: plan.title,
            schedule: plan.schedule,
            instruction: plan.instruction,
            next_run_at: plan.next_run_at,
            updated_at: now,
            ..task
        };
        tasks.insert(at, changed);
        assert(tasks@ =~= before.update(at as int, changed));
        assert(ids_differ(tasks@));
        self.tasks = tasks;
        assert(is_task(before[at as int], source@, conversation@, id@));
        true
    }

    /// Takes a task of a conversation out; tells whether there was one.
    pub fn delete_scheduled_task(&mut self, source: &str, conversation: &str, id: &str) -> (r: bool)
        ensures
            r == has_task(old(self)@, source@, conversation@, id@),
            final(self)@ == without_task(old(self)@, source@, conversation@, id@),
    {
        proof {
            use_type_invariant(&*self);
        }
        let ghost before = self.tasks@;
        let at = match self.position_in(source, conversation, id) {
            Some(at) => at,
            None => {
                proof {
                    lemma_none_taken_out(before, source@, conversation@, id@);
                }
                return false;
            },
        };
        let mut tasks: Vec<ScheduledTask> = Vec::new();
        std::mem::swap(&mut tasks, &mut self.tasks);
        tasks.remove(at);
        proof {
            lemma_one_taken_out(before, source@, conversation@, id@, at as int);
            assert(ids_differ(tasks@));
            assert(is_task(before[at as int], source@, conversation@, id@));
        }
        self.tasks = tasks;
        true
    }

    /// Claims a task that was read to be due at a point in time, and tells whether it was still due
    /// then. A task that was changed meanwhile is left as it is.
    pub fn claim_scheduled_task(
        &mut self,
        id: &str,
        expected: i64,
        following: Option<i64>,
        now: i64,
    ) -> (r: bool)
        ensures
            r == runs_at(old(self)@, id@, expected),
            if r {
                claimed(old(self)@, final(self)@, id@, following, now)
            } else {
                final(self)@ == old(self)@
            },
    {
        proof {
            use_type_invariant(&*self);
        }
        let ghost before = self.tasks@;
        let at = match self.position(id) {
            Some(at) => at,
            None => {
                return false;
            },
        };
        let outcome = claim_scheduled_task(Some(self.tasks[at].next_run_at), expected, following);
        if let ClaimedTask::Refused = outcome {
            return false;
        }
        assert(before[at as int].next_run_at == expected);
        let mut tasks: Vec<ScheduledTask> = Vec::new();
        std::mem::swap(&mut tasks, &mut self.tasks);
        let task = tasks.remove(at);
        if let ClaimedTask::Kept { next_run_at, last_triggered_at } = outcome {
            let changed = ScheduledTask {
                next_run_at,
                last_triggered_at: Some(last_triggered_at),
                updated_at: now,
                ..task
            };
            tasks.insert(at, changed);
            assert(tasks@ =~= before.update(at as int, changed));
        }
        assert(ids_differ(tasks@));
        self.tasks = tasks;
        true
    }
}

proof fn lemma_task_inserted_at(sorted: Seq<ScheduledTask>, task: ScheduledTask, at: int)
    requires
        0 <= at <= sorted.len(),
        at > 0 ==> !runs_before(task, sorted[at - 1]),
        forall|i: int| at <= i < sorted.len() ==> runs_before(task, #[trigger] sorted[i]),
    ensures
        task_inserted(sorted, task) =~= sorted.insert(at, task),
    decreases sorted.len(),
{
    if at < sorted.len() {
        let front = sorted.drop_last();
        assert forall|i: int| at <= i < front.len() implies runs_before(task, #[trigger] front[i]) by {
            assert(front[i] == sorted[i]);
        }
        lemma_task_inserted_at(front, task, at);
    } else {
        assert(sorted.insert(at, task) =~= sorted.push(task));
    }
}

proof fn lemma_none_taken_out(
    tasks: Seq<ScheduledTask>,
    source: Seq<char>,
    conversation: Seq<char>,
    id: Seq<char>,
)
    requires
        !has_task(tasks, source, conversation, id),
    ensures
        without_task(tasks, source, conversation, id) =~= tasks,
    decreases tasks.len(),
{
    if tasks.len() > 0 {
        let front = tasks.drop_last();
        assert forall|i: int| 0 <= i < front.len() implies !is_task(
            #[trigger] front[i],
            source,
            conversation,
            id,
        ) by {
            assert(front[i] == tasks[i]);
        }
        assert(!is_task(tasks[tasks.len() - 1], source, conversation, id));
        lemma_none_taken_out(front, source, conversation, id);
    }
}

proof fn lemma_one_taken_out(
    tasks: Seq<ScheduledTask>,
    source: Seq<char>,
    conversation: Seq<char>,
    id: Seq<char>,
    at: int,
)
    requires
        0 <= at < tasks.len(),
        is_task(tasks[at], source, conversation, id),
        forall|i: int|
            0 <= i < tasks.len() && is_task(#[trigger] tasks[i], source, conversation, id) ==> i
                == at,
    ensures
        without_task(tasks, source, conversation, id) =~= tasks.remove(at),
    decreases tasks.len(),
{
    let front = tasks.drop_last();
    assert forall|i: int|
        0 <= i < front.len() && is_task(#[trigger] front[i], source, conversation, id) implies i
        == at by {
        assert(front[i] == tasks[i]);
    }
    if at == tasks.len() - 1 {
        lemma_none_taken_out(front, source, conversation, id);
    } else {
        assert(!is_task(tasks[tasks.len() - 1], source, conversation, id));
        lemma_one_taken_out(front, source, conversation, id, at);
    }
}

proof fn lemma_runs_before(a: ScheduledTask, b: ScheduledTask, c: ScheduledTask)
    ensures
        runs_before(a, b) ==> !runs_before(b, a),
        !runs_before(b, a) && runs_before(c, a) ==> runs_before(c, b),
{
    lemma_text_before_strict(a.id@, b.id@);
    lemma_text_not_before_transitive(a.id@, b.id@, c.id@);
}

/// Whether no task runs before one that stands ahead of it.
pub open spec fn tasks_ordered(tasks: Seq<ScheduledTask>) -> bool {
    forall|i: int, j: int|
        0 <= i < j < tasks.len() ==> !runs_before(#[trigger] tasks[j], #[trigger] tasks[i])
}

proof fn lemma_inserted_in_order(sorted: Seq<ScheduledTask>, task: ScheduledTask)
    requires
        tasks_ordered(sorted),
    ensures
        tasks_ordered(task_inserted(sorted, task)),
        task_inserted(sorted, task).to_multiset() =~= sorted.to_multiset().insert(task),
        forall|i: int|
            0 <= i < task_inserted(sorted, task).len() ==> #[trigger] task_inserted(sorted, task)[i]
                == task || sorted.contains(task_inserted(sorted, task)[i]),
    decreases sorted.len(),
{
    broadcast use vstd::seq_lib::group_to_multiset_ensures;

    let r = task_inserted(sorted, task);
    if sorted.len() == 0 || !runs_before(task, sorted.last()) {
        assert forall|i: int, j: int| 0 <= i < j < r.len() implies !runs_before(
            #[trigger] r[j],
            #[trigger] r[i],
        ) by {
            if j == sorted.len() && i < sorted.len() - 1 {
                assert(!runs_before(sorted[sorted.len() - 1], sorted[i]));
                lemma_runs_before(sorted[i], sorted.last(), task);
            }
        }
        assert forall|i: int| 0 <= i < r.len() implies #[trigger] r[i] == task
            || sorted.contains(r[i]) by {
            if i < sorted.len() {
                assert(sorted[i] == r[i]);
            }
        }
    } else {
        let front = sorted.drop_last();
        let last = sorted.last();
        assert(tasks_ordered(front)) by {
            assert forall|i: int, j: int| 0 <= i < j < front.len() implies !runs_before(
                #[trigger] front[j],
                #[trigger] front[i],
            ) by {
                assert(!runs_before(sorted[j], sorted[i]));
            }
        }
        lemma_inserted_in_order(front, task);
        let part = task_inserted(front, task);
        assert(r == part.push(last));
        assert(sorted =~= front.push(last));
        assert forall|i: int, j: int| 0 <= i < j < r.len() implies !runs_before(
            #[trigger] r[j],
            #[trigger] r[i],
        ) by {
            if j == part.len() {
                if part[i] == task {
                    lemma_runs_before(task, last, task);
                } else {
                    assert(front.contains(part[i]));
                    let k = choose|k: int| 0 <= k < front.len() && front[k] == part[i];
                    assert(!runs_before(sorted[sorted.len() - 1], sorted[k]));
                }
            } else {
                assert(!runs_before(part[j], part[i]));
            }
        }
        assert forall|i: int| 0 <= i < r.len() implies #[trigger] r[i] == task
            || sorted.contains(r[i]) by {
            if i < part.len() {
                if part[i] != task {
                    let k = choose|k: int| 0 <= k < front.len() && front[k] == part[i];
                    assert(sorted[k] == r[i]);
                }
            } else {
                assert(sorted[sorted.len() - 1] == r[i]);
            }
        }
    }
}

/// Putting tasks in order gives the same tasks, and none stands behind one that runs after it.
pub proof fn law_tasks_come_in_order(tasks: Seq<ScheduledTask>)
    ensures
        tasks_ordered(tasks_in_order(tasks)),
        tasks_in_order(tasks).to_multiset() == tasks.to_multiset(),
    decreases tasks.len(),
{
    broadcast use vstd::seq_lib::group_to_multiset_ensures;

    if tasks.len() > 0 {
        law_tasks_come_in_order(tasks.drop_last());
        lemma_inserted_in_order(tasks_in_order(tasks.drop_last()), tasks.last());
        assert(tasks =~= tasks.drop_last().push(tasks.last()));
    }
}

/// A conversation that plans one of its tasks anew, or takes one out, changes nothing of what
/// another conversation has.
pub proof fn law_conversations_keep_to_their_tasks(
    before: Seq<ScheduledTask>,
    after: Seq<ScheduledTask>,
    source: Seq<char>,
    conversation: Seq<char>,
    id: Seq<char>,
    plan: PlannedTask,
    now: i64,
    other_source: Seq<char>,
    other_conversation: Seq<char>,
)
    requires
        other_source != source || other_conversation != conversation,
        replanned(before, after, source, conversation, id, plan, now) || after == without_task(
            before,
            source,
            conversation,
            id,
        ),
    ensures
        of_conversation(after, other_source, other_conversation) == of_conversation(
            before,
            other_source,
            other_conversation,
        ),
    decreases before.len(),
{
    if before.len() > 0 {
        let front = before.drop_last();
        let part = if replanned(before, after, source, conversation, id, plan, now) {
            after.drop_last()
        } else {
            without_task(front, source, conversation, id)
        };
        if replanned(before, after, source, conversation, id, plan, now) {
            assert forall|i: int| 0 <= i < front.len() implies #[trigger] part[i] == if is_task(
                front[i],
                source,
                conversation,
                id,
            ) {
                ScheduledTask {
                    title: plan.title,
                    schedule: plan.schedule,
                    instruction: plan.instruction,
                    next_run_at: plan.next_run_at,
                    updated_at: now,
                    ..front[i]
                }
            } else {
                front[i]
            } by {
                assert(part[i] == after[i]);
                assert(front[i] == before[i]);
            }
            assert(after[before.len() - 1] == after.last());
        }
        law_conversations_keep_to_their_tasks(
            front,
            part,
            source,
            conversation,
            id,
            plan,
            now,
            other_source,
            other_conversation,
        );
        if !is_task(before.last(), source, conversation, id) {
            assert(part.push(before.last()).drop_last() =~= part);
        }
    }
}

/// A run is claimed once: where the next run is another, nobody claims the same run again.
pub proof fn law_a_run_is_claimed_once(
    before: Seq<ScheduledTask>,
    after: Seq<ScheduledTask>,
    id: Seq<char>,
    expected: i64,
    following: Option<i64>,
    now: i64,
)
    requires
        ids_differ(before),
        runs_at(before, id, expected),
        claimed(before, after, id, following, now),
        following != Some(expected),
    ensures
        !runs_at(after, id, expected),
{
    let at = choose|i: int|
        0 <= i < before.len() && (#[trigger] before[i]).id@ == id && after == match following {
            Some(next) => before.update(
                i,
                ScheduledTask {
                    next_run_at: next,
                    last_triggered_at: Some(before[i].next_run_at),
                    updated_at: now,
                    ..before[i]
                },
            ),
            None => before.remove(i),
        };
    assert forall|j: int| 0 <= j < after.len() && (#[trigger] after[j]).id@ == id implies after[j]
        .next_run_at != expected by {
        match following {
            Some(next) => {
                if j < at {
                    assert(before[j].id@ != before[at].id@);
                } else if at < j {
                    assert(before[at].id@ != before[j].id@);
                }
            },
            None => {
                if j < at {
                    assert(before[j].id@ != before[at].id@);
                } else {
                    assert(after[j] == before[j + 1]);
                    assert(before[at].id@ != before[j + 1].id@);
                }
            },
        }
    }
}

} // verus!
