//! A worker per conversation: which messages are let through, what the worker waits for, and the
//! context it asks the model with.

use vstd::prelude::*;

use crate::ai_provider::{context_view, ContextMessage, ContextMessageView, MessageRole};
use crate::json::{is_text, json_parsed, option_text, Json, JsonView};
use crate::local_time::{
    day_fault, day_parsed, full_text, local_time, moment_of, read_day, read_time, readable,
    reading_seconds, showable, shown_at, time_fault, time_parsed, LocalTime, WallMoment,
};
use crate::pipeline::ai_action::{
    parse_action_plan, plan_of, ActionView, PlanView, RespAction, RespActionPlan,
};
use crate::pipeline::chat_processor::{
    history_line, history_message_line, text_or_empty, HistoryEntry,
};
use crate::text::{
    chars_of, decimal, decimal_of, find_at, find_from, has_text, is_before, is_listed, join,
    join_of, lemma_find_first, lemma_joined, lemma_occurs_behind, lemma_occurs_in_front,
    lemma_text_before_strict, lemma_text_not_before_transitive, listed, occurs_at, replace,
    replace_of, same_text, signed_decimal, signed_decimal_of, text_before, text_between, texts,
    trim, trim_of,
};
use crate::transport::{
    conversation_kind_as_str, kind_word, ContentPart, ConversationKind, IncomingMessage,
};

verus! {

/// How many messages a batch holds at most.
pub const MESSAGE_BATCH_MAX_MESSAGES: usize = 5;

/// How long a batch waits for one more message, in seconds.
pub const MESSAGE_BATCH_WAIT_SECS: u64 = 2;

pub const WAIT_THEN_CHECK_DELAY_MIN_SECS: u64 = 5;

pub const WAIT_THEN_CHECK_DELAY_MAX_SECS: u64 = 600;

pub const IGNORE_MESSAGES_MIN_SECS: u64 = 10;

pub const IGNORE_MESSAGES_MAX_SECS: u64 = 600;

/// Whether a message passes the list for its kind of conversation; an empty list lets all pass.
pub open spec fn allowed(
    message: IncomingMessage,
    direct_whitelist: Seq<String>,
    group_whitelist: Seq<String>,
) -> bool {
    match message.conversation.kind {
        ConversationKind::Direct => direct_whitelist.len() == 0 || listed(
            direct_whitelist,
            message.sender.id@,
        ),
        ConversationKind::Group => group_whitelist.len() == 0 || listed(
            group_whitelist,
            message.conversation.id@,
        ),
    }
}

/// Whether a message passes the list for its kind of conversation.
pub fn is_message_allowed(
    message: &IncomingMessage,
    direct_whitelist: &Vec<String>,
    group_whitelist: &Vec<String>,
) -> (r: bool)
    ensures
        r == allowed(*message, direct_whitelist@, group_whitelist@),
{
    match message.conversation.kind {
        ConversationKind::Direct => direct_whitelist.len() == 0 || is_listed(
            direct_whitelist,
            &message.sender.id,
        ),
        ConversationKind::Group => group_whitelist.len() == 0 || is_listed(
            group_whitelist,
            &message.conversation.id,
        ),
    }
}

/// Whether a message is passed over: one of the assistant itself, or one that no list lets pass.
pub fn should_skip_message(
    message: &IncomingMessage,
    direct_whitelist: &Vec<String>,
    group_whitelist: &Vec<String>,
) -> (r: bool)
    ensures
        r == (message.sender.id@ == message.bot_id@ || !allowed(
            *message,
            direct_whitelist@,
            group_whitelist@,
        )),
{
    same_text(&message.sender.id, &message.bot_id) || !is_message_allowed(
        message,
        direct_whitelist,
        group_whitelist,
    )
}

/// The key of the worker for a conversation.
pub open spec fn key_of(source: Seq<char>, kind: ConversationKind, id: Seq<char>) -> Seq<char> {
    source + ":"@ + kind_word(kind) + ":"@ + id
}

/// The key of the worker for the conversation of a message.
pub fn conversation_key(message: &IncomingMessage) -> (r: String)
    ensures
        r@ == key_of(
            message.source@,
            message.conversation.kind,
            message.conversation.id@,
        ),
{
    let mut r = message.source.clone();
    r.push_str(":");
    r.push_str(conversation_kind_as_str(message.conversation.kind));
    r.push_str(":");
    r.push_str(&message.conversation.id);
    r
}

/// Conversations of one platform never share a worker.
pub proof fn law_keys_tell_conversations_apart(
    source: Seq<char>,
    a_kind: ConversationKind,
    a: Seq<char>,
    b_kind: ConversationKind,
    b: Seq<char>,
)
    ensures
        key_of(source, a_kind, a) == key_of(source, b_kind, b) ==> a_kind == b_kind && a == b,
{
    reveal_strlit(":");
    reveal_strlit("direct");
    reveal_strlit("group");
    let x = key_of(source, a_kind, a);
    let y = key_of(source, b_kind, b);
    if x == y {
        let n = source.len() as int + 1;
        assert(x[n] == kind_word(a_kind)[0]);
        assert(y[n] == kind_word(b_kind)[0]);
        let m = n + kind_word(a_kind).len() + 1;
        assert(x.skip(m) =~= a);
        assert(y.skip(m) =~= b);
    }
}

/// The name of a scene.
pub fn scene_name(kind: ConversationKind) -> (r: &'static str)
    ensures
        r@ == (match kind {
            ConversationKind::Direct => "私聊"@,
            ConversationKind::Group => "群聊"@,
        }),
{
    match kind {
        ConversationKind::Direct => "私聊",
        ConversationKind::Group => "群聊",
    }
}

/// The account that a mention names.
pub open spec fn mentioned_account(data: JsonView) -> Option<Seq<char>> {
    match data.field("qq"@) {
        Some(JsonView::Text(text)) => Some(text),
        Some(JsonView::Unsigned(n)) => Some(decimal_of(n as nat)),
        Some(JsonView::Negative(n)) => Some(signed_decimal_of(n as int)),
        _ => None,
    }
}

/// The account that a mention names.
pub fn read_mentioned_account(data: &Json) -> (r: Option<String>)
    ensures
        option_text(r) == mentioned_account(data@),
{
    match data.get("qq") {
        Some(Json::Text(text)) => Some(text.clone()),
        Some(Json::Unsigned(n)) => Some(decimal(*n)),
        Some(Json::Negative(n)) => Some(signed_decimal(*n)),
        _ => None,
    }
}

/// Whether a piece of a message mentions an account.
pub open spec fn part_mentions(part: ContentPart, account: Seq<char>) -> bool {
    part.kind@ == "at"@ && mentioned_account(part.data@) == Some(account)
}

/// Whether a message mentions the assistant.
pub open spec fn mentions(message: IncomingMessage) -> bool {
    exists|i: int|
        0 <= i < message.content.parts@.len() && part_mentions(
            #[trigger] message.content.parts@[i],
            message.bot_id@,
        )
}

/// Whether a message mentions the assistant.
pub fn mentions_bot(message: &IncomingMessage) -> (r: bool)
    ensures
        r == mentions(*message),
{
    let parts = &message.content.parts;
    let mut i: usize = 0;
    while i < parts.len()
        invariant
            i <= parts@.len(),
            parts == &message.content.parts,
            forall|j: int| 0 <= j < i ==> !part_mentions(#[trigger] parts@[j], message.bot_id@),
        decreases parts@.len() - i,
    {
        if same_text(&parts[i].kind, "at") {
            let account = read_mentioned_account(&parts[i].data);
            if is_text(&account, &message.bot_id) {
                return true;
            }
        }
        i += 1;
    }
    false
}

/// A number of seconds kept between two others.
pub open spec fn clamped_seconds(n: u64, low: u64, high: u64) -> u64 {
    if n < low {
        low
    } else if n > high {
        high
    } else {
        n
    }
}

fn clamp_seconds(n: u64, low: u64, high: u64) -> (r: u64)
    ensures
        r == clamped_seconds(n, low, high),
{
    if n < low {
        low
    } else if n > high {
        high
    } else {
        n
    }
}

/// Looking again after a while, unless a message comes first.
#[derive(Debug, PartialEq, Eq)]
pub struct PendingWaitCheck {
    pub ready_at: u64,
    pub delay_seconds: u64,
    pub reason: String,
}

/// Something to be done at a point in time.
#[derive(Debug, PartialEq, Eq)]
pub struct PendingScheduledTask {
    pub ready_at: u64,
    pub scheduled_time_text: String,
    pub task: String,
}

/// Ignoring messages for a while.
#[derive(Debug, Clone, Copy, PartialEq, Eq, Structural)]
pub struct PendingIgnoreMessages {
    pub ready_at: u64,
    pub duration_seconds: u64,
    pub has_unread_messages: bool,
}

/// What a worker waits for. Points in time are milliseconds on a clock that never goes back.
#[derive(Debug, PartialEq, Eq)]
pub struct ConversationWorker {
    pub pending_wait_check: Option<PendingWaitCheck>,
    pub pending_ignore_messages: Option<PendingIgnoreMessages>,
    /// Whether tools are running, and whether messages came in meanwhile.
    pub pending_tool_actions: Option<bool>,
    pub pending_scheduled_tasks: Vec<PendingScheduledTask>,
}

/// What a worker does next.
#[derive(Debug, PartialEq, Eq)]
pub enum WorkerStep {
    /// Wait for a message or for the tools.
    WaitForTools,
    /// Wait for a message or for a point in time.
    WaitUntil { ready_at: u64 },
    /// Wait for a message.
    WaitForMessage,
    /// Ask the model again, for this reason.
    Trigger { reason: String },
    /// Look anew at what to do next.
    LookAgain,
}

/// What is done with a message that came in.
#[derive(Debug, Clone, Copy, PartialEq, Eq, Structural)]
pub enum MessageStep {
    /// It is stored and left unread.
    Store,
    /// It begins a batch.
    Deliver,
}

/// What a worker waits for.
pub struct WorkerView {
    pub wait_check: Option<(u64, u64, Seq<char>)>,
    pub ignoring: Option<PendingIgnoreMessages>,
    pub tools: Option<bool>,
    pub tasks: Seq<(u64, Seq<char>, Seq<char>)>,
}

/// What a planned task holds.
pub open spec fn task_view(task: PendingScheduledTask) -> (u64, Seq<char>, Seq<char>) {
    (task.ready_at, task.scheduled_time_text@, task.task@)
}

/// The tasks of a list.
pub open spec fn tasks_view(tasks: Seq<PendingScheduledTask>) -> Seq<(u64, Seq<char>, Seq<char>)> {
    Seq::new(tasks.len(), |i: int| task_view(tasks[i]))
}

impl View for ConversationWorker {
    type V = WorkerView;

    open spec fn view(&self) -> WorkerView {
        WorkerView {
            wait_check: match self.pending_wait_check {
                Some(w) => Some((w.ready_at, w.delay_seconds, w.reason@)),
                None => None,
            },
            ignoring: self.pending_ignore_messages,
            tools: self.pending_tool_actions,
            tasks: tasks_view(self.pending_scheduled_tasks@),
        }
    }
}

/// What a step holds.
pub enum StepView {
    WaitForTools,
    WaitUntil { ready_at: u64 },
    WaitForMessage,
    Trigger { reason: Seq<char> },
    LookAgain,
}

impl View for WorkerStep {
    type V = StepView;

    open spec fn view(&self) -> StepView {
        match self {
            WorkerStep::WaitForTools => StepView::WaitForTools,
            WorkerStep::WaitUntil { ready_at } => StepView::WaitUntil { ready_at: *ready_at },
            WorkerStep::WaitForMessage => StepView::WaitForMessage,
            WorkerStep::Trigger { reason } => StepView::Trigger { reason: reason@ },
            WorkerStep::LookAgain => StepView::LookAgain,
        }
    }
}

/// The earliest task among the first `n` that are due; of several, the first.
pub open spec fn due_task(
    tasks: Seq<(u64, Seq<char>, Seq<char>)>,
    now: u64,
    n: nat,
) -> Option<int>
    decreases n,
{
    if n == 0 {
        None
    } else {
        let best = due_task(tasks, now, (n - 1) as nat);
        let one = tasks[n - 1];
        if one.0 <= now && (best matches Some(b) ==> one.0 < tasks[b].0) {
            Some(n - 1)
        } else {
            best
        }
    }
}

/// The time of the earliest task among the first `n`.
pub open spec fn first_task_time(tasks: Seq<(u64, Seq<char>, Seq<char>)>, n: nat) -> Option<u64>
    decreases n,
{
    if n == 0 {
        None
    } else {
        earlier(first_task_time(tasks, (n - 1) as nat), Some(tasks[n - 1].0))
    }
}

/// The earlier of two points in time that may be absent.
pub open spec fn earlier(left: Option<u64>, right: Option<u64>) -> Option<u64> {
    match (left, right) {
        (Some(a), Some(b)) => Some(
            if b < a {
                b
            } else {
                a
            },
        ),
        (Some(a), None) => Some(a),
        (None, b) => b,
    }
}

/// Why the model is asked when a task is due.
pub open spec fn task_reason(task: (u64, Seq<char>, Seq<char>)) -> Seq<char> {
    "定时任务已到时间。计划时间："@ + task.1 + "。任务："@ + task.2
}

/// Why the model is asked when nobody has written for a while.
pub open spec fn wait_reason(wait: (u64, u64, Seq<char>)) -> Seq<char> {
    "已等待 "@ + decimal_of(wait.1 as nat) + " 秒无人继续发言。等待原因："@ + wait.2
}

/// Why the model is asked when messages came in while they were ignored.
pub open spec fn ignore_reason(duration_seconds: u64) -> Seq<char> {
    "暂时忽略已结束，过去 "@ + decimal_of(duration_seconds as nat)
        + " 秒内收到新的未读消息，请重新查看聊天记录并决定下一步动作。"@
}

/// A worker that stops ignoring: the model is asked where messages came in meanwhile.
pub open spec fn stopped_ignoring(worker: WorkerView, ignoring: PendingIgnoreMessages) -> (
    WorkerView,
    StepView,
) {
    (
        WorkerView { ignoring: None, ..worker },
        if ignoring.has_unread_messages {
            StepView::Trigger { reason: ignore_reason(ignoring.duration_seconds) }
        } else {
            StepView::LookAgain
        },
    )
}

/// A worker without the task at `i`, which is done.
pub open spec fn task_done(worker: WorkerView, i: int) -> (WorkerView, StepView) {
    (
        WorkerView { tasks: worker.tasks.remove(i), ..worker },
        StepView::Trigger { reason: task_reason(worker.tasks[i]) },
    )
}

/// What a worker does next. Running tools come first, then ignoring, then tasks that are due;
/// otherwise it waits for the first of its points in time.
pub open spec fn next_of(worker: WorkerView, now: u64) -> (WorkerView, StepView) {
    if worker.tools is Some {
        (worker, StepView::WaitForTools)
    } else if worker.ignoring matches Some(ignoring) && now < ignoring.ready_at {
        (worker, StepView::WaitUntil { ready_at: worker.ignoring.unwrap().ready_at })
    } else if worker.ignoring is Some {
        stopped_ignoring(worker, worker.ignoring.unwrap())
    } else {
        match due_task(worker.tasks, now, worker.tasks.len()) {
            Some(i) => task_done(worker, i),
            None => {
                let wait_time = match worker.wait_check {
                    Some(w) => Some(w.0),
                    None => None,
                };
                match earlier(wait_time, first_task_time(worker.tasks, worker.tasks.len())) {
                    Some(ready_at) => (worker, StepView::WaitUntil { ready_at }),
                    None => (worker, StepView::WaitForMessage),
                }
            },
        }
    }
}

/// What a worker does when the point in time has come that it waited for.
pub open spec fn woken(worker: WorkerView, now: u64) -> (WorkerView, StepView) {
    if worker.ignoring is Some {
        stopped_ignoring(worker, worker.ignoring.unwrap())
    } else {
        match due_task(worker.tasks, now, worker.tasks.len()) {
            Some(i) => task_done(worker, i),
            None => match worker.wait_check {
                Some(wait) => if wait.0 <= now {
                    (
                        WorkerView { wait_check: None, ..worker },
                        StepView::Trigger { reason: wait_reason(wait) },
                    )
                } else {
                    (worker, StepView::LookAgain)
                },
                None => (worker, StepView::LookAgain),
            },
        }
    }
}

/// What is done with a message. While tools run it is stored. Otherwise it cancels looking again;
/// while messages are ignored it is stored, unless it mentions the assistant, which ends that.
pub open spec fn received(worker: WorkerView, mentioned: bool) -> (WorkerView, MessageStep) {
    if worker.tools is Some {
        (worker, MessageStep::Store)
    } else if worker.ignoring is Some {
        let patient = WorkerView { wait_check: None, ..worker };
        if mentioned {
            (WorkerView { ignoring: None, ..patient }, MessageStep::Deliver)
        } else {
            (patient, MessageStep::Store)
        }
    } else {
        (WorkerView { wait_check: None, ..worker }, MessageStep::Deliver)
    }
}

/// A worker once a message was stored.
pub open spec fn stored(worker: WorkerView) -> WorkerView {
    if worker.tools is Some {
        WorkerView { tools: Some(true), ..worker }
    } else {
        match worker.ignoring {
            Some(ignoring) => WorkerView {
                ignoring: Some(
                    PendingIgnoreMessages {
                        ready_at: ignoring.ready_at,
                        duration_seconds: ignoring.duration_seconds,
                        has_unread_messages: true,
                    },
                ),
                ..worker
            },
            None => worker,
        }
    }
}

/// The position of the earliest task that is due.
fn find_due_task(tasks: &Vec<PendingScheduledTask>, now: u64) -> (r: Option<usize>)
    ensures
        match r {
            Some(i) => due_task(tasks_view(tasks@), now, tasks@.len()) == Some(i as int) && i
                < tasks@.len(),
            None => due_task(tasks_view(tasks@), now, tasks@.len()) is None,
        },
{
    let ghost all = tasks_view(tasks@);
    let mut best: Option<usize> = None;
    let mut i: usize = 0;
    while i < tasks.len()
        invariant
            i <= tasks@.len(),
            all == tasks_view(tasks@),
            match best {
                Some(b) => b < i && due_task(all, now, i as nat) == Some(b as int),
                None => due_task(all, now, i as nat) is None,
            },
        decreases tasks@.len() - i,
    {
        assert(all[i as int] == task_view(tasks@[i as int]));
        let takes = tasks[i].ready_at <= now && match best {
            Some(b) => tasks[i].ready_at < tasks[b].ready_at,
            None => true,
        };
        if takes {
            best = Some(i);
        }
        i += 1;
    }
    best
}

/// The earlier of two points in time that may be absent.
pub fn earliest_ready_at(left: Option<u64>, right: Option<u64>) -> (r: Option<u64>)
    ensures
        r == earlier(left, right),
{
    match (left, right) {
        (Some(a), Some(b)) => {
            if b < a {
                Some(b)
            } else {
                Some(a)
            }
        },
        (Some(a), None) => Some(a),
        (None, b) => b,
    }
}

impl ConversationWorker {
    /// A worker that waits for nothing but messages.
    pub fn new() -> (r: ConversationWorker)
        ensures
            r@ == (WorkerView {
                wait_check: None,
                ignoring: None,
                tools: None,
                tasks: Seq::empty(),
            }),
    {
        let r = ConversationWorker {
            pending_wait_check: None,
            pending_ignore_messages: None,
            pending_tool_actions: None,
            pending_scheduled_tasks: Vec::new(),
        };
        assert(r@.tasks =~= Seq::empty());
        r
    }

    /// The time of the earliest task.
    pub fn next_scheduled_task_ready_at(&self) -> (r: Option<u64>)
        ensures
            r == first_task_time(self@.tasks, self@.tasks.len()),
    {
        let ghost all = self@.tasks;
        let mut first: Option<u64> = None;
        let mut i: usize = 0;
        while i < self.pending_scheduled_tasks.len()
            invariant
                i <= self.pending_scheduled_tasks@.len(),
                all == self@.tasks,
                first == first_task_time(all, i as nat),
            decreases self.pending_scheduled_tasks@.len() - i,
        {
            assert(all[i as int] == task_view(self.pending_scheduled_tasks@[i as int]));
            first = earliest_ready_at(first, Some(self.pending_scheduled_tasks[i].ready_at));
            i += 1;
        }
        first
    }

    /// Takes out the earliest task that is due.
    pub fn pop_due_scheduled_task(&mut self, now: u64) -> (r: Option<PendingScheduledTask>)
        ensures
            match due_task(old(self)@.tasks, now, old(self)@.tasks.len()) {
                Some(i) => r is Some && task_view(r.unwrap()) == old(self)@.tasks[i] && final(self)@
                    == (WorkerView { tasks: old(self)@.tasks.remove(i), ..old(self)@ }),
                None => r is None && final(self)@ == old(self)@,
            },
    {
        match find_due_task(&self.pending_scheduled_tasks, now) {
            Some(i) => {
                let ghost before = self@.tasks;
                let task = self.pending_scheduled_tasks.remove(i);
                assert(self@.tasks =~= before.remove(i as int));
                Some(task)
            },
            None => None,
        }
    }

    fn stop_ignoring(&mut self, ignoring: PendingIgnoreMessages) -> (r: WorkerStep)
        ensures
            (final(self)@, r@) == stopped_ignoring(old(self)@, ignoring),
    {
        self.pending_ignore_messages = None;
        if ignoring.has_unread_messages {
            let mut reason = "暂时忽略已结束，过去 ".to_owned();
            reason.push_str(&decimal(ignoring.duration_seconds));
            reason.push_str(" 秒内收到新的未读消息，请重新查看聊天记录并决定下一步动作。");
            WorkerStep::Trigger { reason }
        } else {
            WorkerStep::LookAgain
        }
    }

    /// What the worker does next.
    pub fn next_step(&mut self, now: u64) -> (r: WorkerStep)
        ensures
            (final(self)@, r@) == next_of(old(self)@, now),
    {
        if self.pending_tool_actions.is_some() {
            return WorkerStep::WaitForTools;
        }
        if let Some(ignoring) = self.pending_ignore_messages {
            if now < ignoring.ready_at {
                return WorkerStep::WaitUntil { ready_at: ignoring.ready_at };
            }
            return self.stop_ignoring(ignoring);
        }
        if let Some(task) = self.pop_due_scheduled_task(now) {
            return WorkerStep::Trigger { reason: task_reason_text(&task) };
        }
        let wait_time: Option<u64> = match &self.pending_wait_check {
            Some(w) => Some(w.ready_at),
            None => None,
        };
        match earliest_ready_at(wait_time, self.next_scheduled_task_ready_at()) {
            Some(ready_at) => WorkerStep::WaitUntil { ready_at },
            None => WorkerStep::WaitForMessage,
        }
    }

    /// What the worker does when the point in time has come that it waited for.
    pub fn wake(&mut self, now: u64) -> (r: WorkerStep)
        ensures
            (final(self)@, r@) == woken(old(self)@, now),
    {
        if let Some(ignoring) = self.pending_ignore_messages {
            return self.stop_ignoring(ignoring);
        }
        if let Some(task) = self.pop_due_scheduled_task(now) {
            return WorkerStep::Trigger { reason: task_reason_text(&task) };
        }
        let due = match &self.pending_wait_check {
            Some(wait) => wait.ready_at <= now,
            None => false,
        };
        if due {
            let taken = self.pending_wait_check.take();
            if let Some(wait) = taken {
                let mut reason = "已等待 ".to_owned();
                reason.push_str(&decimal(wait.delay_seconds));
                reason.push_str(" 秒无人继续发言。等待原因：");
                reason.push_str(&wait.reason);
                return WorkerStep::Trigger { reason };
            }
        }
        WorkerStep::LookAgain
    }

    /// What is done with a message; `mentioned` tells whether it mentions the assistant.
    pub fn receive_message(&mut self, mentioned: bool) -> (r: MessageStep)
        ensures
            (final(self)@, r) == received(old(self)@, mentioned),
    {
        if self.pending_tool_actions.is_some() {
            return MessageStep::Store;
        }
        self.pending_wait_check = None;
        if self.pending_ignore_messages.is_some() {
            if mentioned {
                self.pending_ignore_messages = None;
                return MessageStep::Deliver;
            }
            return MessageStep::Store;
        }
        MessageStep::Deliver
    }

    /// Remembers that a message was stored and is unread.
    pub fn message_stored(&mut self)
        ensures
            final(self)@ == stored(old(self)@),
    {
        if self.pending_tool_actions.is_some() {
            self.pending_tool_actions = Some(true);
            return;
        }
        if let Some(ignoring) = self.pending_ignore_messages {
            self.pending_ignore_messages = Some(
                PendingIgnoreMessages {
                    ready_at: ignoring.ready_at,
                    duration_seconds: ignoring.duration_seconds,
                    has_unread_messages: true,
                },
            );
        }
    }

    /// Tools have been started.
    pub fn start_tools(&mut self)
        ensures
            final(self)@ == (WorkerView { tools: Some(false), ..old(self)@ }),
    {
        self.pending_tool_actions = Some(false);
    }

    /// The tools are done; gives the reason for which the model is asked.
    pub fn tools_done(&mut self) -> (reason: &'static str)
        ensures
            final(self)@ == (WorkerView { tools: None, ..old(self)@ }),
            reason@ == (if old(self)@.tools == Some(true) {
                "本轮工具动作已全部完成，且工具执行期间收到了新的聊天消息。请结合工具结果和新的聊天记录重新决定下一步动作。"@
            } else {
                "本轮工具动作已全部完成。请结合工具结果重新决定下一步动作。"@
            }),
    {
        let unread = match self.pending_tool_actions {
            Some(unread) => unread,
            None => false,
        };
        self.pending_tool_actions = None;
        if unread {
            "本轮工具动作已全部完成，且工具执行期间收到了新的聊天消息。请结合工具结果和新的聊天记录重新决定下一步动作。"
        } else {
            "本轮工具动作已全部完成。请结合工具结果重新决定下一步动作。"
        }
    }

    /// Plans to look again after a while.
    pub fn execute_wait_then_check(&mut self, now: u64, delay_seconds: u64, reason: String)
        requires
            now + WAIT_THEN_CHECK_DELAY_MAX_SECS * 1000 <= u64::MAX,
        ensures
            ({
                let delay = clamped_seconds(
                    delay_seconds,
                    WAIT_THEN_CHECK_DELAY_MIN_SECS,
                    WAIT_THEN_CHECK_DELAY_MAX_SECS,
                );
                final(self)@ == (WorkerView {
                    wait_check: Some(((now + delay * 1000) as u64, delay, reason@)),
                    ..old(self)@
                })
            }),
    {
        let delay: u64 = clamp_seconds(
            delay_seconds,
            WAIT_THEN_CHECK_DELAY_MIN_SECS,
            WAIT_THEN_CHECK_DELAY_MAX_SECS,
        );
        self.pending_wait_check = Some(
            PendingWaitCheck { ready_at: now + delay * 1000, delay_seconds: delay, reason },
        );
    }

    /// Begins to ignore messages for a while.
    pub fn execute_ignore_messages(&mut self, now: u64, duration_seconds: u64)
        requires
            now + IGNORE_MESSAGES_MAX_SECS * 1000 <= u64::MAX,
        ensures
            ({
                let duration = clamped_seconds(
                    duration_seconds,
                    IGNORE_MESSAGES_MIN_SECS,
                    IGNORE_MESSAGES_MAX_SECS,
                );
                final(self)@ == (WorkerView {
                    wait_check: None,
                    ignoring: Some(
                        PendingIgnoreMessages {
                            ready_at: (now + duration * 1000) as u64,
                            duration_seconds: duration,
                            has_unread_messages: false,
                        },
                    ),
                    ..old(self)@
                })
            }),
    {
        let duration: u64 = clamp_seconds(
            duration_seconds,
            IGNORE_MESSAGES_MIN_SECS,
            IGNORE_MESSAGES_MAX_SECS,
        );
        self.pending_wait_check = None;
        self.pending_ignore_messages = Some(
            PendingIgnoreMessages {
                ready_at: now + duration * 1000,
                duration_seconds: duration,
                has_unread_messages: false,
            },
        );
    }

    /// Plans a task.
    pub fn execute_schedule_task(&mut self, task: PendingScheduledTask)
        ensures
            final(self)@ == (WorkerView {
                tasks: old(self)@.tasks.push(task_view(task)),
                ..old(self)@
            }),
    {
        let ghost before = self@.tasks;
        self.pending_scheduled_tasks.push(task);
        assert(self@.tasks =~= before.push(task_view(task)));
    }
}

/// Why the model is asked when a task is due.
pub fn task_reason_text(task: &PendingScheduledTask) -> (r: String)
    ensures
        r@ == task_reason(task_view(*task)),
{
    let mut r = "定时任务已到时间。计划时间：".to_owned();
    r.push_str(&task.scheduled_time_text);
    r.push_str("。任务：");
    r.push_str(&task.task);
    r
}

/// The task that is taken is due, and no task that is due is earlier.
proof fn lemma_due_task(tasks: Seq<(u64, Seq<char>, Seq<char>)>, now: u64, n: nat)
    requires
        n <= tasks.len(),
    ensures
        match due_task(tasks, now, n) {
            Some(i) => 0 <= i < n && tasks[i].0 <= now && forall|j: int|
                0 <= j < n && (#[trigger] tasks[j]).0 <= now ==> tasks[i].0 <= tasks[j].0,
            None => forall|j: int| 0 <= j < n ==> (#[trigger] tasks[j]).0 > now,
        },
    decreases n,
{
    if n > 0 {
        lemma_due_task(tasks, now, (n - 1) as nat);
    }
}

/// The task that is taken is due, and no task that is due is earlier; none is taken only where
/// none is due.
pub proof fn law_earliest_due_task_comes_first(worker: WorkerView, now: u64)
    ensures
        match due_task(worker.tasks, now, worker.tasks.len()) {
            Some(i) => 0 <= i < worker.tasks.len() && worker.tasks[i].0 <= now && forall|j: int|
                0 <= j < worker.tasks.len() && (#[trigger] worker.tasks[j]).0 <= now
                    ==> worker.tasks[i].0 <= worker.tasks[j].0,
            None => forall|j: int|
                0 <= j < worker.tasks.len() ==> (#[trigger] worker.tasks[j]).0 > now,
        },
{
    lemma_due_task(worker.tasks, now, worker.tasks.len());
}

/// While tools run or messages are ignored, a message that does not mention the assistant never
/// begins a batch; one that does is held back by running tools alone.
pub proof fn law_messages_are_held_back(worker: WorkerView, mentioned: bool)
    ensures
        received(worker, mentioned).1 == MessageStep::Store <==> worker.tools is Some || (
        worker.ignoring is Some && !mentioned),
{
}

/// A message that begins a batch cancels looking again.
pub proof fn law_message_cancels_looking_again(worker: WorkerView, mentioned: bool)
    ensures
        received(worker, mentioned).1 == MessageStep::Deliver ==> received(
            worker,
            mentioned,
        ).0.wait_check is None,
{
}

/// The messages of a conversation that are answered together.
#[derive(Debug, PartialEq)]
pub struct CollectedMessages {
    messages: Vec<IncomingMessage>,
}

impl View for CollectedMessages {
    /// The messages, in the order in which they came.
    type V = Seq<IncomingMessage>;

    closed spec fn view(&self) -> Seq<IncomingMessage> {
        self.messages@
    }
}

impl CollectedMessages {
    #[verifier::type_invariant]
    closed spec fn fits(self) -> bool {
        1 <= self.messages@.len() <= MESSAGE_BATCH_MAX_MESSAGES
    }

    /// The first message.
    pub fn new(first_message: IncomingMessage) -> (r: CollectedMessages)
        ensures
            r@ == seq![first_message],
    {
        let mut messages: Vec<IncomingMessage> = Vec::new();
        messages.push(first_message);
        assert(messages@ =~= seq![first_message]);
        CollectedMessages { messages }
    }

    /// Whether one more message is waited for.
    pub fn takes_more(&self) -> (r: bool)
        ensures
            r == (self@.len() < MESSAGE_BATCH_MAX_MESSAGES),
    {
        self.messages.len() < MESSAGE_BATCH_MAX_MESSAGES
    }

    /// Takes in the message that came while one was waited for.
    pub fn receive(self, message: IncomingMessage) -> (r: CollectedMessages)
        requires
            self@.len() < MESSAGE_BATCH_MAX_MESSAGES,
        ensures
            r@ == self@.push(message),
    {
        let mut messages = self.messages;
        messages.push(message);
        CollectedMessages { messages }
    }

    /// The messages.
    pub fn done(self) -> (r: Vec<IncomingMessage>)
        ensures
            r@ == self@,
            1 <= r@.len() <= MESSAGE_BATCH_MAX_MESSAGES,
    {
        proof {
            use_type_invariant(&self);
        }
        self.messages
    }
}

/// The messages that are answered together, and those that are left for later, where a message is
/// followed by others in time: each is taken in as long as one more is waited for.
pub open spec fn collected(first: IncomingMessage, others: Seq<IncomingMessage>) -> (
    Seq<IncomingMessage>,
    Seq<IncomingMessage>,
)
    decreases others.len(),
{
    if others.len() == 0 {
        (seq![first], Seq::empty())
    } else {
        let (taken, left) = collected(first, others.drop_last());
        if taken.len() < MESSAGE_BATCH_MAX_MESSAGES {
            (taken.push(others.last()), left)
        } else {
            (taken, left.push(others.last()))
        }
    }
}

/// The messages that are answered together are the first one and those behind it, up to five in
/// all, in the order in which they came; the others are left as they came, and none is lost.
pub proof fn law_collecting_loses_no_message(first: IncomingMessage, others: Seq<IncomingMessage>)
    ensures
        ({
            let (taken, left) = collected(first, others);
            &&& taken + left =~= seq![first] + others
            &&& taken.len() == if others.len() < MESSAGE_BATCH_MAX_MESSAGES {
                (others.len() + 1) as int
            } else {
                MESSAGE_BATCH_MAX_MESSAGES as int
            }
            &&& left.len() > 0 ==> taken.len() == MESSAGE_BATCH_MAX_MESSAGES
        }),
    decreases others.len(),
{
    if others.len() > 0 {
        law_collecting_loses_no_message(first, others.drop_last());
        let (taken, left) = collected(first, others.drop_last());
        let last = others.last();
        let whole = seq![first] + others.drop_last();
        assert(seq![first] + others =~= whole.push(last));
        assert(taken + left =~= whole);
        if taken.len() < MESSAGE_BATCH_MAX_MESSAGES {
            assert(left =~= Seq::empty());
            assert(taken.push(last) + left =~= whole.push(last));
        } else {
            assert(taken + left.push(last) =~= (taken + left).push(last));
        }
    } else {
        assert(seq![first] + others =~= seq![first]);
    }
}

/// The last plan that was carried out.
#[derive(Debug, PartialEq, Eq)]
pub struct LastActionPlan {
    pub mind_state: String,
    pub action_names: String,
    pub updated_at_secs: i64,
}

/// The last actions and the state of mind, which is forgotten after a day.
pub open spec fn recalled(last: Option<LastActionPlan>, now: int) -> (Seq<char>, Seq<char>) {
    match last {
        Some(plan) => (
            plan.action_names@,
            if now - plan.updated_at_secs > 24 * 60 * 60 {
                "距离上次对话已超过24小时，已经遗忘。"@
            } else {
                plan.mind_state@
            },
        ),
        None => ("无动作"@, "暂无"@),
    }
}

/// The result of a tool.
#[derive(Debug, PartialEq, Eq)]
pub struct ToolActionResult {
    pub action_name: String,
    pub input_summary: String,
    pub output: String,
    pub is_error: bool,
}

/// The result of a tool with its number.
pub open spec fn result_text(n: nat, result: ToolActionResult) -> Seq<char> {
    decimal_of(n) + ". 动作："@ + result.action_name@ + "（"@ + (if result.is_error {
        "失败"@
    } else {
        "完成"@
    }) + "）\n输入："@ + result.input_summary@ + "\n结果："@ + result.output@
}

/// The results of tools, numbered from one.
pub open spec fn results_text(results: Seq<ToolActionResult>) -> Seq<char> {
    join_of(
        Seq::new(results.len(), |i: int| result_text((i + 1) as nat, results[i])),
        "\n\n"@,
    )
}

/// The results of tools, numbered from one.
pub fn render_tool_results(tool_results: &Vec<ToolActionResult>) -> (r: String)
    ensures
        r@ == results_text(tool_results@),
{
    let ghost listed = Seq::new(
        tool_results@.len(),
        |i: int| result_text((i + 1) as nat, tool_results@[i]),
    );
    let mut lines: Vec<String> = Vec::new();
    let mut i: usize = 0;
    while i < tool_results.len()
        invariant
            i <= tool_results@.len(),
            listed == Seq::new(
                tool_results@.len(),
                |i: int| result_text((i + 1) as nat, tool_results@[i]),
            ),
            texts(lines@) =~= listed.take(i as int),
        decreases tool_results@.len() - i,
    {
        let result = &tool_results[i];
        let mut line = decimal(i as u64 + 1);
        line.push_str(". 动作：");
        line.push_str(&result.action_name);
        line.push_str("（");
        if result.is_error {
            line.push_str("失败");
        } else {
            line.push_str("完成");
        }
        line.push_str("）\n输入：");
        line.push_str(&result.input_summary);
        line.push_str("\n结果：");
        line.push_str(&result.output);
        let ghost before = texts(lines@);
        lines.push(line);
        assert(texts(lines@) =~= before.push(line@));
        assert(listed.take(i + 1) =~= listed.take(i as int).push(listed[i as int]));
        i += 1;
    }
    assert(listed.take(i as int) =~= listed);
    join(&lines, "\n\n")
}

/// A prompt with the results of tools before its task, or at its end where it names none.
pub open spec fn with_results(prompt: Seq<char>, results: Seq<ToolActionResult>) -> Seq<char> {
    let text = "\n# 工具结果\n"@ + results_text(results) + "\n"@;
    match find_from(prompt, "\n# 当前任务"@, 0) {
        Some(i) => prompt.take(i) + text + prompt.skip(i),
        None => prompt + text,
    }
}

/// A prompt with the results of tools before its task, or at its end where it names none.
pub fn insert_tool_results_prompt(
    prompt: &str,
    tool_results: &Vec<ToolActionResult>,
) -> (r: String)
    ensures
        r@ == with_results(prompt@, tool_results@),
{
    let mut text = "\n# 工具结果\n".to_owned();
    text.push_str(&render_tool_results(tool_results));
    text.push_str("\n");
    let chars = chars_of(prompt);
    let heading = chars_of("\n# 当前任务");
    proof {
        lemma_find_first(prompt@, "\n# 当前任务"@, 0);
    }
    match find_at(&chars, &heading, 0) {
        Some(i) => {
            let mut r = text_between(&chars, 0, i);
            assert(r@ =~= prompt@.take(i as int));
            r.push_str(&text);
            let rest = text_between(&chars, i, chars.len());
            assert(rest@ =~= prompt@.skip(i as int));
            r.push_str(&rest);
            r
        },
        None => {
            let mut r = prompt.to_owned();
            r.push_str(&text);
            r
        },
    }
}

/// What the instructions are filled with.
#[derive(Debug, PartialEq, Eq)]
pub struct WorkerPromptValues {
    pub now_text: String,
    pub scene: String,
    /// Whether the model is to write rather than to keep silent.
    pub more_active: bool,
    pub max_history_messages: u32,
    pub trigger_reason: String,
}

/// Instructions filled with their values.
pub open spec fn filled_prompt(
    template: Seq<char>,
    values: WorkerPromptValues,
    last: Option<LastActionPlan>,
    now: int,
    results: Seq<ToolActionResult>,
) -> Seq<char> {
    let (last_action, mind_state) = recalled(last, now);
    let a = replace_of(template, "{{now}}"@, values.now_text@);
    let b = replace_of(a, "{{last_action}}"@, last_action);
    let c = replace_of(b, "{{mind_state}}"@, mind_state);
    let d = replace_of(c, "{{scene}}"@, values.scene@);
    let e = replace_of(
        d,
        "{{reply_decision_state}}"@,
        if values.more_active {
            "更主动"@
        } else {
            "更保守"@
        },
    );
    let f = replace_of(
        e,
        "{{max_history_messages}}"@,
        decimal_of(values.max_history_messages as nat),
    );
    let g = replace_of(f, "{{trigger_reason}}"@, values.trigger_reason@);
    if results.len() == 0 {
        g
    } else {
        with_results(g, results)
    }
}

/// Instructions filled with their values.
pub fn render_instruction_prompt(
    template: &str,
    values: &WorkerPromptValues,
    last_action_plan: &Option<LastActionPlan>,
    now_secs: i64,
    tool_results: &Vec<ToolActionResult>,
) -> (r: String)
    ensures
        r@ == filled_prompt(
            template@,
            *values,
            *last_action_plan,
            now_secs as int,
            tool_results@,
        ),
{
    let (last_action, mind_state) = match last_action_plan {
        Some(plan) => {
            let age: i128 = now_secs as i128 - plan.updated_at_secs as i128;
            let mind_state = if age > 86400 {
                "距离上次对话已超过24小时，已经遗忘。".to_owned()
            } else {
                plan.mind_state.clone()
            };
            (plan.action_names.clone(), mind_state)
        },
        None => ("无动作".to_owned(), "暂无".to_owned()),
    };
    let decision = if values.more_active {
        "更主动"
    } else {
        "更保守"
    };
    let a = replace(template, "{{now}}", &values.now_text);
    let b = replace(&a, "{{last_action}}", &last_action);
    let c = replace(&b, "{{mind_state}}", &mind_state);
    let d = replace(&c, "{{scene}}", &values.scene);
    let e = replace(&d, "{{reply_decision_state}}", decision);
    let f = replace(
        &e,
        "{{max_history_messages}}",
        &decimal(values.max_history_messages as u64),
    );
    let g = replace(&f, "{{trigger_reason}}", &values.trigger_reason);
    if tool_results.len() == 0 {
        g
    } else {
        insert_tool_results_prompt(&g, tool_results)
    }
}

/// The line between messages that were read and those that were not.
pub const UNREAD_DIVIDER: &'static str = "--- 以上是已读消息，以下是未读消息 ---";

/// A context with more text of the user: it joins the last message where that is one of the user.
pub open spec fn with_user_text(
    context: Seq<ContextMessageView>,
    text: Seq<char>,
) -> Seq<ContextMessageView> {
    if context.len() > 0 && context.last().role == MessageRole::User {
        context.drop_last().push(
            ContextMessageView {
                role: MessageRole::User,
                content: context.last().content + "\n"@ + text,
            },
        )
    } else {
        context.push(ContextMessageView { role: MessageRole::User, content: text })
    }
}

/// Appends text of the user: it joins the last message where that is one of the user.
fn push_user_text(context: &mut Vec<ContextMessage>, text: &str)
    ensures
        context_view(final(context)@) == with_user_text(context_view(old(context)@), text@),
{
    let ghost before = context_view(context@);
    let n: usize = context.len();
    if n > 0 && context[n - 1].role == MessageRole::User {
        assert(before.last() == context@[n - 1]@);
        if let Some(last) = context.pop() {
            let mut content = last.content;
            content.push_str("\n");
            content.push_str(text);
            context.push(ContextMessage { role: MessageRole::User, content });
        }
        assert(context_view(context@) =~= with_user_text(before, text@));
    } else {
        if n > 0 {
            assert(before.last() == context@[n - 1]@);
        }
        context.push(ContextMessage { role: MessageRole::User, content: text.to_owned() });
        assert(context_view(context@) =~= with_user_text(before, text@));
    }
}

/// Appends the line between messages that were read and those that were not.
pub fn push_unread_divider(context: &mut Vec<ContextMessage>)
    ensures
        context_view(final(context)@) == with_user_text(
            context_view(old(context)@),
            UNREAD_DIVIDER@,
        ),
{
    push_user_text(context, UNREAD_DIVIDER)
}

/// What has been laid out of a worker's context.
pub struct PlainLayout {
    pub context: Seq<ContextMessageView>,
    pub last_date: Option<Seq<char>>,
    /// Whether a message of somebody else was shown that had been read.
    pub read_seen: bool,
    /// Whether the first unread message has been reached.
    pub unread_seen: bool,
}

/// A layout with a message. Before the first unread message a line is drawn, where there were read
/// ones; the date is shown where it changes.
pub open spec fn with_plain_entry(
    layout: PlainLayout,
    entry: HistoryEntry,
    bot_id: Seq<char>,
) -> PlainLayout {
    let message = entry.message;
    if message.sender_id@ == bot_id {
        PlainLayout {
            context: layout.context.push(
                ContextMessageView {
                    role: MessageRole::Assistant,
                    content: text_or_empty(message.content_text),
                },
            ),
            ..layout
        }
    } else {
        let first_unread = !message.is_read && !layout.unread_seen;
        let divided = if first_unread && layout.read_seen {
            with_user_text(layout.context, UNREAD_DIVIDER@)
        } else {
            layout.context
        };
        let dated = layout.last_date != Some(entry.date@);
        let line = history_line(message, entry.time@);
        PlainLayout {
            context: with_user_text(
                divided,
                if dated {
                    entry.date@ + "\n"@ + line
                } else {
                    line
                },
            ),
            last_date: Some(entry.date@),
            read_seen: layout.read_seen || message.is_read,
            unread_seen: layout.unread_seen || first_unread,
        }
    }
}

/// The layout of the first `n` messages.
pub open spec fn plain_layout(
    head: Seq<ContextMessageView>,
    entries: Seq<HistoryEntry>,
    n: nat,
    bot_id: Seq<char>,
) -> PlainLayout
    decreases n,
{
    if n == 0 {
        PlainLayout { context: head, last_date: None, read_seen: false, unread_seen: false }
    } else {
        with_plain_entry(
            plain_layout(head, entries, (n - 1) as nat, bot_id),
            entries[n - 1],
            bot_id,
        )
    }
}

/// The messages with which every context of a worker begins.
pub open spec fn plain_head(system_prompt: Seq<char>, character_prompt: Seq<char>) -> Seq<
    ContextMessageView,
> {
    Seq::empty().push(
        ContextMessageView {
            role: MessageRole::System,
            content: system_prompt + "\n\n"@ + character_prompt,
        },
    ).push(ContextMessageView { role: MessageRole::User, content: "# 聊天记录\n"@ })
}

/// The numbers of the messages of entries.
pub open spec fn entry_ids(entries: Seq<HistoryEntry>) -> Seq<i64> {
    Seq::new(entries.len(), |i: int| entries[i].message.id)
}

/// The context of a worker, and the messages in it.
#[derive(Debug, PartialEq, Eq)]
pub struct BuiltChatContext {
    pub messages: Vec<ContextMessage>,
    pub included_message_ids: Vec<i64>,
}

/// The context of a worker: the prompts, the history with a line before what is unread, and the
/// instructions.
pub fn build_context(
    system_prompt: &str,
    character_prompt: &str,
    entries: &Vec<HistoryEntry>,
    bot_id: &str,
    instruction_prompt: &str,
) -> (r: BuiltChatContext)
    ensures
        context_view(r.messages@) == plain_layout(
            plain_head(system_prompt@, character_prompt@),
            entries@,
            entries@.len(),
            bot_id@,
        ).context.push(
            ContextMessageView { role: MessageRole::User, content: instruction_prompt@ },
        ),
        r.included_message_ids@ == entry_ids(entries@),
{
    let mut context: Vec<ContextMessage> = Vec::new();
    let mut system = system_prompt.to_owned();
    system.push_str("\n\n");
    system.push_str(character_prompt);
    context.push(ContextMessage { role: MessageRole::System, content: system });
    context.push(ContextMessage { role: MessageRole::User, content: "# 聊天记录\n".to_owned() });
    let ghost head = plain_head(system_prompt@, character_prompt@);
    assert(context_view(context@) =~= head);
    let mut ids: Vec<i64> = Vec::new();
    let mut last_date: Option<String> = None;
    let mut read_seen = false;
    let mut unread_seen = false;
    let mut i: usize = 0;
    while i < entries.len()
        invariant
            i <= entries@.len(),
            ids@ =~= entry_ids(entries@).take(i as int),
            plain_layout(head, entries@, i as nat, bot_id@) == (PlainLayout {
                context: context_view(context@),
                last_date: option_text(last_date),
                read_seen,
                unread_seen,
            }),
        decreases entries@.len() - i,
    {
        let entry = &entries[i];
        let message = &entry.message;
        let ghost before = plain_layout(head, entries@, i as nat, bot_id@);
        ids.push(message.id);
        if same_text(&message.sender_id, bot_id) {
            let content = match &message.content_text {
                Some(t) => t.clone(),
                None => String::new(),
            };
            context.push(ContextMessage { role: MessageRole::Assistant, content });
            assert(context_view(context@) =~= with_plain_entry(before, *entry, bot_id@).context);
        } else {
            if !message.is_read && !unread_seen {
                if read_seen {
                    push_unread_divider(&mut context);
                }
                unread_seen = true;
            }
            if message.is_read {
                read_seen = true;
            }
            let dated = match &last_date {
                Some(date) => !same_text(date, &entry.date),
                None => true,
            };
            let line = history_message_line(message, &entry.time);
            let mut text = String::new();
            if dated {
                text.push_str(&entry.date);
                text.push_str("\n");
                last_date = Some(entry.date.clone());
            }
            text.push_str(&line);
            assert(text@ =~= if dated {
                entry.date@ + "\n"@ + line@
            } else {
                line@
            });
            push_user_text(&mut context, &text);
        }
        i += 1;
    }
    assert(entry_ids(entries@).take(i as int) =~= entry_ids(entries@));
    let ghost laid = context_view(context@);
    let last = ContextMessage { role: MessageRole::User, content: instruction_prompt.to_owned() };
    context.push(last);
    assert(context_view(context@) =~= laid.push(last@));
    BuiltChatContext { messages: context, included_message_ids: ids }
}

/// Whether a message comes before another: it is older, or as old with a number that comes first.
pub open spec fn message_before(a: IncomingMessage, b: IncomingMessage) -> bool {
    a.timestamp < b.timestamp || (a.timestamp == b.timestamp && match (a.message_id, b.message_id) {
        (Some(x), Some(y)) => text_before(x@, y@),
        (None, Some(_)) => true,
        _ => false,
    })
}

fn is_message_before(a: &IncomingMessage, b: &IncomingMessage) -> (r: bool)
    ensures
        r == message_before(*a, *b),
{
    if a.timestamp != b.timestamp {
        return a.timestamp < b.timestamp;
    }
    match (&a.message_id, &b.message_id) {
        (Some(x), Some(y)) => is_before(x, y),
        (None, Some(_)) => true,
        _ => false,
    }
}

/// Ordered messages with one more, behind those that do not come after it.
pub open spec fn inserted(sorted: Seq<IncomingMessage>, message: IncomingMessage) -> Seq<
    IncomingMessage,
>
    decreases sorted.len(),
{
    if sorted.len() == 0 || !message_before(message, sorted.last()) {
        sorted.push(message)
    } else {
        inserted(sorted.drop_last(), message).push(sorted.last())
    }
}

/// Messages in order; those that are alike stay as they came.
pub open spec fn in_order(messages: Seq<IncomingMessage>) -> Seq<IncomingMessage>
    decreases messages.len(),
{
    if messages.len() == 0 {
        Seq::empty()
    } else {
        inserted(in_order(messages.drop_last()), messages.last())
    }
}

proof fn lemma_inserted_at(sorted: Seq<IncomingMessage>, message: IncomingMessage, at: int)
    requires
        0 <= at <= sorted.len(),
        at > 0 ==> !message_before(message, sorted[at - 1]),
        forall|i: int| at <= i < sorted.len() ==> message_before(message, #[trigger] sorted[i]),
    ensures
        inserted(sorted, message) =~= sorted.insert(at, message),
    decreases sorted.len(),
{
    if at < sorted.len() {
        let front = sorted.drop_last();
        assert forall|i: int| at <= i < front.len() implies message_before(
            message,
            #[trigger] front[i],
        ) by {
            assert(front[i] == sorted[i]);
        }
        lemma_inserted_at(front, message, at);
        assert(inserted(sorted, message) =~= sorted.insert(at, message));
    } else {
        assert(sorted.insert(at, message) =~= sorted.push(message));
    }
}

/// Puts a batch in order; messages that are alike stay as they came.
pub fn sort_batch(messages: Vec<IncomingMessage>) -> (r: Vec<IncomingMessage>)
    ensures
        r@ == in_order(messages@),
{
    let ghost all = messages@;
    let mut rest = messages;
    let mut sorted: Vec<IncomingMessage> = Vec::new();
    let ghost mut done: int = 0;
    while rest.len() > 0
        invariant
            0 <= done <= all.len(),
            rest@ =~= all.skip(done),
            sorted@ == in_order(all.take(done)),
        decreases rest@.len(),
    {
        let message = rest.remove(0);
        assert(message == all[done]);
        let mut at: usize = sorted.len();
        while at > 0 && is_message_before(&message, &sorted[at - 1])
            invariant
                at <= sorted@.len(),
                forall|i: int|
                    at <= i < sorted@.len() ==> message_before(message, #[trigger] sorted@[i]),
            decreases at,
        {
            at -= 1;
        }
        proof {
            lemma_inserted_at(sorted@, message, at as int);
            assert(all.take(done + 1).drop_last() =~= all.take(done));
        }
        sorted.insert(at, message);
        proof {
            done = done + 1;
        }
    }
    assert(all.take(done) =~= all);
    sorted
}

/// No message of an ordered batch comes before one that stands ahead of it.
pub open spec fn ordered(messages: Seq<IncomingMessage>) -> bool {
    forall|i: int, j: int|
        0 <= i < j < messages.len() ==> !message_before(#[trigger] messages[j], #[trigger] messages[i])
}

proof fn lemma_before_strict(a: IncomingMessage, b: IncomingMessage)
    ensures
        message_before(a, b) ==> !message_before(b, a),
{
    if let (Some(x), Some(y)) = (a.message_id, b.message_id) {
        lemma_text_before_strict(x@, y@);
    }
}

proof fn lemma_before_transitive(a: IncomingMessage, b: IncomingMessage, c: IncomingMessage)
    ensures
        !message_before(b, a) && message_before(c, a) ==> message_before(c, b),
{
    if let (Some(x), Some(y)) = (a.message_id, b.message_id) {
        if let Some(z) = c.message_id {
            lemma_text_not_before_transitive(x@, y@, z@);
        }
    }
}

proof fn lemma_inserted_ordered(sorted: Seq<IncomingMessage>, message: IncomingMessage)
    requires
        ordered(sorted),
    ensures
        ordered(inserted(sorted, message)),
        inserted(sorted, message).to_multiset() =~= sorted.to_multiset().insert(message),
        inserted(sorted, message).len() == sorted.len() + 1,
        forall|i: int|
            0 <= i < inserted(sorted, message).len() ==> #[trigger] inserted(sorted, message)[i]
                == message || sorted.contains(inserted(sorted, message)[i]),
    decreases sorted.len(),
{
    broadcast use vstd::seq_lib::group_to_multiset_ensures;

    let r = inserted(sorted, message);
    if sorted.len() == 0 || !message_before(message, sorted.last()) {
        assert(r =~= sorted.push(message));
        assert forall|i: int, j: int| 0 <= i < j < r.len() implies !message_before(
            #[trigger] r[j],
            #[trigger] r[i],
        ) by {
            if j == sorted.len() {
                if message_before(message, sorted[i]) && i < sorted.len() - 1 {
                    lemma_before_transitive(sorted[i], sorted.last(), message);
                }
            }
        }
        assert forall|i: int| 0 <= i < r.len() implies #[trigger] r[i] == message
            || sorted.contains(r[i]) by {
            if i < sorted.len() {
                assert(sorted[i] == r[i]);
            }
        }
    } else {
        let front = sorted.drop_last();
        let last = sorted.last();
        assert(ordered(front)) by {
            assert forall|i: int, j: int| 0 <= i < j < front.len() implies !message_before(
                #[trigger] front[j],
                #[trigger] front[i],
            ) by {
                assert(front[j] == sorted[j] && front[i] == sorted[i]);
            }
        }
        lemma_inserted_ordered(front, message);
        let part = inserted(front, message);
        assert(r =~= part.push(last));
        assert(sorted =~= front.push(last));
        assert forall|i: int, j: int| 0 <= i < j < r.len() implies !message_before(
            #[trigger] r[j],
            #[trigger] r[i],
        ) by {
            if j == part.len() {
                assert(r[i] == part[i]);
                if part[i] == message {
                    lemma_before_strict(message, last);
                } else {
                    let k = choose|k: int| 0 <= k < front.len() && front[k] == part[i];
                    assert(sorted[k] == part[i]);
                    assert(!message_before(sorted[sorted.len() - 1], sorted[k]));
                }
            } else {
                assert(r[j] == part[j] && r[i] == part[i]);
            }
        }
        assert forall|i: int| 0 <= i < r.len() implies #[trigger] r[i] == message
            || sorted.contains(r[i]) by {
            if i < part.len() {
                assert(r[i] == part[i]);
                if part[i] != message {
                    let k = choose|k: int| 0 <= k < front.len() && front[k] == part[i];
                    assert(sorted[k] == r[i]);
                }
            } else {
                assert(sorted[sorted.len() - 1] == r[i]);
            }
        }
        assert(r.to_multiset() =~= sorted.to_multiset().insert(message)) by {
            assert(r.to_multiset() =~= part.to_multiset().insert(last));
            assert(sorted.to_multiset() =~= front.to_multiset().insert(last));
        }
    }
}

/// A batch that is put in order holds the same messages, and none comes before one ahead of it.
pub proof fn law_batches_are_ordered(messages: Seq<IncomingMessage>)
    ensures
        ordered(in_order(messages)),
        in_order(messages).to_multiset() =~= messages.to_multiset(),
    decreases messages.len(),
{
    broadcast use vstd::seq_lib::group_to_multiset_ensures;

    if messages.len() > 0 {
        law_batches_are_ordered(messages.drop_last());
        lemma_inserted_ordered(in_order(messages.drop_last()), messages.last());
        assert(messages =~= messages.drop_last().push(messages.last()));
    } else {
        assert(messages =~= Seq::empty());
    }
}

/// What came of asking for a plan.
#[derive(Debug, PartialEq)]
pub enum PlanAttempt {
    Planned(RespActionPlan),
    /// To be asked once more.
    AskAgain,
    GiveUp,
}

/// What a plan attempt holds.
pub enum PlanAttemptView {
    Planned(PlanView),
    AskAgain,
    GiveUp,
}

impl View for PlanAttempt {
    type V = PlanAttemptView;

    open spec fn view(&self) -> PlanAttemptView {
        match self {
            PlanAttempt::Planned(plan) => PlanAttemptView::Planned(plan@),
            PlanAttempt::AskAgain => PlanAttemptView::AskAgain,
            PlanAttempt::GiveUp => PlanAttemptView::GiveUp,
        }
    }
}

/// What comes of asking for a plan the `attempt`th time out of `max_attempts`; an answer that is
/// no plan counts like no answer.
pub open spec fn plan_attempt_of(
    attempt: u32,
    max_attempts: u32,
    plan: Option<PlanView>,
) -> PlanAttemptView {
    match plan {
        Some(plan) => PlanAttemptView::Planned(plan),
        None => if attempt < max_attempts {
            PlanAttemptView::AskAgain
        } else {
            PlanAttemptView::GiveUp
        },
    }
}

/// What comes of asking for a plan once the answer was read.
pub fn plan_attempt(attempt: u32, max_attempts: u32, plan: Option<RespActionPlan>) -> (r:
    PlanAttempt)
    ensures
        r@ == plan_attempt_of(
            attempt,
            max_attempts,
            match plan {
                Some(p) => Some(p@),
                None => None,
            },
        ),
{
    match plan {
        Some(plan) => PlanAttempt::Planned(plan),
        None => {
            if attempt < max_attempts {
                PlanAttempt::AskAgain
            } else {
                PlanAttempt::GiveUp
            }
        },
    }
}

/// What comes of asking for a plan; `reply` is the answer, where there was one.
pub fn receive_plan(attempt: u32, max_attempts: u32, reply: Option<&str>) -> (r: PlanAttempt)
    ensures
        r@ == plan_attempt_of(
            attempt,
            max_attempts,
            match reply {
                Some(text) => plan_of(json_parsed(text@)),
                None => None,
            },
        ),
{
    match reply {
        Some(text) => plan_attempt(attempt, max_attempts, parse_action_plan(text)),
        None => plan_attempt(attempt, max_attempts, None),
    }
}

/// The text for a request that took too long.
pub fn timeout_message(request_name: &str, timeout_seconds: u64) -> (r: String)
    ensures
        r@ == request_name@ + "超时，超过 "@ + decimal_of(timeout_seconds as nat) + " 秒"@,
{
    let mut r = request_name.to_owned();
    r.push_str("超时，超过 ");
    r.push_str(&decimal(timeout_seconds));
    r.push_str(" 秒");
    r
}

/// Why a date and a time of day name no point in time.
#[derive(Debug, PartialEq, Eq)]
pub enum ScheduleTimeError {
    /// The date cannot be read, with what is wrong with it.
    BadDate { fault: String },
    /// The time of day cannot be read, with what is wrong with it.
    BadTime { fault: String },
    /// The clock on the wall shows it never or twice.
    NotOnce,
}

/// What an error holds.
pub enum ScheduleTimeErrorView {
    BadDate { fault: Seq<char> },
    BadTime { fault: Seq<char> },
    NotOnce,
}

impl View for ScheduleTimeError {
    type V = ScheduleTimeErrorView;

    open spec fn view(&self) -> ScheduleTimeErrorView {
        match self {
            ScheduleTimeError::BadDate { fault } => ScheduleTimeErrorView::BadDate {
                fault: fault@,
            },
            ScheduleTimeError::BadTime { fault } => ScheduleTimeErrorView::BadTime {
                fault: fault@,
            },
            ScheduleTimeError::NotOnce => ScheduleTimeErrorView::NotOnce,
        }
    }
}

/// What an error says.
pub open spec fn schedule_time_error_text(error: ScheduleTimeErrorView) -> Seq<char> {
    match error {
        ScheduleTimeErrorView::BadDate { fault } => "日期格式错误，需要 YYYY-MM-DD："@ + fault,
        ScheduleTimeErrorView::BadTime { fault } => "时间格式错误，需要 HH:MM:SS："@ + fault,
        ScheduleTimeErrorView::NotOnce => "本地日期时间不存在或不唯一"@,
    }
}

impl ScheduleTimeError {
    /// What the error says.
    pub fn message(&self) -> (r: String)
        ensures
            r@ == schedule_time_error_text(self@),
    {
        match self {
            ScheduleTimeError::BadDate { fault } => {
                let mut r = "日期格式错误，需要 YYYY-MM-DD：".to_owned();
                r.push_str(fault);
                r
            },
            ScheduleTimeError::BadTime { fault } => {
                let mut r = "时间格式错误，需要 HH:MM:SS：".to_owned();
                r.push_str(fault);
                r
            },
            ScheduleTimeError::NotOnce => "本地日期时间不存在或不唯一".to_owned(),
        }
    }
}

/// What is wrong with the texts of a date and a time of day.
pub open spec fn schedule_time_fault(date: Seq<char>, time: Seq<char>) -> Option<
    ScheduleTimeErrorView,
> {
    if day_parsed(trim_of(date), "%Y-%m-%d"@) is None {
        Some(ScheduleTimeErrorView::BadDate { fault: day_fault(trim_of(date), "%Y-%m-%d"@) })
    } else if time_parsed(trim_of(time), "%H:%M:%S"@) is None {
        Some(ScheduleTimeErrorView::BadTime { fault: time_fault(trim_of(time), "%H:%M:%S"@) })
    } else {
        None
    }
}

/// The single point in time at which the clock on the wall shows a reading.
pub fn single_moment(moment: WallMoment) -> (r: Result<i64, ScheduleTimeError>)
    ensures
        r == (match moment {
            WallMoment::Once(t) => Ok::<i64, ScheduleTimeError>(t),
            _ => Err(ScheduleTimeError::NotOnce),
        }),
{
    match moment {
        WallMoment::Once(t) => Ok(t),
        _ => Err(ScheduleTimeError::NotOnce),
    }
}

/// The point in time that a date and a time of day name, less than a day from the reading that
/// they give.
pub fn parse_schedule_datetime(date: &str, time: &str) -> (r: Result<i64, ScheduleTimeError>)
    ensures
        match schedule_time_fault(date@, time@) {
            Some(fault) => r matches Err(e) && e@ == fault,
            None => match r {
                Ok(t) => -86400 < t - reading_seconds(
                    day_parsed(trim_of(date@), "%Y-%m-%d"@).unwrap().number,
                    time_parsed(trim_of(time@), "%H:%M:%S"@).unwrap().0,
                ) < 86400,
                Err(e) => e == ScheduleTimeError::NotOnce,
            },
        },
{
    let day: i32 = match read_day(&trim(date), "%Y-%m-%d") {
        Ok(day) => day.number,
        Err(fault) => {
            return Err(ScheduleTimeError::BadDate { fault });
        },
    };
    let (seconds, nanos): (u32, u32) = match read_time(&trim(time), "%H:%M:%S") {
        Ok(time) => time,
        Err(fault) => {
            return Err(ScheduleTimeError::BadTime { fault });
        },
    };
    let reading: i64 = (day as i64 - 719163) * 86400 + seconds as i64;
    assert(reading == reading_seconds(day, seconds));
    assert(readable(reading, nanos)) by {
        assert(((day - 719163) * 86400 + seconds) % 60 == seconds % 60) by (nonlinear_arith)
            requires
                0 <= seconds < 86400,
        ;
    }
    single_moment(moment_of(reading, nanos))
}

/// How long a task that is due at a point in time waits, in milliseconds; one that is overdue
/// waits a second.
pub open spec fn schedule_delay_of(scheduled_at: i64, wall_ms: i64) -> u64 {
    let left = scheduled_at * 1000 - wall_ms;
    if left < 0 {
        1000
    } else {
        left as u64
    }
}

/// How long a task that is due at a point in time waits, in milliseconds; one that is overdue
/// waits a second.
pub fn schedule_delay(scheduled_at: i64, wall_ms: i64) -> (r: u64)
    requires
        showable(scheduled_at),
    ensures
        r == schedule_delay_of(scheduled_at, wall_ms),
{
    let left: i128 = scheduled_at as i128 * 1000 - wall_ms as i128;
    if left < 0 {
        1000
    } else {
        left as u64
    }
}

/// What is to be done outside of the worker for an action.
#[derive(Debug, PartialEq, Eq)]
pub enum ActionEffect {
    SendMessage { text: String },
    /// A tool is started, to be shown with its input.
    RecognizeImage { image_id: String, question: String, input_summary: String },
    WebSearch { query: String, input_summary: String },
    /// A task is planned at a date and a time of day.
    ScheduleTask { date: String, time: String, task: String },
    /// Nothing.
    Nothing,
}

/// What an effect holds.
#[allow(inconsistent_fields)]
pub enum EffectView {
    SendMessage { text: Seq<char> },
    RecognizeImage { image_id: Seq<char>, question: Seq<char>, input_summary: Seq<char> },
    WebSearch { query: Seq<char>, input_summary: Seq<char> },
    ScheduleTask { date: Seq<char>, time: Seq<char>, task: Seq<char> },
    Nothing,
}

impl View for ActionEffect {
    type V = EffectView;

    open spec fn view(&self) -> EffectView {
        match self {
            ActionEffect::SendMessage { text } => EffectView::SendMessage { text: text@ },
            ActionEffect::RecognizeImage { image_id, question, input_summary } =>
            EffectView::RecognizeImage {
                image_id: image_id@,
                question: question@,
                input_summary: input_summary@,
            },
            ActionEffect::WebSearch { query, input_summary } => EffectView::WebSearch {
                query: query@,
                input_summary: input_summary@,
            },
            ActionEffect::ScheduleTask { date, time, task } => EffectView::ScheduleTask {
                date: date@,
                time: time@,
                task: task@,
            },
            ActionEffect::Nothing => EffectView::Nothing,
        }
    }
}

/// A worker once an action was carried out, and what is left to be done outside of it.
pub open spec fn carried_out(worker: WorkerView, action: ActionView, now: u64) -> (
    WorkerView,
    EffectView,
) {
    match action {
        ActionView::SendMessage { text } => (worker, EffectView::SendMessage { text }),
        ActionView::RecognizeImage { image_id, question } => (
            worker,
            EffectView::RecognizeImage {
                image_id,
                question,
                input_summary: "图片ID："@ + image_id + "；问题："@ + question,
            },
        ),
        ActionView::WebSearch { query } => (
            worker,
            EffectView::WebSearch { query, input_summary: "查询："@ + query },
        ),
        ActionView::WaitThenCheck { delay_seconds, reason } => {
            let delay = clamped_seconds(
                delay_seconds,
                WAIT_THEN_CHECK_DELAY_MIN_SECS,
                WAIT_THEN_CHECK_DELAY_MAX_SECS,
            );
            (
                WorkerView {
                    wait_check: Some(((now + delay * 1000) as u64, delay, reason)),
                    ..worker
                },
                EffectView::Nothing,
            )
        },
        ActionView::ScheduleTask { date, time, task } => (
            worker,
            EffectView::ScheduleTask { date, time, task },
        ),
        ActionView::IgnoreMessages { duration_seconds } => {
            let duration = clamped_seconds(
                duration_seconds,
                IGNORE_MESSAGES_MIN_SECS,
                IGNORE_MESSAGES_MAX_SECS,
            );
            (
                WorkerView {
                    wait_check: None,
                    ignoring: Some(
                        PendingIgnoreMessages {
                            ready_at: (now + duration * 1000) as u64,
                            duration_seconds: duration,
                            has_unread_messages: false,
                        },
                    ),
                    ..worker
                },
                EffectView::Nothing,
            )
        },
        ActionView::Remember { .. } => (worker, EffectView::Nothing),
        ActionView::CancelScheduledTask { .. } => (worker, EffectView::Nothing),
    }
}

impl ConversationWorker {
    /// Carries out an action as far as the worker itself is concerned, and tells what is left.
    pub fn execute_action(&mut self, action: RespAction, now: u64) -> (r: ActionEffect)
        requires
            now + WAIT_THEN_CHECK_DELAY_MAX_SECS * 1000 <= u64::MAX,
            now + IGNORE_MESSAGES_MAX_SECS * 1000 <= u64::MAX,
        ensures
            (final(self)@, r@) == carried_out(old(self)@, action@, now),
    {
        match action {
            RespAction::SendMessage { text } => ActionEffect::SendMessage { text },
            RespAction::RecognizeImage { image_id, question } => {
                let mut input_summary = "图片ID：".to_owned();
                input_summary.push_str(&image_id);
                input_summary.push_str("；问题：");
                input_summary.push_str(&question);
                ActionEffect::RecognizeImage { image_id, question, input_summary }
            },
            RespAction::WebSearch { query } => {
                let mut input_summary = "查询：".to_owned();
                input_summary.push_str(&query);
                ActionEffect::WebSearch { query, input_summary }
            },
            RespAction::WaitThenCheck { delay_seconds, reason } => {
                self.execute_wait_then_check(now, delay_seconds, reason);
                ActionEffect::Nothing
            },
            RespAction::ScheduleTask { date, time, task } => ActionEffect::ScheduleTask {
                date,
                time,
                task,
            },
            RespAction::IgnoreMessages { duration_seconds } => {
                self.execute_ignore_messages(now, duration_seconds);
                ActionEffect::Nothing
            },
            RespAction::Remember { .. } => ActionEffect::Nothing,
            RespAction::CancelScheduledTask { .. } => ActionEffect::Nothing,
        }
    }

    /// Plans a task for a point in time; `wall_ms` is what the clock on the wall shows now, in
    /// milliseconds since the start of 1970. A point in time that no calendar holds is passed over.
    pub fn schedule_task_at(
        &mut self,
        now: u64,
        wall_ms: i64,
        scheduled_at: i64,
        task: String,
    ) -> (planned: bool)
        requires
            now as int + schedule_delay_of(scheduled_at, wall_ms) <= u64::MAX,
        ensures
            planned == showable(scheduled_at),
            !planned ==> final(self)@ == old(self)@,
            planned ==> exists|shown: LocalTime|
                #![trigger full_text(shown)]
                shown_at(shown, scheduled_at) && final(self)@ == (WorkerView {
                    tasks: old(self)@.tasks.push(
                        (
                            (now + schedule_delay_of(scheduled_at, wall_ms)) as u64,
                            full_text(shown),
                            task@,
                        ),
                    ),
                    ..old(self)@
                }),
    {
        match local_time(scheduled_at) {
            Some(shown) => {
                let delay: u64 = schedule_delay(scheduled_at, wall_ms);
                let scheduled_time_text = shown.date_and_time();
                assert(scheduled_time_text@ == full_text(shown));
                self.execute_schedule_task(
                    PendingScheduledTask { ready_at: now + delay, scheduled_time_text, task },
                );
                true
            },
            None => false,
        }
    }
}

/// How a tool ended.
#[derive(Debug, PartialEq, Eq)]
pub enum ToolOutcome {
    Done(String),
    Failed(String),
    /// The task that ran the tool broke off.
    Broken(String),
}

/// The result of a tool by how it ended.
pub fn tool_result(action_name: String, input_summary: String, outcome: ToolOutcome) -> (r:
    ToolActionResult)
    ensures
        r.action_name@ == action_name@,
        r.input_summary@ == input_summary@,
        r.output@ == (match outcome {
            ToolOutcome::Done(output) => output@,
            ToolOutcome::Failed(error) => "工具执行失败："@ + error@,
            ToolOutcome::Broken(error) => "工具任务异常："@ + error@,
        }),
        r.is_error == !(outcome is Done),
{
    let (output, is_error) = match outcome {
        ToolOutcome::Done(output) => (output, false),
        ToolOutcome::Failed(error) => {
            let mut output = "工具执行失败：".to_owned();
            output.push_str(&error);
            (output, true)
        },
        ToolOutcome::Broken(error) => {
            let mut output = "工具任务异常：".to_owned();
            output.push_str(&error);
            (output, true)
        },
    };
    ToolActionResult { action_name, input_summary, output, is_error }
}

/// The result that stands for all tools where the task that gathers them broke off.
pub fn broken_tools_result(error: &str) -> (r: ToolActionResult)
    ensures
        r.action_name@ == "tool_actions"@,
        r.input_summary@ == "本轮工具动作组"@,
        r.output@ == "工具动作组异常："@ + error@,
        r.is_error,
{
    let mut output = "工具动作组异常：".to_owned();
    output.push_str(error);
    ToolActionResult {
        action_name: "tool_actions".to_owned(),
        input_summary: "本轮工具动作组".to_owned(),
        output,
        is_error: true,
    }
}

/// The results of tools stand in the prompt in order, each with its number, what was done, whether it
/// failed, what went in and what came out; and the prompt stays as it was around them.
pub proof fn law_every_result_is_in_the_prompt(prompt: Seq<char>, results: Seq<ToolActionResult>)
    requires
        results.len() > 0,
    ensures
        exists|at: int, before: Seq<char>, after: Seq<char>|
            #![trigger before.subrange(0, at), after.subrange(0, at)]
            {
                let filled = with_results(prompt, results);
                &&& prompt == before + after
                &&& at == before.len()
                &&& filled.len() >= prompt.len()
                &&& filled.take(at) == before
                &&& filled.skip(filled.len() - after.len()) == after
                &&& forall|i: int|
                    0 <= i < results.len() ==> has_text(
                        filled.subrange(at, filled.len() - after.len()),
                        decimal_of((i + 1) as nat) + ". 动作："@ + (#[trigger] results[i]).action_name@
                            + "（"@ + (if results[i].is_error {
                            "失败"@
                        } else {
                            "完成"@
                        }) + "）\n输入："@ + results[i].input_summary@ + "\n结果："@
                            + results[i].output@,
                    )
            },
{
    let filled = with_results(prompt, results);
    let text = "\n# 工具结果\n"@ + results_text(results) + "\n"@;
    lemma_find_first(prompt, "\n# 当前任务"@, 0);
    let at = match find_from(prompt, "\n# 当前任务"@, 0) {
        Some(i) => i,
        None => prompt.len() as int,
    };
    let before = prompt.take(at);
    let after = prompt.skip(at);
    assert(prompt =~= before + after);
    assert(filled =~= before + text + after);
    assert(filled.take(at) =~= before);
    assert(filled.skip(filled.len() - after.len()) =~= after);
    assert(filled.subrange(at, filled.len() - after.len()) =~= text);
    let listed = Seq::new(results.len(), |i: int| result_text((i + 1) as nat, results[i]));
    assert forall|i: int| 0 <= i < results.len() implies has_text(
        text,
        decimal_of((i + 1) as nat) + ". 动作："@ + (#[trigger] results[i]).action_name@ + "（"@ + (
        if results[i].is_error {
            "失败"@
        } else {
            "完成"@
        }) + "）\n输入："@ + results[i].input_summary@ + "\n结果："@ + results[i].output@,
    ) by {
        lemma_joined(listed, "\n\n"@, i);
        let piece = listed[i];
        let k = choose|k: int| occurs_at(results_text(results), piece, k);
        lemma_occurs_behind("\n# 工具结果\n"@, results_text(results), piece, k);
        lemma_occurs_in_front(
            "\n# 工具结果\n"@ + results_text(results),
            "\n"@,
            piece,
            "\n# 工具结果\n"@.len() + k,
        );
        assert(occurs_at(text, piece, "\n# 工具结果\n"@.len() + k));
    }
    assert(before.subrange(0, at) =~= before);
    assert(after.subrange(0, at) =~= after.subrange(0, at));
}

} // verus!
