//! The plan of actions that a model answers with.

use vstd::prelude::*;

use crate::json::{items_view, json_parsed, named, parse_json, with_names, Json, JsonView};
use crate::text::{join, join_of, same_text, texts};

verus! {

/// A plan: the state of mind and what to do.
#[derive(Debug, PartialEq, Eq)]
pub struct RespActionPlan {
    pub mind_state: String,
    pub actions: Vec<RespAction>,
}

/// Something to do.
#[derive(Debug, PartialEq, Eq)]
pub enum RespAction {
    SendMessage { text: String },
    RecognizeImage { image_id: String, question: String },
    WebSearch { query: String },
    Remember { content: String },
    WaitThenCheck { delay_seconds: u64, reason: String },
    ScheduleTask { date: String, time: String, task: String },
    CancelScheduledTask { time: String },
    IgnoreMessages { duration_seconds: u64 },
}

/// What an action holds.
#[allow(inconsistent_fields)]
pub enum ActionView {
    SendMessage { text: Seq<char> },
    RecognizeImage { image_id: Seq<char>, question: Seq<char> },
    WebSearch { query: Seq<char> },
    Remember { content: Seq<char> },
    WaitThenCheck { delay_seconds: u64, reason: Seq<char> },
    ScheduleTask { date: Seq<char>, time: Seq<char>, task: Seq<char> },
    CancelScheduledTask { time: Seq<char> },
    IgnoreMessages { duration_seconds: u64 },
}

impl View for RespAction {
    type V = ActionView;

    open spec fn view(&self) -> ActionView {
        match self {
            RespAction::SendMessage { text } => ActionView::SendMessage { text: text@ },
            RespAction::RecognizeImage { image_id, question } => ActionView::RecognizeImage {
                image_id: image_id@,
                question: question@,
            },
            RespAction::WebSearch { query } => ActionView::WebSearch { query: query@ },
            RespAction::Remember { content } => ActionView::Remember { content: content@ },
            RespAction::WaitThenCheck { delay_seconds, reason } => ActionView::WaitThenCheck {
                delay_seconds: *delay_seconds,
                reason: reason@,
            },
            RespAction::ScheduleTask { date, time, task } => ActionView::ScheduleTask {
                date: date@,
                time: time@,
                task: task@,
            },
            RespAction::CancelScheduledTask { time } => ActionView::CancelScheduledTask {
                time: time@,
            },
            RespAction::IgnoreMessages { duration_seconds } => ActionView::IgnoreMessages {
                duration_seconds: *duration_seconds,
            },
        }
    }
}

/// The actions of a list.
pub open spec fn actions_view(actions: Seq<RespAction>) -> Seq<ActionView> {
    Seq::new(actions.len(), |i: int| actions[i]@)
}

/// What a plan holds.
pub struct PlanView {
    pub mind_state: Seq<char>,
    pub actions: Seq<ActionView>,
}

impl View for RespActionPlan {
    type V = PlanView;

    open spec fn view(&self) -> PlanView {
        PlanView { mind_state: self.mind_state@, actions: actions_view(self.actions@) }
    }
}

/// The name of an action.
pub open spec fn name_of(action: ActionView) -> Seq<char> {
    match action {
        ActionView::SendMessage { .. } => "send_message"@,
        ActionView::RecognizeImage { .. } => "recognize_image"@,
        ActionView::WebSearch { .. } => "web_search"@,
        ActionView::Remember { .. } => "remember"@,
        ActionView::WaitThenCheck { .. } => "wait_then_check"@,
        ActionView::ScheduleTask { .. } => "schedule_task"@,
        ActionView::CancelScheduledTask { .. } => "cancel_scheduled_task"@,
        ActionView::IgnoreMessages { .. } => "ignore_messages"@,
    }
}

impl RespAction {
    /// The name of the action.
    pub fn action_name(&self) -> (r: &'static str)
        ensures
            r@ == name_of(self@),
    {
        match self {
            RespAction::SendMessage { .. } => "send_message",
            RespAction::RecognizeImage { .. } => "recognize_image",
            RespAction::WebSearch { .. } => "web_search",
            RespAction::Remember { .. } => "remember",
            RespAction::WaitThenCheck { .. } => "wait_then_check",
            RespAction::ScheduleTask { .. } => "schedule_task",
            RespAction::CancelScheduledTask { .. } => "cancel_scheduled_task",
            RespAction::IgnoreMessages { .. } => "ignore_messages",
        }
    }
}

/// The names of actions in one text.
pub open spec fn names_text(actions: Seq<ActionView>) -> Seq<char> {
    if actions.len() == 0 {
        "无动作"@
    } else {
        "["@ + join_of(Seq::new(actions.len(), |i: int| name_of(actions[i])), ", "@) + "]"@
    }
}

/// The names of actions in one text.
pub fn action_names(actions: &Vec<RespAction>) -> (r: String)
    ensures
        r@ == names_text(actions_view(actions@)),
{
    if actions.len() == 0 {
        return "无动作".to_owned();
    }
    let ghost all = actions_view(actions@);
    let ghost listed = Seq::new(all.len(), |i: int| name_of(all[i]));
    let mut names: Vec<String> = Vec::new();
    let mut i: usize = 0;
    while i < actions.len()
        invariant
            i <= actions@.len(),
            all == actions_view(actions@),
            listed == Seq::new(all.len(), |i: int| name_of(all[i])),
            texts(names@) =~= listed.take(i as int),
        decreases actions@.len() - i,
    {
        let ghost before = texts(names@);
        let name = actions[i].action_name().to_owned();
        names.push(name);
        assert(texts(names@) =~= before.push(name@));
        assert(listed.take(i + 1) =~= listed.take(i as int).push(listed[i as int]));
        i += 1;
    }
    assert(listed.take(i as int) =~= listed);
    let mut r = "[".to_owned();
    r.push_str(&join(&names, ", "));
    r.push_str("]");
    r
}

/// An action; nothing where it has another shape.
pub open spec fn action_in(v: JsonView) -> Option<ActionView> {
    let action = with_names(v, seq!["action", "payload"]);
    match (action.text_field("action"@), action.field("payload"@)) {
        (Some(name), Some(found)) => if name == "send_message"@ {
            let payload = with_names(found, seq!["text"]);
            match payload.text_field("text"@) {
                Some(text) => Some(ActionView::SendMessage { text }),
                None => None,
            }
        } else if name == "recognize_image"@ {
            let payload = with_names(found, seq!["image_id", "question"]);
            match (payload.text_field("image_id"@), payload.text_field("question"@)) {
                (Some(image_id), Some(question)) => Some(
                    ActionView::RecognizeImage { image_id, question },
                ),
                _ => None,
            }
        } else if name == "web_search"@ {
            let payload = with_names(found, seq!["query"]);
            match payload.text_field("query"@) {
                Some(query) => Some(ActionView::WebSearch { query }),
                None => None,
            }
        } else if name == "remember"@ {
            let payload = with_names(found, seq!["content"]);
            match payload.text_field("content"@) {
                Some(content) => Some(ActionView::Remember { content }),
                None => None,
            }
        } else if name == "wait_then_check"@ {
            let payload = with_names(found, seq!["delay_seconds", "reason"]);
            match (payload.unsigned_field("delay_seconds"@), payload.text_field("reason"@)) {
                (Some(delay_seconds), Some(reason)) => Some(
                    ActionView::WaitThenCheck { delay_seconds, reason },
                ),
                _ => None,
            }
        } else if name == "schedule_task"@ {
            let payload = with_names(found, seq!["date", "time", "task"]);
            match (
                payload.text_field("date"@),
                payload.text_field("time"@),
                payload.text_field("task"@),
            ) {
                (Some(date), Some(time), Some(task)) => Some(
                    ActionView::ScheduleTask { date, time, task },
                ),
                _ => None,
            }
        } else if name == "cancel_scheduled_task"@ {
            let payload = with_names(found, seq!["time"]);
            match payload.text_field("time"@) {
                Some(time) => Some(ActionView::CancelScheduledTask { time }),
                None => None,
            }
        } else if name == "ignore_messages"@ {
            let payload = with_names(found, seq!["duration_seconds"]);
            match payload.unsigned_field("duration_seconds"@) {
                Some(duration_seconds) => Some(ActionView::IgnoreMessages { duration_seconds }),
                None => None,
            }
        } else {
            None
        },
        _ => None,
    }
}

/// An action; nothing where it has another shape.
pub fn read_action(v: &Json) -> (r: Option<RespAction>)
    ensures
        match r {
            Some(a) => action_in(v@) == Some(a@),
            None => action_in(v@) is None,
        },
{
    let names = vec!["action", "payload"];
    assert(names@ =~= seq!["action", "payload"]);
    let action = named(v, names);
    let (name, found) = match (action.text_at("action"), action.get("payload")) {
        (Some(name), Some(found)) => (name, found),
        _ => {
            return None;
        },
    };
    if same_text(&name, "send_message") {
        let names = vec!["text"];
        assert(names@ =~= seq!["text"]);
        let payload = named(found, names);
        match payload.text_at("text") {
            Some(text) => Some(RespAction::SendMessage { text }),
            None => None,
        }
    } else if same_text(&name, "recognize_image") {
        let names = vec!["image_id", "question"];
        assert(names@ =~= seq!["image_id", "question"]);
        let payload = named(found, names);
        match (payload.text_at("image_id"), payload.text_at("question")) {
            (Some(image_id), Some(question)) => Some(
                RespAction::RecognizeImage { image_id, question },
            ),
            _ => None,
        }
    } else if same_text(&name, "web_search") {
        let names = vec!["query"];
        assert(names@ =~= seq!["query"]);
        let payload = named(found, names);
        match payload.text_at("query") {
            Some(query) => Some(RespAction::WebSearch { query }),
            None => None,
        }
    } else if same_text(&name, "remember") {
        let names = vec!["content"];
        assert(names@ =~= seq!["content"]);
        let payload = named(found, names);
        match payload.text_at("content") {
            Some(content) => Some(RespAction::Remember { content }),
            None => None,
        }
    } else if same_text(&name, "wait_then_check") {
        let names = vec!["delay_seconds", "reason"];
        assert(names@ =~= seq!["delay_seconds", "reason"]);
        let payload = named(found, names);
        match (payload.unsigned_at("delay_seconds"), payload.text_at("reason")) {
            (Some(delay_seconds), Some(reason)) => Some(
                RespAction::WaitThenCheck { delay_seconds, reason },
            ),
            _ => None,
        }
    } else if same_text(&name, "schedule_task") {
        let names = vec!["date", "time", "task"];
        assert(names@ =~= seq!["date", "time", "task"]);
        let payload = named(found, names);
        match (payload.text_at("date"), payload.text_at("time"), payload.text_at("task")) {
            (Some(date), Some(time), Some(task)) => Some(
                RespAction::ScheduleTask { date, time, task },
            ),
            _ => None,
        }
    } else if same_text(&name, "cancel_scheduled_task") {
        let names = vec!["time"];
        assert(names@ =~= seq!["time"]);
        let payload = named(found, names);
        match payload.text_at("time") {
            Some(time) => Some(RespAction::CancelScheduledTask { time }),
            None => None,
        }
    } else if same_text(&name, "ignore_messages") {
        let names = vec!["duration_seconds"];
        assert(names@ =~= seq!["duration_seconds"]);
        let payload = named(found, names);
        match payload.unsigned_at("duration_seconds") {
            Some(duration_seconds) => Some(RespAction::IgnoreMessages { duration_seconds }),
            None => None,
        }
    } else {
        None
    }
}

/// The actions in a list; nothing where one has another shape.
pub open spec fn actions_in(items: Seq<JsonView>) -> Option<Seq<ActionView>>
    decreases items.len(),
{
    if items.len() == 0 {
        Some(Seq::empty())
    } else {
        match (actions_in(items.drop_last()), action_in(items.last())) {
            (Some(front), Some(action)) => Some(front.push(action)),
            _ => None,
        }
    }
}

proof fn lemma_actions_none(items: Seq<JsonView>, n: int)
    requires
        0 <= n <= items.len(),
        actions_in(items.take(n)) is None,
    ensures
        actions_in(items) is None,
    decreases items.len() - n,
{
    if n < items.len() {
        assert(items.take(n + 1).drop_last() =~= items.take(n));
        lemma_actions_none(items, n + 1);
    } else {
        assert(items.take(n) =~= items);
    }
}

/// A plan; nothing where it has another shape.
pub open spec fn plan_in(v: JsonView) -> Option<PlanView> {
    let plan = with_names(v, seq!["mind_state", "actions"]);
    match (plan.text_field("mind_state"@), plan.array_field("actions"@)) {
        (Some(mind_state), Some(items)) => match actions_in(items) {
            Some(actions) => Some(PlanView { mind_state, actions }),
            None => None,
        },
        _ => None,
    }
}

/// A plan; nothing where it has another shape.
pub fn read_action_plan(v: &Json) -> (r: Option<RespActionPlan>)
    ensures
        match r {
            Some(p) => plan_in(v@) == Some(p@),
            None => plan_in(v@) is None,
        },
{
    let names = vec!["mind_state", "actions"];
    assert(names@ =~= seq!["mind_state", "actions"]);
    let plan = named(v, names);
    let (mind_state, items) = match (plan.text_at("mind_state"), plan.array_at("actions")) {
        (Some(mind_state), Some(items)) => (mind_state, items),
        _ => {
            return None;
        },
    };
    let ghost all = items_view(items@);
    let mut actions: Vec<RespAction> = Vec::new();
    assert(actions_view(actions@) =~= Seq::empty());
    let mut i: usize = 0;
    while i < items.len()
        invariant
            i <= items@.len(),
            all == items_view(items@),
            plan@ == with_names(v@, seq!["mind_state", "actions"]),
            plan@.text_field("mind_state"@) == Some(mind_state@),
            plan@.array_field("actions"@) == Some(all),
            actions_in(all.take(i as int)) == Some(actions_view(actions@)),
        decreases items@.len() - i,
    {
        proof {
            assert(all.take(i + 1).drop_last() =~= all.take(i as int));
            assert(all.take(i + 1).last() == items@[i as int]@);
        }
        match read_action(&items[i]) {
            Some(action) => {
                let ghost before = actions_view(actions@);
                actions.push(action);
                assert(actions_view(actions@) =~= before.push(action@));
            },
            None => {
                proof {
                    lemma_actions_none(all, i + 1);
                }
                return None;
            },
        }
        i += 1;
    }
    assert(all.take(i as int) =~= all);
    Some(RespActionPlan { mind_state, actions })
}

/// The plan that a parsed answer holds.
pub open spec fn plan_of(parsed: Option<JsonView>) -> Option<PlanView> {
    match parsed {
        Some(v) => plan_in(v),
        None => None,
    }
}

/// The plan that an answer of a model holds. A text that writes a field twice is left to the
/// caller to refuse: the parsed value does not show it.
pub fn parse_action_plan(content: &str) -> (r: Option<RespActionPlan>)
    ensures
        match r {
            Some(p) => plan_of(json_parsed(content@)) == Some(p@),
            None => plan_of(json_parsed(content@)) is None,
        },
{
    match parse_json(content) {
        Some(v) => read_action_plan(&v),
        None => None,
    }
}

/// A plan is read whole or not at all: it has an action for each item of the list, in order, and the
/// state of mind as it was written.
pub proof fn law_every_action_is_read(v: JsonView, plan: PlanView)
    requires
        v is Object,
        plan_in(v) == Some(plan),
    ensures
        v.text_field("mind_state"@) == Some(plan.mind_state),
        v.array_field("actions"@) matches Some(items) && items.len() == plan.actions.len()
            && forall|i: int|
            0 <= i < items.len() ==> action_in(#[trigger] items[i]) == Some(plan.actions[i]),
{
    lemma_every_action(v.array_field("actions"@).unwrap(), plan.actions);
}

proof fn lemma_every_action(items: Seq<JsonView>, actions: Seq<ActionView>)
    requires
        actions_in(items) == Some(actions),
    ensures
        items.len() == actions.len(),
        forall|i: int| 0 <= i < items.len() ==> action_in(#[trigger] items[i]) == Some(actions[i]),
    decreases items.len(),
{
    if items.len() > 0 {
        let front = items.drop_last();
        lemma_every_action(front, actions_in(front).unwrap());
        assert forall|i: int| 0 <= i < items.len() implies action_in(#[trigger] items[i]) == Some(
            actions[i],
        ) by {
            if i < front.len() {
                assert(front[i] == items[i]);
            }
        }
    }
}

} // verus!
