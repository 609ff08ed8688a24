//! The loop that answers a conversation: a request to the model, its text to the platform, its tool
//! calls, and the next request with their results.

use vstd::prelude::*;

use crate::ai_provider::{
    append_messages, messages_view, push_message, MessageView, ResponseView, ToolChatMessage,
    ToolChatResponse,
};
use crate::conversation_context::{
    next_turn, rounds_view, sealed_tail, ActiveToolHistory, ContextError, HistoryView,
    RoundView, RuntimeContextState, StateView, ToolRoundHistory, round_fault, without_reasoning,
};
use crate::id_set::IdSet;
use crate::json::option_text;
use crate::pipeline::chat_processor::{
    last_system, memory_changed, needs_answer, non_empty_response_content,
    refresh_instruction_prompt, results_need_refresh, sendable, should_continue_tool_loop,
};
use crate::tools::{
    calls_view, copy_calls, ConversationEffect, ToolCall, ToolCallView, ToolResult,
};
use crate::transport::ConversationKind;

verus! {

/// How many times in a row tools are run for one conversation.
pub const MAX_TOOL_ROUNDS: usize = 8;

/// For how many turns the tool exchanges of a direct conversation are kept.
pub const DIRECT_TOOL_HISTORY_TURNS: usize = 5;

/// Where the loop stands.
pub struct LoopView {
    /// How many rounds of tools have been run.
    pub round: nat,
    /// The messages of the next request.
    pub messages: Seq<MessageView>,
    pub rounds: Seq<RoundView>,
    /// The sent messages that the tool exchanges already show.
    pub shown: Seq<i64>,
    pub effect: ConversationEffect,
    pub marked_read: bool,
    /// The expired memories that an answered request showed.
    pub displayed: Set<i64>,
    /// The expired memories that the next request shows.
    pub pending: Seq<i64>,
}

/// The loop that answers a conversation.
#[derive(Debug)]
pub struct ToolLoop {
    round: usize,
    messages: Vec<ToolChatMessage>,
    rounds: Vec<ToolRoundHistory>,
    shown: Vec<i64>,
    effect: ConversationEffect,
    marked_read: bool,
    displayed: IdSet,
    pending: Vec<i64>,
}

impl View for ToolLoop {
    type V = LoopView;

    closed spec fn view(&self) -> LoopView {
        LoopView {
            round: self.round as nat,
            messages: messages_view(self.messages@),
            rounds: rounds_view(self.rounds@),
            shown: self.shown@,
            effect: self.effect,
            marked_read: self.marked_read,
            displayed: self.displayed@,
            pending: self.pending@,
        }
    }
}

/// What is to be done once the model has answered.
#[derive(Debug, PartialEq, Eq)]
pub struct AnswerStep {
    /// Whether the messages of the request are to be marked as read.
    pub mark_read: bool,
    /// The text to be sent.
    pub text: Option<String>,
}

/// What is to be done once the text of an answer has been sent.
#[derive(Debug, PartialEq, Eq)]
pub enum CallStep {
    /// The loop has ended.
    Finish,
    /// The tools are to be run in this order.
    Run { calls: Vec<ToolCall> },
}

/// The loop after an answer came in.
pub open spec fn answered(state: LoopView) -> LoopView {
    LoopView {
        displayed: state.displayed.union(state.pending.to_set()),
        marked_read: true,
        ..state
    }
}

/// The answer that stands for a tool which was not run any more.
pub open spec fn refusal_text(name: Seq<char>) -> Seq<char> {
    "工具 "@ + name + " 未执行：连续工具调用已达到最大轮数"@
}

/// The results that stand for tools which were not run any more.
pub open spec fn refusals(calls: Seq<ToolCallView>) -> Seq<MessageView> {
    Seq::new(
        calls.len(),
        |i: int|
            MessageView::Tool { tool_call_id: calls[i].id, content: refusal_text(calls[i].name) },
    )
}

/// Exchanges with one more, where it is complete.
pub open spec fn with_round(
    rounds: Seq<RoundView>,
    assistant: MessageView,
    results: Seq<MessageView>,
) -> Seq<RoundView> {
    if round_fault(assistant, results) is None {
        rounds.push(RoundView { assistant: without_reasoning(assistant), results })
    } else {
        rounds
    }
}

/// The loop after the text of an answer was sent as the messages `emitted`. Without calls it ends;
/// so it does when the limit is reached, and the calls are answered as not run.
pub open spec fn sent(state: LoopView, response: ResponseView, emitted: Seq<i64>) -> LoopView {
    if response.tool_calls.len() == 0 {
        state
    } else {
        let shown = state.shown + emitted;
        if state.round >= MAX_TOOL_ROUNDS {
            LoopView {
                shown,
                rounds: with_round(
                    state.rounds,
                    response.as_message(),
                    refusals(response.tool_calls),
                ),
                ..state
            }
        } else {
            LoopView { shown, ..state }
        }
    }
}

/// Whether tools are to be run for an answer.
pub open spec fn runs_tools(state: LoopView, response: ResponseView) -> bool {
    response.tool_calls.len() > 0 && state.round < MAX_TOOL_ROUNDS
}

/// The effect of results on the conversation: the last one that a tool had without failing.
pub open spec fn effect_of(effect: ConversationEffect, results: Seq<ToolResult>) -> ConversationEffect
    decreases results.len(),
{
    if results.len() == 0 {
        effect
    } else if !results.last().is_error && results.last().conversation_effect
        != ConversationEffect::Continue {
        results.last().conversation_effect
    } else {
        effect_of(effect, results.drop_last())
    }
}

/// Results as messages.
pub open spec fn result_messages(results: Seq<ToolResult>) -> Seq<MessageView> {
    Seq::new(
        results.len(),
        |i: int|
            MessageView::Tool {
                tool_call_id: results[i].tool_call_id@,
                content: results[i].content@,
            },
    )
}

/// Instructions that were filled anew, and the expired memories they show.
#[derive(Debug, PartialEq, Eq)]
pub struct RefreshedPrompt {
    pub content: String,
    pub pending_expired_ids: Vec<i64>,
}

/// The messages of the next request and the expired memories it shows: with new instructions in
/// the place of the old ones, where there are any.
pub open spec fn refreshed(
    messages: Seq<MessageView>,
    pending: Seq<i64>,
    prompt: Option<RefreshedPrompt>,
) -> (Seq<MessageView>, Seq<i64>) {
    match prompt {
        Some(p) => match last_system(messages) {
            Some(i) => (
                messages.update(i, MessageView::System { content: p.content@ }),
                p.pending_expired_ids@,
            ),
            None => (messages, pending),
        },
        None => (messages, pending),
    }
}

/// The loop after its tools were run. It goes on where the model has to see a result: then the
/// next request repeats the answer and carries all results.
pub open spec fn ran(
    state: LoopView,
    response: ResponseView,
    results: Seq<ToolResult>,
    prompt: Option<RefreshedPrompt>,
) -> LoopView {
    let kept = LoopView {
        effect: effect_of(state.effect, results),
        rounds: with_round(state.rounds, response.as_message(), result_messages(results)),
        ..state
    };
    if needs_answer(results) {
        let (messages, pending) = refreshed(
            state.messages,
            state.pending,
            if memory_changed(results) {
                prompt
            } else {
                None
            },
        );
        LoopView {
            round: state.round + 1,
            messages: messages.push(response.as_message()) + result_messages(results),
            pending,
            ..kept
        }
    } else {
        kept
    }
}

impl ToolLoop {
    /// A loop that begins with the messages of a context, which shows the expired memories
    /// `pending`.
    pub fn new(messages: Vec<ToolChatMessage>, pending: Vec<i64>) -> (r: ToolLoop)
        ensures
            r@ == (LoopView {
                round: 0,
                messages: messages_view(messages@),
                rounds: Seq::empty(),
                shown: Seq::empty(),
                effect: ConversationEffect::Continue,
                marked_read: false,
                displayed: Set::empty(),
                pending: pending@,
            }),
    {
        let r = ToolLoop {
            round: 0,
            messages,
            rounds: Vec::new(),
            shown: Vec::new(),
            effect: ConversationEffect::Continue,
            marked_read: false,
            displayed: IdSet::new(),
            pending,
        };
        assert(r@.rounds =~= Seq::empty());
        r
    }

    /// The messages of the next request.
    pub fn request_messages(&self) -> (r: &Vec<ToolChatMessage>)
        ensures
            messages_view(r@) == self@.messages,
    {
        &self.messages
    }

    /// Takes in an answer of the model. The first answer ends a block behind the loaded messages.
    pub fn receive_answer(
        &mut self,
        response: &ToolChatResponse,
        context: &mut RuntimeContextState,
    ) -> (r: AnswerStep)
        ensures
            final(self)@ == answered(old(self)@),
            r.mark_read == !old(self)@.marked_read,
            option_text(r.text) == sendable(response@.content),
            final(context)@ == (if old(self)@.marked_read {
                old(context)@
            } else {
                sealed_tail(old(context)@)
            }),
    {
        let seen = IdSet::from_list(&self.pending);
        self.displayed.add_all(&seen);
        let mark_read = !self.marked_read;
        if mark_read {
            context.seal_current_tail();
            self.marked_read = true;
        }
        AnswerStep { mark_read, text: non_empty_response_content(&response.content) }
    }

    /// Goes on once the text of an answer was sent as the messages `emitted`.
    pub fn after_sending(&mut self, response: &ToolChatResponse, emitted: &Vec<i64>) -> (r: CallStep)
        ensures
            final(self)@ == sent(old(self)@, response@, emitted@),
            match r {
                CallStep::Finish => !runs_tools(old(self)@, response@),
                CallStep::Run { calls } => runs_tools(old(self)@, response@) && calls_view(calls@)
                    == response@.tool_calls,
            },
    {
        if response.tool_calls.len() == 0 {
            return CallStep::Finish;
        }
        let mut i: usize = 0;
        let ghost before = self@;
        while i < emitted.len()
            invariant
                i <= emitted@.len(),
                self@ == (LoopView { shown: before.shown + emitted@.take(i as int), ..before }),
            decreases emitted@.len() - i,
        {
            let ghost prior = self@;
            self.shown.push(emitted[i]);
            assert(self.shown@ =~= before.shown + emitted@.take(i + 1));
            assert(self@ == (LoopView { shown: before.shown + emitted@.take(i + 1), ..before }));
            i += 1;
        }
        assert(emitted@.take(i as int) =~= emitted@);
        if self.round >= MAX_TOOL_ROUNDS {
            let refused = refuse_calls(&response.tool_calls);
            self.keep_round(response.assistant_message(), refused);
            return CallStep::Finish;
        }
        CallStep::Run { calls: copy_calls(&response.tool_calls) }
    }

    /// Keeps an exchange, where it is complete.
    fn keep_round(&mut self, assistant: ToolChatMessage, results: Vec<ToolChatMessage>)
        ensures
            final(self)@ == (LoopView {
                rounds: with_round(old(self)@.rounds, assistant@, messages_view(results@)),
                ..old(self)@
            }),
    {
        match ToolRoundHistory::new(assistant, results) {
            Ok(round) => {
                let ghost before = rounds_view(self.rounds@);
                self.rounds.push(round);
                assert(rounds_view(self.rounds@) =~= before.push(round@));
            },
            Err(_) => {},
        }
    }

    /// Takes in the results of the tools. `prompt` holds new instructions, where memories were
    /// changed. Tells whether the loop goes on.
    pub fn receive_results(
        &mut self,
        response: &ToolChatResponse,
        results: &Vec<ToolResult>,
        prompt: Option<RefreshedPrompt>,
    ) -> (goes_on: bool)
        requires
            old(self)@.round < MAX_TOOL_ROUNDS,
        ensures
            final(self)@ == ran(old(self)@, response@, results@, prompt),
            goes_on == needs_answer(results@),
    {
        let ghost before = self@;
        let mut i: usize = 0;
        let mut effect = self.effect;
        while i < results.len()
            invariant
                i <= results@.len(),
                effect == effect_of(before.effect, results@.take(i as int)),
            decreases results@.len() - i,
        {
            assert(results@.take(i + 1).drop_last() =~= results@.take(i as int));
            assert(results@.take(i + 1).last() == results@[i as int]);
            if !results[i].is_error && results[i].conversation_effect
                != ConversationEffect::Continue {
                effect = results[i].conversation_effect;
            }
            i += 1;
        }
        assert(results@.take(i as int) =~= results@);
        self.effect = effect;
        let result_list = results_to_messages(results);
        let mut kept: Vec<ToolChatMessage> = Vec::new();
        append_messages(&mut kept, &result_list);
        assert(messages_view(kept@) =~= result_messages(results@));
        self.keep_round(response.assistant_message(), kept);
        if !should_continue_tool_loop(results) {
            return false;
        }
        if results_need_refresh(results) {
            if let Some(p) = prompt {
                if refresh_instruction_prompt(&mut self.messages, &p.content) {
                    self.pending = p.pending_expired_ids;
                }
            }
        }
        push_message(&mut self.messages, response.assistant_message());
        append_messages(&mut self.messages, &result_list);
        self.round = self.round + 1;
        true
    }

    /// Ends the loop: a finished conversation drops all tool exchanges, otherwise those of this
    /// loop are kept behind the last loaded message. Gives the expired memories that were shown,
    /// and the fault of the context, where keeping the exchanges brought one.
    pub fn finish(
        self,
        kind: ConversationKind,
        latest_message_id: Option<i64>,
        context: &mut RuntimeContextState,
    ) -> (r: (IdSet, Option<ContextError>))
        ensures
            r.0@ == self@.displayed,
            final(context)@ == finished_context(self@, kind, latest_message_id, old(context)@),
            r.1 == (if self@.effect != ConversationEffect::End && self@.rounds.len() > 0 {
                finished_context(self@, kind, latest_message_id, old(context)@).fault()
            } else {
                None
            }),
    {
        let displayed = self.displayed;
        if self.effect == ConversationEffect::End {
            context.compact_finished_conversation();
            return (displayed, None);
        }
        let history = match ActiveToolHistory::new(latest_message_id, self.rounds, &self.shown) {
            Ok(history) => history,
            Err(_) => {
                return (displayed, None);
            },
        };
        let limited = match kind {
            ConversationKind::Direct => history.with_turn_limit(DIRECT_TOOL_HISTORY_TURNS),
            ConversationKind::Group => history,
        };
        match context.push_tool_history(limited) {
            Ok(_) => (displayed, None),
            Err(e) => (displayed, Some(e)),
        }
    }
}

/// The tool exchanges of a loop as they are kept.
pub open spec fn kept_history(
    state: LoopView,
    kind: ConversationKind,
    latest: Option<i64>,
) -> HistoryView {
    HistoryView {
        anchor: latest,
        rounds: state.rounds,
        suppressed: state.shown.to_set(),
        turns_left: match kind {
            ConversationKind::Direct => Some(DIRECT_TOOL_HISTORY_TURNS as nat),
            ConversationKind::Group => None,
        },
    }
}

/// The context after a loop.
pub open spec fn finished_context(
    state: LoopView,
    kind: ConversationKind,
    latest: Option<i64>,
    context: StateView,
) -> StateView {
    if state.effect == ConversationEffect::End {
        StateView { histories: Seq::empty(), ..context }
    } else if state.rounds.len() == 0 {
        context
    } else {
        StateView { histories: context.histories.push(kept_history(state, kind, latest)), ..context }
    }
}

/// Begins a turn: in a direct conversation tool exchanges that have no turn left go. Tells how
/// many went.
pub fn begin_turn(kind: ConversationKind, context: &mut RuntimeContextState) -> (removed: usize)
    ensures
        final(context)@ == (match kind {
            ConversationKind::Direct => StateView {
                histories: next_turn(old(context)@.histories),
                ..old(context)@
            },
            ConversationKind::Group => old(context)@,
        }),
        removed == old(context)@.histories.len() - final(context)@.histories.len(),
{
    match kind {
        ConversationKind::Direct => context.advance_tool_history_turn(),
        ConversationKind::Group => 0,
    }
}

/// The results that stand for tools which were not run any more.
fn refuse_calls(calls: &Vec<ToolCall>) -> (r: Vec<ToolChatMessage>)
    ensures
        messages_view(r@) == refusals(calls_view(calls@)),
{
    let ghost all = refusals(calls_view(calls@));
    let mut list: Vec<ToolChatMessage> = Vec::new();
    assert(messages_view(list@) =~= all.take(0));
    let mut i: usize = 0;
    while i < calls.len()
        invariant
            i <= calls@.len(),
            all == refusals(calls_view(calls@)),
            messages_view(list@) == all.take(i as int),
        decreases calls@.len() - i,
    {
        let mut content = "工具 ".to_owned();
        content.push_str(&calls[i].name);
        content.push_str(" 未执行：连续工具调用已达到最大轮数");
        push_message(
            &mut list,
            ToolChatMessage::Tool { tool_call_id: calls[i].id.clone(), content },
        );
        assert(all.take(i + 1) =~= all.take(i as int).push(all[i as int]));
        i += 1;
    }
    assert(all.take(i as int) =~= all);
    list
}

/// Results as messages.
fn results_to_messages(results: &Vec<ToolResult>) -> (r: Vec<ToolChatMessage>)
    ensures
        messages_view(r@) == result_messages(results@),
{
    let ghost all = result_messages(results@);
    let mut list: Vec<ToolChatMessage> = Vec::new();
    assert(messages_view(list@) =~= all.take(0));
    let mut i: usize = 0;
    while i < results.len()
        invariant
            i <= results@.len(),
            all == result_messages(results@),
            messages_view(list@) == all.take(i as int),
        decreases results@.len() - i,
    {
        push_message(
            &mut list,
            ToolChatMessage::Tool {
                tool_call_id: results[i].tool_call_id.clone(),
                content: results[i].content.clone(),
            },
        );
        assert(all.take(i + 1) =~= all.take(i as int).push(all[i as int]));
        i += 1;
    }
    assert(all.take(i as int) =~= all);
    list
}

/// A loop never runs tools more often than the limit allows: each round that goes on counts, and
/// no tools are run once the limit is reached.
pub proof fn law_rounds_are_limited(
    state: LoopView,
    response: ResponseView,
    emitted: Seq<i64>,
    results: Seq<ToolResult>,
    prompt: Option<RefreshedPrompt>,
)
    requires
        runs_tools(state, response),
    ensures
        ran(sent(state, response, emitted), response, results, prompt).round <= MAX_TOOL_ROUNDS,
        needs_answer(results) ==> ran(
            sent(state, response, emitted),
            response,
            results,
            prompt,
        ).round == state.round + 1,
{
}

/// The exchanges that a loop keeps are complete, whatever the model and the tools gave back.
pub open spec fn all_complete(rounds: Seq<RoundView>) -> bool {
    forall|i: int| 0 <= i < rounds.len() ==> (#[trigger] rounds[i]).valid()
}

/// A complete exchange without its reasoning is complete.
proof fn lemma_reasoning_is_no_fault(assistant: MessageView, results: Seq<MessageView>)
    ensures
        round_fault(without_reasoning(assistant), results) == round_fault(assistant, results),
{
}

/// The exchanges that a loop keeps are complete, whatever the model and the tools gave back.
pub proof fn law_kept_rounds_are_complete(
    state: LoopView,
    response: ResponseView,
    emitted: Seq<i64>,
    results: Seq<ToolResult>,
    prompt: Option<RefreshedPrompt>,
)
    requires
        all_complete(state.rounds),
    ensures
        all_complete(sent(state, response, emitted).rounds),
        all_complete(ran(state, response, results, prompt).rounds),
{
    lemma_reasoning_is_no_fault(response.as_message(), refusals(response.tool_calls));
    lemma_reasoning_is_no_fault(response.as_message(), result_messages(results));
}

/// The next request ends with the answer and the results of exactly the tools that were run.
pub proof fn law_next_request_carries_results(
    state: LoopView,
    response: ResponseView,
    results: Seq<ToolResult>,
    prompt: Option<RefreshedPrompt>,
)
    requires
        needs_answer(results),
    ensures
        ({
            let next = ran(state, response, results, prompt).messages;
            let n = next.len() - results.len();
            &&& n >= 1
            &&& next[n - 1] == response.as_message()
            &&& next.skip(n) == result_messages(results)
        }),
{
    let next = ran(state, response, results, prompt).messages;
    let n = next.len() - results.len();
    assert(next.skip(n) =~= result_messages(results));
}

/// Whether a result has a say in how the conversation goes on.
pub open spec fn has_effect(result: ToolResult) -> bool {
    !result.is_error && result.conversation_effect != ConversationEffect::Continue
}

/// The last result with a say decides how the conversation goes on; where no result has one, it goes
/// on as it did.
pub proof fn law_the_last_effect_counts(
    effect: ConversationEffect,
    results: Seq<ToolResult>,
    k: int,
)
    ensures
        (forall|i: int| 0 <= i < results.len() ==> !has_effect(#[trigger] results[i])) ==> effect_of(
            effect,
            results,
        ) == effect,
        0 <= k < results.len() && has_effect(results[k]) && (forall|i: int|
            k < i < results.len() ==> !has_effect(#[trigger] results[i])) ==> effect_of(
            effect,
            results,
        ) == results[k].conversation_effect,
    decreases results.len(),
{
    if results.len() > 0 {
        let front = results.drop_last();
        law_the_last_effect_counts(effect, front, k);
        assert(results[results.len() - 1] == results.last());
        assert forall|i: int| 0 <= i < front.len() implies front[i] == #[trigger] results[i] by {}
    }
}

/// Where the limit is reached, no call goes without an answer: each call is answered under its own id,
/// and the answer tells the tool it is about.
pub proof fn law_refused_calls_are_answered(
    state: LoopView,
    response: ResponseView,
    emitted: Seq<i64>,
    i: int,
)
    requires
        state.round >= MAX_TOOL_ROUNDS,
        0 <= i < response.tool_calls.len(),
    ensures
        ({
            let after = sent(state, response, emitted);
            &&& after.shown == state.shown + emitted
            &&& after.messages == state.messages
            &&& after.rounds.len() > state.rounds.len() ==> {
                &&& after.rounds.last().results.len() == response.tool_calls.len()
                &&& after.rounds.last().results[i] matches MessageView::Tool {
                    tool_call_id,
                    content,
                } && tool_call_id == response.tool_calls[i].id && content == "工具 "@
                    + response.tool_calls[i].name + " 未执行：连续工具调用已达到最大轮数"@
            }
        }),
{
}

/// The next request keeps all messages of the last one but the instructions, then carries the answer of
/// the model, and then each result under the id of its call, in order. Nothing that was sent or shown
/// before is forgotten.
pub proof fn law_the_next_request_goes_on(
    state: LoopView,
    response: ResponseView,
    results: Seq<ToolResult>,
    prompt: Option<RefreshedPrompt>,
    i: int,
)
    requires
        needs_answer(results),
    ensures
        ({
            let after = ran(state, response, results, prompt);
            let n = state.messages.len();
            &&& after.messages.len() == n + 1 + results.len()
            &&& after.messages[n as int] == response.as_message()
            &&& 0 <= i < n && !(state.messages[i] is System) ==> after.messages[i]
                == state.messages[i]
            &&& 0 <= i < n && (!memory_changed(results) || prompt is None) ==> after.messages[i]
                == state.messages[i]
            &&& 0 <= i < results.len() ==> after.messages[n + 1 + i] == (MessageView::Tool {
                tool_call_id: results[i].tool_call_id@,
                content: results[i].content@,
            })
            &&& after.shown == state.shown
            &&& after.displayed == state.displayed
            &&& after.marked_read == state.marked_read
        }),
{
    lemma_last_system_is_one(state.messages);
}

proof fn lemma_last_system_is_one(messages: Seq<MessageView>)
    ensures
        last_system(messages) matches Some(i) ==> 0 <= i < messages.len() && messages[i] is System,
    decreases messages.len(),
{
    if messages.len() > 0 && !(messages.last() is System) {
        lemma_last_system_is_one(messages.drop_last());
    }
}

/// The end of a loop touches nothing of the context but the tool exchanges. A conversation that is
/// finished has none left; otherwise those that were there stay as they are, and what the loop kept
/// comes behind them, bound to the last loaded message.
pub proof fn law_the_end_of_a_loop_keeps_the_context(
    state: LoopView,
    kind: ConversationKind,
    latest: Option<i64>,
    context: StateView,
)
    ensures
        ({
            let after = finished_context(state, kind, latest, context);
            &&& after == (StateView { histories: after.histories, ..context })
            &&& state.effect == ConversationEffect::End ==> after.histories.len() == 0
            &&& state.effect != ConversationEffect::End && state.rounds.len() == 0
                ==> after.histories == context.histories
            &&& state.effect != ConversationEffect::End && state.rounds.len() > 0 ==> {
                &&& after.histories.len() == context.histories.len() + 1
                &&& after.histories.drop_last() == context.histories
                &&& after.histories.last().anchor == latest
                &&& after.histories.last().rounds == state.rounds
                &&& forall|id: i64|
                    #[trigger] after.histories.last().suppressed.contains(id)
                        <==> state.shown.contains(id)
                &&& (after.histories.last().turns_left is None <==> kind
                    == ConversationKind::Group)
            }
        }),
{
    let after = finished_context(state, kind, latest, context);
    if state.effect != ConversationEffect::End && state.rounds.len() > 0 {
        assert(after.histories.drop_last() =~= context.histories);
    }
}

} // verus!
