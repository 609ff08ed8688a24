//! What a conversation keeps in memory between requests: which messages are loaded, where finished
//! blocks end, and the tool exchanges that still belong to the context.

use vstd::prelude::*;

use crate::ai_provider::{
    append_messages, messages_view, push_message, MessageView, ToolChatMessage,
};
use crate::id_set::IdSet;
use crate::text::same_text;
use crate::tools::{calls_view, ToolCall, ToolCallView};

verus! {

/// Why a tool exchange is not accepted.
#[derive(Debug, Clone, Copy, PartialEq, Eq, Structural)]
pub enum ToolRoundError {
    /// The first message is not one of the assistant with tool calls.
    MissingCalls,
    DuplicateCall,
    /// A message in the place of a result is none.
    NotAResult,
    DuplicateResult,
    /// Calls and results do not correspond.
    Mismatch,
}

/// What a tool exchange holds: the message with the calls and the results.
pub struct RoundView {
    pub assistant: MessageView,
    pub results: Seq<MessageView>,
}

/// Whether no two calls have the same id.
pub open spec fn distinct_calls(calls: Seq<ToolCallView>) -> bool {
    forall|i: int, j: int|
        0 <= i < j < calls.len() ==> (#[trigger] calls[i]).id != (#[trigger] calls[j]).id
}

/// Whether a call with this id is among the calls.
pub open spec fn has_call(calls: Seq<ToolCallView>, id: Seq<char>) -> bool {
    exists|i: int| 0 <= i < calls.len() && (#[trigger] calls[i]).id == id
}

/// Whether a message is the result of the call with this id.
pub open spec fn is_result_of(message: MessageView, id: Seq<char>) -> bool {
    message matches MessageView::Tool { tool_call_id, content } && tool_call_id == id
}

/// Whether a result for this id is among the messages.
pub open spec fn has_result(results: Seq<MessageView>, id: Seq<char>) -> bool {
    exists|i: int| 0 <= i < results.len() && is_result_of(#[trigger] results[i], id)
}

/// The first fault in a list of results.
pub open spec fn results_fault(results: Seq<MessageView>) -> Option<ToolRoundError>
    decreases results.len(),
{
    if results.len() == 0 {
        None
    } else {
        match results_fault(results.drop_last()) {
            Some(e) => Some(e),
            None => match results.last() {
                MessageView::Tool { tool_call_id, content } => if has_result(
                    results.drop_last(),
                    tool_call_id,
                ) {
                    Some(ToolRoundError::DuplicateResult)
                } else {
                    None
                },
                _ => Some(ToolRoundError::NotAResult),
            },
        }
    }
}

/// Whether each call has a result and each result a call.
pub open spec fn corresponds(calls: Seq<ToolCallView>, results: Seq<MessageView>) -> bool {
    &&& forall|i: int| 0 <= i < calls.len() ==> has_result(results, (#[trigger] calls[i]).id)
    &&& forall|i: int|
        0 <= i < results.len() ==> (#[trigger] results[i] matches MessageView::Tool {
            tool_call_id,
            content,
        } ==> has_call(calls, tool_call_id))
}

/// The first fault of a tool exchange.
pub open spec fn round_fault(assistant: MessageView, results: Seq<MessageView>) -> Option<
    ToolRoundError,
> {
    match assistant {
        MessageView::Assistant { content, reasoning, tool_calls } => if tool_calls.len() == 0 {
            Some(ToolRoundError::MissingCalls)
        } else if !distinct_calls(tool_calls) {
            Some(ToolRoundError::DuplicateCall)
        } else {
            match results_fault(results) {
                Some(e) => Some(e),
                None => if corresponds(tool_calls, results) {
                    None
                } else {
                    Some(ToolRoundError::Mismatch)
                },
            }
        },
        _ => Some(ToolRoundError::MissingCalls),
    }
}

/// A message of the assistant without its reasoning.
pub open spec fn without_reasoning(message: MessageView) -> MessageView {
    match message {
        MessageView::Assistant { content, reasoning, tool_calls } => MessageView::Assistant {
            content,
            reasoning: None,
            tool_calls,
        },
        other => other,
    }
}

/// A complete tool exchange: a message with calls and exactly one result for each of them.
#[derive(Debug)]
pub struct ToolRoundHistory {
    assistant: ToolChatMessage,
    tool_results: Vec<ToolChatMessage>,
}

impl View for ToolRoundHistory {
    type V = RoundView;

    closed spec fn view(&self) -> RoundView {
        RoundView { assistant: self.assistant@, results: messages_view(self.tool_results@) }
    }
}

impl RoundView {
    /// Whether the exchange is complete and carries no reasoning.
    pub open spec fn valid(self) -> bool {
        &&& round_fault(self.assistant, self.results) is None
        &&& without_reasoning(self.assistant) == self.assistant
    }

    /// The messages of the exchange in order.
    pub open spec fn messages(self) -> Seq<MessageView> {
        seq![self.assistant] + self.results
    }
}

/// Whether no two calls have the same id.
fn calls_are_distinct(calls: &Vec<ToolCall>) -> (r: bool)
    ensures
        r == distinct_calls(calls_view(calls@)),
{
    let ghost all = calls_view(calls@);
    let mut i: usize = 0;
    while i < calls.len()
        invariant
            i <= calls@.len(),
            all == calls_view(calls@),
            forall|a: int, b: int|
                0 <= a < b < i ==> (#[trigger] all[a]).id != (#[trigger] all[b]).id,
        decreases calls@.len() - i,
    {
        let mut j: usize = 0;
        while j < i
            invariant
                j <= i < calls@.len(),
                all == calls_view(calls@),
                forall|a: int| 0 <= a < j ==> (#[trigger] all[a]).id != all[i as int].id,
            decreases i - j,
        {
            if same_text(&calls[j].id, &calls[i].id) {
                assert(all[j as int].id == all[i as int].id);
                return false;
            }
            j += 1;
        }
        i += 1;
    }
    true
}

/// Whether a message is the result of the call with this id.
fn message_is_result_of(message: &ToolChatMessage, id: &str) -> (r: bool)
    ensures
        r == is_result_of(message@, id@),
{
    match message {
        ToolChatMessage::Tool { tool_call_id, .. } => same_text(tool_call_id, id),
        _ => false,
    }
}

/// Whether a result for this id is among the first `n` messages.
fn front_has_result(results: &Vec<ToolChatMessage>, n: usize, id: &str) -> (r: bool)
    requires
        n <= results@.len(),
    ensures
        r == has_result(messages_view(results@).take(n as int), id@),
{
    let ghost all = messages_view(results@);
    let ghost front = all.take(n as int);
    let mut i: usize = 0;
    while i < n
        invariant
            i <= n <= results@.len(),
            all == messages_view(results@),
            front == all.take(n as int),
            forall|j: int| 0 <= j < i ==> !is_result_of(#[trigger] front[j], id@),
        decreases n - i,
    {
        assert(front[i as int] == results@[i as int]@);
        if message_is_result_of(&results[i], id) {
            return true;
        }
        i += 1;
    }
    false
}

/// The first fault of a front part is the fault of the whole.
proof fn lemma_results_fault(results: Seq<MessageView>, n: int)
    requires
        0 <= n <= results.len(),
        results_fault(results.take(n)) is Some,
    ensures
        results_fault(results) == results_fault(results.take(n)),
    decreases results.len() - n,
{
    if n < results.len() {
        assert(results.take(n + 1).drop_last() =~= results.take(n));
        lemma_results_fault(results, n + 1);
    } else {
        assert(results.take(n) =~= results);
    }
}

/// The first fault in a list of results.
fn find_results_fault(results: &Vec<ToolChatMessage>) -> (r: Option<ToolRoundError>)
    ensures
        r == results_fault(messages_view(results@)),
{
    let ghost all = messages_view(results@);
    let mut i: usize = 0;
    while i < results.len()
        invariant
            i <= results@.len(),
            all == messages_view(results@),
            results_fault(all.take(i as int)) is None,
        decreases results@.len() - i,
    {
        proof {
            assert(all.take(i + 1).drop_last() =~= all.take(i as int));
            assert(all.take(i + 1).last() == results@[i as int]@);
        }
        let fault = match &results[i] {
            ToolChatMessage::Tool { tool_call_id, .. } => {
                if front_has_result(results, i, tool_call_id) {
                    Some(ToolRoundError::DuplicateResult)
                } else {
                    None
                }
            },
            _ => Some(ToolRoundError::NotAResult),
        };
        if fault.is_some() {
            proof {
                lemma_results_fault(all, i + 1);
            }
            return fault;
        }
        i += 1;
    }
    assert(all.take(i as int) =~= all);
    None
}

/// Without a fault every message is a result.
pub(crate) proof fn lemma_all_results(results: Seq<MessageView>)
    requires
        results_fault(results) is None,
    ensures
        forall|i: int| 0 <= i < results.len() ==> #[trigger] results[i] is Tool,
        forall|i: int, j: int|
            0 <= i < j < results.len() ==> (#[trigger] results[i])->Tool_tool_call_id != (
            #[trigger] results[j])->Tool_tool_call_id,
    decreases results.len(),
{
    if results.len() > 0 {
        let front = results.drop_last();
        lemma_all_results(front);
        assert forall|i: int| 0 <= i < results.len() implies #[trigger] results[i] is Tool by {
            if i < front.len() {
                assert(front[i] == results[i]);
            }
        }
        assert forall|i: int, j: int| 0 <= i < j < results.len() implies (
        #[trigger] results[i])->Tool_tool_call_id != (#[trigger] results[j])->Tool_tool_call_id by {
            assert(front[i] == results[i]);
            if j < front.len() {
                assert(front[j] == results[j]);
            } else {
                if results[i]->Tool_tool_call_id == results[j]->Tool_tool_call_id {
                    assert(is_result_of(front[i], results[j]->Tool_tool_call_id));
                    assert(has_result(front, results[j]->Tool_tool_call_id));
                }
            }
        }
    }
}

/// Whether each call has a result and each result a call.
fn check_correspondence(calls: &Vec<ToolCall>, results: &Vec<ToolChatMessage>) -> (r: bool)
    ensures
        r == corresponds(calls_view(calls@), messages_view(results@)),
{
    let ghost all_calls = calls_view(calls@);
    let ghost all = messages_view(results@);
    let mut i: usize = 0;
    while i < calls.len()
        invariant
            i <= calls@.len(),
            all_calls == calls_view(calls@),
            all == messages_view(results@),
            forall|a: int| 0 <= a < i ==> has_result(all, (#[trigger] all_calls[a]).id),
        decreases calls@.len() - i,
    {
        assert(all.take(results@.len() as int) =~= all);
        if !front_has_result(results, results.len(), &calls[i].id) {
            assert(all_calls[i as int].id == calls@[i as int].id@);
            return false;
        }
        i += 1;
    }
    let mut k: usize = 0;
    while k < results.len()
        invariant
            k <= results@.len(),
            all_calls == calls_view(calls@),
            all == messages_view(results@),
            forall|a: int|
                0 <= a < k ==> (#[trigger] all[a] matches MessageView::Tool {
                    tool_call_id,
                    content,
                } ==> has_call(all_calls, tool_call_id)),
        decreases results@.len() - k,
    {
        assert(all[k as int] == results@[k as int]@);
        if let ToolChatMessage::Tool { tool_call_id, .. } = &results[k] {
            let mut found = false;
            let mut j: usize = 0;
            while j < calls.len()
                invariant
                    j <= calls@.len(),
                    all_calls == calls_view(calls@),
                    found == exists|a: int|
                        0 <= a < j && (#[trigger] all_calls[a]).id == tool_call_id@,
                decreases calls@.len() - j,
            {
                assert(all_calls[j as int].id == calls@[j as int].id@);
                if same_text(&calls[j].id, tool_call_id) {
                    found = true;
                }
                j += 1;
            }
            if !found {
                return false;
            }
        }
        k += 1;
    }
    true
}

impl ToolRoundHistory {
    #[verifier::type_invariant]
    spec fn complete(self) -> bool {
        RoundView {
            assistant: self.assistant@,
            results: messages_view(self.tool_results@),
        }.valid()
    }

    /// Keeps a complete exchange; reasoning is not kept beyond the request it belongs to.
    pub fn new(assistant: ToolChatMessage, tool_results: Vec<ToolChatMessage>) -> (r: Result<
        ToolRoundHistory,
        ToolRoundError,
    >)
        ensures
            match r {
                Ok(round) => round_fault(assistant@, messages_view(tool_results@)) is None
                    && round@.assistant == without_reasoning(assistant@) && round@.results
                    == messages_view(tool_results@) && round@.valid(),
                Err(e) => round_fault(assistant@, messages_view(tool_results@)) == Some(e),
            },
    {
        match assistant {
            ToolChatMessage::Assistant { content, reasoning, tool_calls } => {
                if tool_calls.len() == 0 {
                    return Err(ToolRoundError::MissingCalls);
                }
                if !calls_are_distinct(&tool_calls) {
                    return Err(ToolRoundError::DuplicateCall);
                }
                if let Some(e) = find_results_fault(&tool_results) {
                    return Err(e);
                }
                if !check_correspondence(&tool_calls, &tool_results) {
                    return Err(ToolRoundError::Mismatch);
                }
                Ok(
                    ToolRoundHistory {
                        assistant: ToolChatMessage::Assistant {
                            content,
                            reasoning: None,
                            tool_calls,
                        },
                        tool_results,
                    },
                )
            },
            _ => Err(ToolRoundError::MissingCalls),
        }
    }

    /// Appends the messages of the exchange.
    pub fn extend_messages(&self, messages: &mut Vec<ToolChatMessage>)
        ensures
            messages_view(final(messages)@) == messages_view(old(messages)@) + self@.messages(),
    {
        push_message(messages, self.assistant.clone());
        append_messages(messages, &self.tool_results);
        assert(messages_view(messages@) =~= messages_view(old(messages)@) + self@.messages());
    }
}

impl Clone for ToolRoundHistory {
    fn clone(&self) -> (r: ToolRoundHistory)
        ensures
            r@ == self@,
    {
        proof {
            use_type_invariant(self);
        }
        let mut tool_results: Vec<ToolChatMessage> = Vec::new();
        append_messages(&mut tool_results, &self.tool_results);
        assert(messages_view(tool_results@) =~= messages_view(self.tool_results@));
        let assistant = self.assistant.clone();
        ToolRoundHistory { assistant, tool_results }
    }
}

/// In a complete exchange each call has exactly one result.
pub proof fn law_one_result_per_call(round: RoundView, i: int)
    requires
        round.valid(),
        0 <= i < round.assistant->Assistant_tool_calls.len(),
    ensures
        exists|j: int|
            0 <= j < round.results.len() && is_result_of(
                #[trigger] round.results[j],
                round.assistant->Assistant_tool_calls[i].id,
            ),
        forall|j: int, k: int|
            0 <= j < k < round.results.len() && is_result_of(
                #[trigger] round.results[j],
                round.assistant->Assistant_tool_calls[i].id,
            ) ==> !is_result_of(
                #[trigger] round.results[k],
                round.assistant->Assistant_tool_calls[i].id,
            ),
{
    let calls = round.assistant->Assistant_tool_calls;
    assert(has_result(round.results, calls[i].id));
    lemma_all_results(round.results);
}

/// What the tool exchanges of one answered request hold, and where they belong.
pub struct HistoryView {
    /// The message behind which the exchanges stand; none where they come first.
    pub anchor: Option<i64>,
    pub rounds: Seq<RoundView>,
    /// The messages that the exchanges already show.
    pub suppressed: Set<i64>,
    /// For how many more turns the exchanges are kept, where that is limited.
    pub turns_left: Option<nat>,
}

/// The exchanges of a list.
pub open spec fn rounds_view(rounds: Seq<ToolRoundHistory>) -> Seq<RoundView> {
    Seq::new(rounds.len(), |i: int| rounds[i]@)
}

/// The messages of exchanges in order.
pub open spec fn rounds_messages(rounds: Seq<RoundView>) -> Seq<MessageView>
    decreases rounds.len(),
{
    if rounds.len() == 0 {
        Seq::empty()
    } else {
        rounds_messages(rounds.drop_last()) + rounds.last().messages()
    }
}

/// The tool exchanges of one answered request, and where they belong in the conversation.
#[derive(Debug)]
pub struct ActiveToolHistory {
    pub after_message_id: Option<i64>,
    rounds: Vec<ToolRoundHistory>,
    suppressed_message_ids: IdSet,
    turns_left: Option<usize>,
}

impl View for ActiveToolHistory {
    type V = HistoryView;

    closed spec fn view(&self) -> HistoryView {
        HistoryView {
            anchor: self.after_message_id,
            rounds: rounds_view(self.rounds@),
            suppressed: self.suppressed_message_ids@,
            turns_left: match self.turns_left {
                Some(n) => Some(n as nat),
                None => None,
            },
        }
    }
}

/// Exchanges that hold none cannot be kept.
#[derive(Debug, Clone, Copy, PartialEq, Eq, Structural)]
pub struct EmptyToolHistory;

impl ActiveToolHistory {
    /// Keeps the exchanges of one answered request; there has to be at least one.
    pub fn new(
        after_message_id: Option<i64>,
        rounds: Vec<ToolRoundHistory>,
        suppressed_message_ids: &Vec<i64>,
    ) -> (r: Result<ActiveToolHistory, EmptyToolHistory>)
        ensures
            match r {
                Ok(h) => rounds@.len() > 0 && h@ == (HistoryView {
                    anchor: after_message_id,
                    rounds: rounds_view(rounds@),
                    suppressed: suppressed_message_ids@.to_set(),
                    turns_left: None,
                }),
                Err(_) => rounds@.len() == 0,
            },
    {
        if rounds.len() == 0 {
            return Err(EmptyToolHistory);
        }
        Ok(
            ActiveToolHistory {
                after_message_id,
                rounds,
                suppressed_message_ids: IdSet::from_list(suppressed_message_ids),
                turns_left: None,
            },
        )
    }

    /// The same exchanges, kept for at most `turns` more turns.
    pub fn with_turn_limit(self, turns: usize) -> (r: ActiveToolHistory)
        ensures
            r@ == (HistoryView { turns_left: Some(turns as nat), ..self@ }),
    {
        ActiveToolHistory {
            after_message_id: self.after_message_id,
            rounds: self.rounds,
            suppressed_message_ids: self.suppressed_message_ids,
            turns_left: Some(turns),
        }
    }

    /// Whether the exchanges already show this message.
    pub fn suppresses_message(&self, message_id: i64) -> (r: bool)
        ensures
            r == self@.suppressed.contains(message_id),
    {
        self.suppressed_message_ids.contains(message_id)
    }

    /// The message behind which the exchanges stand.
    pub fn anchor(&self) -> (r: Option<i64>)
        ensures
            r == self@.anchor,
    {
        self.after_message_id
    }

    /// Appends the messages of the exchanges.
    pub fn extend_messages(&self, messages: &mut Vec<ToolChatMessage>)
        ensures
            messages_view(final(messages)@) == messages_view(old(messages)@) + rounds_messages(
                self@.rounds,
            ),
    {
        let ghost before = messages_view(messages@);
        let ghost all = rounds_view(self.rounds@);
        let mut i: usize = 0;
        while i < self.rounds.len()
            invariant
                i <= self.rounds@.len(),
                all == rounds_view(self.rounds@),
                messages_view(messages@) =~= before + rounds_messages(all.take(i as int)),
            decreases self.rounds@.len() - i,
        {
            self.rounds[i].extend_messages(messages);
            assert(all.take(i + 1).drop_last() =~= all.take(i as int));
            assert(all.take(i + 1).last() == self.rounds@[i as int]@);
            i += 1;
        }
        assert(all.take(i as int) =~= all);
    }

    /// Forgets which messages are shown that are not visible any more.
    fn retain_visible_messages(&mut self, visible_ids: &IdSet)
        ensures
            final(self)@ == visible_part(old(self)@, visible_ids@),
    {
        self.suppressed_message_ids.keep_common(visible_ids);
    }
}

/// Exchanges that show visible messages only.
pub open spec fn visible_part(history: HistoryView, visible: Set<i64>) -> HistoryView {
    HistoryView { suppressed: history.suppressed.intersect(visible), ..history }
}

/// Why a context is not accepted.
#[derive(Debug, Clone, Copy, PartialEq, Eq, Structural)]
pub enum ContextError {
    /// The loaded messages are not in strictly rising order.
    Unordered,
    /// A block ends behind a message that is not loaded.
    StaleBoundary,
    /// Tool exchanges stand behind a message that is not loaded.
    StaleAnchor,
    /// Two tool exchanges show the same message.
    SharedMessage,
}

/// What a conversation keeps in memory.
pub struct StateView {
    pub loaded: Seq<i64>,
    pub sealed: Set<i64>,
    pub histories: Seq<HistoryView>,
}

/// The histories of a list.
pub open spec fn histories_view(histories: Seq<ActiveToolHistory>) -> Seq<HistoryView> {
    Seq::new(histories.len(), |i: int| histories[i]@)
}

/// The messages that the first `n` histories show.
pub open spec fn shown_by(histories: Seq<HistoryView>, n: nat) -> Set<i64>
    decreases n,
{
    if n == 0 {
        Set::empty()
    } else {
        shown_by(histories, (n - 1) as nat).union(histories[n - 1].suppressed)
    }
}

/// The first fault of the first `n` histories.
pub open spec fn histories_fault(histories: Seq<HistoryView>, loaded: Set<i64>, n: nat) -> Option<
    ContextError,
>
    decreases n,
{
    if n == 0 {
        None
    } else {
        match histories_fault(histories, loaded, (n - 1) as nat) {
            Some(e) => Some(e),
            None => {
                let history = histories[n - 1];
                if history.anchor is Some && !loaded.contains(history.anchor.unwrap()) {
                    Some(ContextError::StaleAnchor)
                } else if !history.suppressed.disjoint(shown_by(histories, (n - 1) as nat)) {
                    Some(ContextError::SharedMessage)
                } else {
                    None
                }
            },
        }
    }
}

impl StateView {
    /// The first fault of the state.
    pub open spec fn fault(self) -> Option<ContextError> {
        if !self.sealed.subset_of(self.loaded.to_set()) {
            Some(ContextError::StaleBoundary)
        } else {
            histories_fault(self.histories, self.loaded.to_set(), self.histories.len())
        }
    }

    /// Whether the state has no fault.
    pub open spec fn consistent(self) -> bool {
        self.fault() is None
    }
}

/// Whether numbers rise strictly.
pub open spec fn rising(ids: Seq<i64>) -> bool {
    forall|i: int, j: int| 0 <= i < j < ids.len() ==> ids[i] < ids[j]
}

/// Whether the loaded messages are not just continued by the new ones: some have left.
pub open spec fn window_moved(loaded: Seq<i64>, ids: Seq<i64>) -> bool {
    loaded.len() > 0 && !loaded.is_prefix_of(ids)
}

/// The histories that stand behind a visible message.
pub open spec fn anchored(histories: Seq<HistoryView>, visible: Set<i64>) -> Seq<HistoryView>
    decreases histories.len(),
{
    if histories.len() == 0 {
        Seq::empty()
    } else {
        let front = anchored(histories.drop_last(), visible);
        if histories.last().anchor is Some && visible.contains(histories.last().anchor.unwrap()) {
            front.push(histories.last())
        } else {
            front
        }
    }
}

/// Histories that show visible messages only.
pub open spec fn visible_parts(histories: Seq<HistoryView>, visible: Set<i64>) -> Seq<
    HistoryView,
> {
    Seq::new(histories.len(), |i: int| visible_part(histories[i], visible))
}

/// The state for newly loaded messages. Where messages have left the window, the block ends are
/// dropped and only histories behind a visible message stay.
pub open spec fn reconciled(state: StateView, ids: Seq<i64>) -> StateView {
    let visible = ids.to_set();
    let moved = window_moved(state.loaded, ids);
    StateView {
        loaded: ids,
        sealed: if moved {
            Set::empty()
        } else {
            state.sealed
        },
        histories: visible_parts(
            if moved {
                anchored(state.histories, visible)
            } else {
                state.histories
            },
            visible,
        ),
    }
}

/// Histories for one more turn: those that have no turn left go, the others lose one.
pub open spec fn next_turn(histories: Seq<HistoryView>) -> Seq<HistoryView>
    decreases histories.len(),
{
    if histories.len() == 0 {
        Seq::empty()
    } else {
        let front = next_turn(histories.drop_last());
        match histories.last().turns_left {
            None => front.push(histories.last()),
            Some(n) => if n == 0 {
                front
            } else {
                front.push(HistoryView { turns_left: Some((n - 1) as nat), ..histories.last() })
            },
        }
    }
}

/// What a conversation keeps in memory as long as the process runs.
#[derive(Debug)]
pub struct RuntimeContextState {
    loaded_message_ids: Vec<i64>,
    sealed_after_message_ids: IdSet,
    active_tool_histories: Vec<ActiveToolHistory>,
}

impl View for RuntimeContextState {
    type V = StateView;

    closed spec fn view(&self) -> StateView {
        StateView {
            loaded: self.loaded_message_ids@,
            sealed: self.sealed_after_message_ids@,
            histories: histories_view(self.active_tool_histories@),
        }
    }
}

/// Whether numbers rise strictly.
fn ids_rise(ids: &Vec<i64>) -> (r: bool)
    ensures
        r == rising(ids@),
{
    let mut i: usize = 1;
    while i < ids.len()
        invariant
            1 <= i,
            i <= ids@.len() || ids@.len() == 0,
            forall|a: int, b: int| 0 <= a < b < i && b < ids@.len() ==> ids@[a] < ids@[b],
        decreases ids@.len() - i,
    {
        if ids[i - 1] >= ids[i] {
            return false;
        }
        assert forall|a: int, b: int| 0 <= a < b < i + 1 && b < ids@.len() implies ids@[a]
            < ids@[b] by {
            if b == i && a < i - 1 {
                assert(ids@[a] < ids@[i - 1]);
            }
        }
        i += 1;
    }
    true
}

/// Whether `front` is the beginning of `ids`.
fn is_front(front: &Vec<i64>, ids: &Vec<i64>) -> (r: bool)
    ensures
        r == front@.is_prefix_of(ids@),
{
    if front.len() > ids.len() {
        return false;
    }
    let mut i: usize = 0;
    while i < front.len()
        invariant
            i <= front@.len() <= ids@.len(),
            forall|j: int| 0 <= j < i ==> front@[j] == ids@[j],
        decreases front@.len() - i,
    {
        if front[i] != ids[i] {
            assert(ids@.subrange(0, front@.len() as int)[i as int] != front@[i as int]);
            return false;
        }
        i += 1;
    }
    assert(front@ =~= ids@.subrange(0, front@.len() as int));
    true
}

/// A fault of the first histories is a fault of all.
proof fn lemma_histories_fault(
    histories: Seq<HistoryView>,
    loaded: Set<i64>,
    n: nat,
    total: nat,
)
    requires
        n <= total,
        histories_fault(histories, loaded, n) is Some,
    ensures
        histories_fault(histories, loaded, total) == histories_fault(histories, loaded, n),
    decreases total - n,
{
    if n < total {
        lemma_histories_fault(histories, loaded, n + 1, total);
    }
}

impl RuntimeContextState {
    /// Nothing in memory.
    pub fn new() -> (r: RuntimeContextState)
        ensures
            r@ == empty_state(),
            r@.consistent(),
    {
        let r = RuntimeContextState {
            loaded_message_ids: Vec::new(),
            sealed_after_message_ids: IdSet::new(),
            active_tool_histories: Vec::new(),
        };
        assert(r@.histories =~= Seq::empty());
        r
    }

    /// Forgets everything.
    pub fn reset(&mut self)
        ensures
            final(self)@ == empty_state(),
    {
        *self = RuntimeContextState::new();
    }

    /// The first fault of the state.
    fn validate(&self) -> (r: Option<ContextError>)
        ensures
            r == self@.fault(),
    {
        let loaded = IdSet::from_list(&self.loaded_message_ids);
        if !self.sealed_after_message_ids.within(&loaded) {
            return Some(ContextError::StaleBoundary);
        }
        let ghost all = histories_view(self.active_tool_histories@);
        let mut shown = IdSet::new();
        let mut i: usize = 0;
        while i < self.active_tool_histories.len()
            invariant
                i <= self.active_tool_histories@.len(),
                all == histories_view(self.active_tool_histories@),
                loaded@ == self.loaded_message_ids@.to_set(),
                self.sealed_after_message_ids@.subset_of(loaded@),
                shown@ == shown_by(all, i as nat),
                histories_fault(all, loaded@, i as nat) is None,
            decreases self.active_tool_histories@.len() - i,
        {
            let history = &self.active_tool_histories[i];
            assert(all[i as int] == history@);
            if let Some(anchor) = history.after_message_id {
                if !loaded.contains(anchor) {
                    proof {
                        lemma_histories_fault(all, loaded@, (i + 1) as nat, all.len());
                    }
                    return Some(ContextError::StaleAnchor);
                }
            }
            if !history.suppressed_message_ids.apart_from(&shown) {
                proof {
                    lemma_histories_fault(all, loaded@, (i + 1) as nat, all.len());
                }
                return Some(ContextError::SharedMessage);
            }
            shown.add_all(&history.suppressed_message_ids);
            i += 1;
        }
        None
    }

    /// Takes over newly loaded messages; tells whether the window has moved, so that blocks are
    /// laid out anew.
    pub fn reconcile_message_ids(&mut self, message_ids: &Vec<i64>) -> (r: Result<
        bool,
        ContextError,
    >)
        ensures
            if !rising(message_ids@) {
                r == Err::<bool, _>(ContextError::Unordered) && final(self)@ == old(self)@
            } else {
                final(self)@ == reconciled(old(self)@, message_ids@) && r == (
                match reconciled(old(self)@, message_ids@).fault() {
                    Some(e) => Err::<bool, _>(e),
                    None => Ok(window_moved(old(self)@.loaded, message_ids@)),
                })
            },
    {
        if !ids_rise(message_ids) {
            return Err(ContextError::Unordered);
        }
        let rebuilt = self.loaded_message_ids.len() > 0 && !is_front(
            &self.loaded_message_ids,
            message_ids,
        );
        let visible = IdSet::from_list(message_ids);
        if rebuilt {
            self.sealed_after_message_ids = IdSet::new();
            let ghost all = histories_view(self.active_tool_histories@);
            let mut rest: Vec<ActiveToolHistory> = Vec::new();
            rest.append(&mut self.active_tool_histories);
            assert(histories_view(rest@) =~= all);
            let mut reversed: Vec<ActiveToolHistory> = Vec::new();
            while rest.len() > 0
                invariant
                    rest@.len() <= all.len(),
                    histories_view(rest@) =~= all.take(rest@.len() as int),
                    histories_view(reversed@).len() == all.len() - rest@.len(),
                    forall|j: int|
                        0 <= j < reversed@.len() ==> (#[trigger] reversed@[j])@ == all[all.len() - 1
                            - j],
                decreases rest@.len(),
            {
                let ghost before = rest@;
                if let Some(h) = rest.pop() {
                    assert(h@ == histories_view(before)[before.len() - 1]);
                    reversed.push(h);
                }
            }
            let mut kept: Vec<ActiveToolHistory> = Vec::new();
            assert(histories_view(kept@) =~= Seq::empty());
            while reversed.len() > 0
                invariant
                    reversed@.len() <= all.len(),
                    visible@ == message_ids@.to_set(),
                    forall|j: int|
                        0 <= j < reversed@.len() ==> (#[trigger] reversed@[j])@ == all[all.len() - 1
                            - j],
                    histories_view(kept@) == anchored(
                        all.take(all.len() - reversed@.len()),
                        visible@,
                    ),
                decreases reversed@.len(),
            {
                let ghost count = reversed@.len();
                let ghost before = reversed@;
                if let Some(h) = reversed.pop() {
                    proof {
                        assert(before[count - 1] == h);
                        let next = all.take(all.len() - count + 1);
                        assert(next.drop_last() =~= all.take(all.len() - count));
                        assert(next.last() == h@);
                    }
                    let stays = match h.after_message_id {
                        Some(anchor) => visible.contains(anchor),
                        None => false,
                    };
                    if stays {
                        let ghost prior = histories_view(kept@);
                        kept.push(h);
                        assert(histories_view(kept@) =~= prior.push(h@));
                    }
                }
            }
            assert(all.take(all.len() as int) =~= all);
            self.active_tool_histories = kept;
        }
        let ghost staying = histories_view(self.active_tool_histories@);
        let mut remaining: Vec<ActiveToolHistory> = Vec::new();
        remaining.append(&mut self.active_tool_histories);
        assert(histories_view(remaining@) =~= staying);
        let mut shown: Vec<ActiveToolHistory> = Vec::new();
        while remaining.len() > 0
            invariant
                remaining@.len() + shown@.len() == staying.len(),
                visible@ == message_ids@.to_set(),
                histories_view(remaining@) =~= staying.take(remaining@.len() as int),
                forall|j: int|
                    0 <= j < shown@.len() ==> (#[trigger] shown@[j])@ == visible_part(
                        staying[remaining@.len() + j],
                        visible@,
                    ),
            decreases remaining@.len(),
        {
            let ghost before = remaining@;
            let ghost later = shown@;
            if let Some(h) = remaining.pop() {
                assert(h@ == histories_view(before)[before.len() - 1]);
                let mut one = h;
                one.retain_visible_messages(&visible);
                shown.insert(0, one);
                assert forall|j: int| 0 <= j < shown@.len() implies (#[trigger] shown@[j])@
                    == visible_part(staying[remaining@.len() + j], visible@) by {
                    if j > 0 {
                        assert(shown@[j] == later[j - 1]);
                    }
                }
            }
        }
        self.active_tool_histories = shown;
        assert(histories_view(self.active_tool_histories@) =~= visible_parts(staying, visible@));
        let mut loaded: Vec<i64> = Vec::new();
        let mut i: usize = 0;
        while i < message_ids.len()
            invariant
                i <= message_ids@.len(),
                loaded@ =~= message_ids@.take(i as int),
            decreases message_ids@.len() - i,
        {
            loaded.push(message_ids[i]);
            i += 1;
        }
        assert(loaded@ =~= message_ids@);
        self.loaded_message_ids = loaded;
        match self.validate() {
            Some(e) => Err(e),
            None => Ok(rebuilt),
        }
    }

    /// Ends a block behind the last loaded message.
    pub fn seal_current_tail(&mut self)
        ensures
            final(self)@ == sealed_tail(old(self)@),
    {
        let n: usize = self.loaded_message_ids.len();
        if n > 0 {
            self.sealed_after_message_ids.insert(self.loaded_message_ids[n - 1]);
        }
    }

    /// Whether a block ends behind this message.
    pub fn is_sealed_after(&self, message_id: i64) -> (r: bool)
        ensures
            r == self@.sealed.contains(message_id),
    {
        self.sealed_after_message_ids.contains(message_id)
    }

    /// The tool exchanges that belong to the context.
    pub fn active_tool_histories(&self) -> (r: &Vec<ActiveToolHistory>)
        ensures
            histories_view(r@) == self@.histories,
    {
        &self.active_tool_histories
    }

    /// Adds tool exchanges; tells whether the state has a fault then.
    pub fn push_tool_history(&mut self, history: ActiveToolHistory) -> (r: Result<
        (),
        ContextError,
    >)
        ensures
            final(self)@ == (StateView {
                histories: old(self)@.histories.push(history@),
                ..old(self)@
            }),
            r == (match final(self)@.fault() {
                Some(e) => Err::<(), _>(e),
                None => Ok(()),
            }),
    {
        let ghost before = histories_view(self.active_tool_histories@);
        self.active_tool_histories.push(history);
        assert(histories_view(self.active_tool_histories@) =~= before.push(history@));
        match self.validate() {
            Some(e) => Err(e),
            None => Ok(()),
        }
    }

    /// Drops all tool exchanges once a conversation has ended; tells how many there were.
    pub fn compact_finished_conversation(&mut self) -> (removed: usize)
        ensures
            removed == old(self)@.histories.len(),
            final(self)@ == (StateView { histories: Seq::empty(), ..old(self)@ }),
    {
        let removed: usize = self.active_tool_histories.len();
        self.active_tool_histories = Vec::new();
        assert(self@.histories =~= Seq::empty());
        removed
    }

    /// Begins a turn: tool exchanges that have no turn left go; tells how many went.
    pub fn advance_tool_history_turn(&mut self) -> (removed: usize)
        ensures
            final(self)@ == (StateView { histories: next_turn(old(self)@.histories), ..old(self)@ }),
            removed == old(self)@.histories.len() - next_turn(old(self)@.histories).len(),
    {
        let ghost all = histories_view(self.active_tool_histories@);
        let total: usize = self.active_tool_histories.len();
        let mut rest: Vec<ActiveToolHistory> = Vec::new();
        rest.append(&mut self.active_tool_histories);
        assert(histories_view(rest@) =~= all);
        let mut reversed: Vec<ActiveToolHistory> = Vec::new();
        while rest.len() > 0
            invariant
                rest@.len() + reversed@.len() == all.len(),
                histories_view(rest@) =~= all.take(rest@.len() as int),
                forall|j: int|
                    0 <= j < reversed@.len() ==> (#[trigger] reversed@[j])@ == all[all.len() - 1
                        - j],
            decreases rest@.len(),
        {
            let ghost before = rest@;
            if let Some(h) = rest.pop() {
                assert(h@ == histories_view(before)[before.len() - 1]);
                reversed.push(h);
            }
        }
        let mut kept: Vec<ActiveToolHistory> = Vec::new();
        assert(histories_view(kept@) =~= Seq::empty());
        while reversed.len() > 0
            invariant
                reversed@.len() <= all.len(),
                kept@.len() <= all.len() - reversed@.len(),
                forall|j: int|
                    0 <= j < reversed@.len() ==> (#[trigger] reversed@[j])@ == all[all.len() - 1
                        - j],
                histories_view(kept@) == next_turn(all.take(all.len() - reversed@.len())),
            decreases reversed@.len(),
        {
            let ghost count = reversed@.len();
            let ghost before = reversed@;
            if let Some(h) = reversed.pop() {
                proof {
                    assert(before[count - 1] == h);
                    let next = all.take(all.len() - count + 1);
                    assert(next.drop_last() =~= all.take(all.len() - count));
                    assert(next.last() == h@);
                }
                let ghost prior = histories_view(kept@);
                match h.turns_left {
                    None => {
                        kept.push(h);
                        assert(histories_view(kept@) =~= prior.push(h@));
                    },
                    Some(n) => {
                        if n > 0 {
                            let one = h.with_turn_limit(n - 1);
                            kept.push(one);
                            assert(histories_view(kept@) =~= prior.push(one@));
                        }
                    },
                }
            }
        }
        assert(all.take(all.len() as int) =~= all);
        let removed: usize = total - kept.len();
        self.active_tool_histories = kept;
        removed
    }
}

impl Default for RuntimeContextState {
    fn default() -> (r: RuntimeContextState)
        ensures
            r@ == empty_state(),
    {
        RuntimeContextState::new()
    }
}

/// Nothing in memory.
pub open spec fn empty_state() -> StateView {
    StateView { loaded: Seq::empty(), sealed: Set::empty(), histories: Seq::empty() }
}

/// A state in which a block ends behind the last loaded message.
pub open spec fn sealed_tail(state: StateView) -> StateView {
    if state.loaded.len() == 0 {
        state
    } else {
        StateView { sealed: state.sealed.insert(state.loaded.last()), ..state }
    }
}

/// Whether histories stand behind loaded messages and show different messages.
pub open spec fn orderly(histories: Seq<HistoryView>, loaded: Set<i64>) -> bool {
    &&& forall|i: int|
        0 <= i < histories.len() ==> ((#[trigger] histories[i]).anchor matches Some(anchor)
            ==> loaded.contains(anchor))
    &&& forall|i: int, j: int|
        0 <= i < j < histories.len() ==> (#[trigger] histories[i]).suppressed.disjoint(
            (#[trigger] histories[j]).suppressed,
        )
}

/// What the first histories show is what one of them shows.
proof fn lemma_shown_by(histories: Seq<HistoryView>, n: nat, id: i64)
    requires
        n <= histories.len(),
    ensures
        shown_by(histories, n).contains(id) <==> exists|i: int|
            0 <= i < n && (#[trigger] histories[i]).suppressed.contains(id),
    decreases n,
{
    if n > 0 {
        lemma_shown_by(histories, (n - 1) as nat, id);
        if histories[n - 1].suppressed.contains(id) {
            assert(shown_by(histories, n).contains(id));
        }
    }
}

/// Histories without a fault are those that are orderly.
proof fn lemma_orderly(histories: Seq<HistoryView>, loaded: Set<i64>, n: nat)
    requires
        n <= histories.len(),
    ensures
        histories_fault(histories, loaded, n) is None <==> orderly(
            histories.take(n as int),
            loaded,
        ),
    decreases n,
{
    let part = histories.take(n as int);
    if n > 0 {
        let m = (n - 1) as nat;
        lemma_orderly(histories, loaded, m);
        let front = histories.take(m as int);
        let last = histories[m as int];
        assert(forall|i: int| 0 <= i < m ==> front[i] == part[i]);
        assert(part[m as int] == last);
        if orderly(part, loaded) {
            assert forall|i: int| 0 <= i < front.len() implies ((
            #[trigger] front[i]).anchor matches Some(anchor) ==> loaded.contains(anchor)) by {
                assert(part[i] == front[i]);
            }
            assert forall|i: int, j: int| 0 <= i < j < front.len() implies (
            #[trigger] front[i]).suppressed.disjoint((#[trigger] front[j]).suppressed) by {
                assert(part[i] == front[i]);
                assert(part[j] == front[j]);
            }
            assert(orderly(front, loaded));
            assert forall|x: i64| last.suppressed.contains(x) implies !shown_by(
                histories,
                m,
            ).contains(x) by {
                lemma_shown_by(histories, m, x);
                if shown_by(histories, m).contains(x) {
                    let i = choose|i: int|
                        0 <= i < m && (#[trigger] histories[i]).suppressed.contains(x);
                    assert(part[i] == histories[i]);
                    assert(part[i].suppressed.disjoint(part[m as int].suppressed));
                }
            }
            assert(last.suppressed.disjoint(shown_by(histories, m)));
            assert(part[m as int].anchor == last.anchor);
        }
        if histories_fault(histories, loaded, n) is None {
            assert(orderly(front, loaded));
            assert forall|i: int| 0 <= i < part.len() implies ((
            #[trigger] part[i]).anchor matches Some(anchor) ==> loaded.contains(anchor)) by {
                if i < m {
                    assert(front[i] == part[i]);
                }
            }
            assert forall|i: int, j: int| 0 <= i < j < part.len() implies (
            #[trigger] part[i]).suppressed.disjoint((#[trigger] part[j]).suppressed) by {
                if j < m {
                    assert(front[i] == part[i]);
                    assert(front[j] == part[j]);
                } else {
                    assert forall|x: i64| part[i].suppressed.contains(x) implies !last
                        .suppressed.contains(x) by {
                        lemma_shown_by(histories, m, x);
                        assert(histories[i].suppressed.contains(x));
                    }
                }
            }
        }
    }
}

/// A state is consistent where its blocks end behind loaded messages and its histories are
/// orderly.
proof fn lemma_consistent(state: StateView)
    ensures
        state.consistent() <==> state.sealed.subset_of(state.loaded.to_set()) && orderly(
            state.histories,
            state.loaded.to_set(),
        ),
{
    lemma_orderly(state.histories, state.loaded.to_set(), state.histories.len());
    assert(state.histories.take(state.histories.len() as int) =~= state.histories);
}

/// What stays of orderly histories is orderly.
proof fn lemma_anchored(histories: Seq<HistoryView>, loaded: Set<i64>, visible: Set<i64>)
    requires
        orderly(histories, loaded),
    ensures
        orderly(anchored(histories, visible), visible),
        forall|k: int|
            0 <= k < anchored(histories, visible).len() ==> exists|i: int|
                0 <= i < histories.len() && histories[i] == #[trigger] anchored(
                    histories,
                    visible,
                )[k],
    decreases histories.len(),
{
    if histories.len() > 0 {
        let front = histories.drop_last();
        assert(orderly(front, loaded)) by {
            assert(forall|i: int| 0 <= i < front.len() ==> front[i] == histories[i]);
            assert forall|i: int| 0 <= i < front.len() implies ((
            #[trigger] front[i]).anchor matches Some(anchor) ==> loaded.contains(anchor)) by {
                assert(histories[i] == front[i]);
            }
            assert forall|i: int, j: int| 0 <= i < j < front.len() implies (
            #[trigger] front[i]).suppressed.disjoint((#[trigger] front[j]).suppressed) by {
                assert(histories[i] == front[i]);
                assert(histories[j] == front[j]);
            }
        }
        lemma_anchored(front, loaded, visible);
        let some = anchored(front, visible);
        let all = anchored(histories, visible);
        let last = histories.last();
        assert forall|k: int| 0 <= k < all.len() implies exists|i: int|
            0 <= i < histories.len() && histories[i] == #[trigger] all[k] by {
            if k < some.len() {
                assert(some[k] == all[k]);
                let i = choose|i: int| 0 <= i < front.len() && front[i] == some[k];
                assert(histories[i] == all[k]);
            } else {
                assert(histories[histories.len() - 1] == all[k]);
            }
        }
        assert forall|a: int, b: int| 0 <= a < b < all.len() implies (
        #[trigger] all[a]).suppressed.disjoint((#[trigger] all[b]).suppressed) by {
            assert(some[a] == all[a]);
            if b < some.len() {
                assert(some[b] == all[b]);
            } else {
                let i = choose|i: int| 0 <= i < front.len() && front[i] == some[a];
                assert(histories[i] == all[a]);
                assert(histories[histories.len() - 1] == all[b]);
            }
        }
        assert forall|a: int| 0 <= a < all.len() implies ((
        #[trigger] all[a]).anchor matches Some(anchor) ==> visible.contains(anchor)) by {
            if a < some.len() {
                assert(some[a] == all[a]);
            }
        }
    }
}

/// Taking over newly loaded messages in rising order never fails on a consistent state, and
/// leaves it consistent.
pub proof fn law_loading_keeps_consistency(state: StateView, ids: Seq<i64>)
    requires
        state.consistent(),
        rising(ids),
    ensures
        reconciled(state, ids).consistent(),
{
    lemma_consistent(state);
    lemma_consistent(reconciled(state, ids));
    let visible = ids.to_set();
    let loaded = state.loaded.to_set();
    let moved = window_moved(state.loaded, ids);
    let staying = if moved {
        anchored(state.histories, visible)
    } else {
        state.histories
    };
    if moved {
        lemma_anchored(state.histories, loaded, visible);
    } else {
        assert forall|x: i64| loaded.contains(x) implies visible.contains(x) by {
            let i = choose|i: int| 0 <= i < state.loaded.len() && state.loaded[i] == x;
            assert(ids.subrange(0, state.loaded.len() as int)[i] == x);
            assert(ids[i] == x);
        }
        assert(orderly(staying, visible)) by {
            assert forall|i: int| 0 <= i < staying.len() implies ((
            #[trigger] staying[i]).anchor matches Some(anchor) ==> visible.contains(anchor)) by {}
        }
    }
    let shown = visible_parts(staying, visible);
    assert(orderly(shown, visible)) by {
        assert forall|i: int| 0 <= i < shown.len() implies ((
        #[trigger] shown[i]).anchor matches Some(anchor) ==> visible.contains(anchor)) by {
            assert(shown[i].anchor == staying[i].anchor);
        }
        assert forall|i: int, j: int| 0 <= i < j < shown.len() implies (
        #[trigger] shown[i]).suppressed.disjoint((#[trigger] shown[j]).suppressed) by {
            assert(staying[i].suppressed.disjoint(staying[j].suppressed));
        }
    }
}

/// As long as the window only grows at its end, the block ends stay; once it moves, none stays.
pub proof fn law_block_ends_follow_the_window(state: StateView, ids: Seq<i64>)
    ensures
        !window_moved(state.loaded, ids) ==> reconciled(state, ids).sealed == state.sealed,
        window_moved(state.loaded, ids) ==> reconciled(state, ids).sealed == Set::<i64>::empty(),
{
}

/// Ending a block keeps a state consistent, and the block then ends behind the last message.
pub proof fn law_sealing_keeps_consistency(state: StateView)
    requires
        state.consistent(),
    ensures
        sealed_tail(state).consistent(),
        state.loaded.len() > 0 ==> sealed_tail(state).sealed.contains(state.loaded.last()),
{
    lemma_consistent(state);
    lemma_consistent(sealed_tail(state));
    if state.loaded.len() > 0 {
        assert(state.loaded.contains(state.loaded.last()));
    }
}

/// Tool exchanges behind a loaded message that show messages which no others show keep a state
/// consistent.
pub proof fn law_new_exchanges_keep_consistency(state: StateView, history: HistoryView)
    requires
        state.consistent(),
        history.anchor matches Some(anchor) ==> state.loaded.contains(anchor),
        forall|i: int|
            0 <= i < state.histories.len() ==> (#[trigger] state.histories[i]).suppressed.disjoint(
                history.suppressed,
            ),
    ensures
        (StateView { histories: state.histories.push(history), ..state }).consistent(),
{
    let after = StateView { histories: state.histories.push(history), ..state };
    lemma_consistent(state);
    lemma_consistent(after);
    let all = after.histories;
    assert forall|i: int| 0 <= i < all.len() implies ((
    #[trigger] all[i]).anchor matches Some(anchor) ==> state.loaded.to_set().contains(anchor)) by {
        if i < state.histories.len() {
            assert(all[i] == state.histories[i]);
        }
    }
    assert forall|i: int, j: int| 0 <= i < j < all.len() implies (
    #[trigger] all[i]).suppressed.disjoint((#[trigger] all[j]).suppressed) by {
        assert(all[i] == state.histories[i]);
        if j < state.histories.len() {
            assert(all[j] == state.histories[j]);
        }
    }
}

/// What a turn leaves of orderly histories is orderly.
proof fn lemma_next_turn(histories: Seq<HistoryView>, loaded: Set<i64>)
    requires
        orderly(histories, loaded),
    ensures
        orderly(next_turn(histories), loaded),
        forall|k: int|
            0 <= k < next_turn(histories).len() ==> exists|i: int|
                0 <= i < histories.len() && histories[i].anchor == (#[trigger] next_turn(
                    histories,
                )[k]).anchor && histories[i].suppressed == next_turn(histories)[k].suppressed,
    decreases histories.len(),
{
    if histories.len() > 0 {
        let front = histories.drop_last();
        assert(orderly(front, loaded)) by {
            assert forall|i: int| 0 <= i < front.len() implies ((
            #[trigger] front[i]).anchor matches Some(anchor) ==> loaded.contains(anchor)) by {
                assert(histories[i] == front[i]);
            }
            assert forall|i: int, j: int| 0 <= i < j < front.len() implies (
            #[trigger] front[i]).suppressed.disjoint((#[trigger] front[j]).suppressed) by {
                assert(histories[i] == front[i]);
                assert(histories[j] == front[j]);
            }
        }
        lemma_next_turn(front, loaded);
        let some = next_turn(front);
        let all = next_turn(histories);
        let last = histories[histories.len() - 1];
        assert forall|k: int| 0 <= k < all.len() implies exists|i: int|
            0 <= i < histories.len() && histories[i].anchor == (#[trigger] all[k]).anchor
                && histories[i].suppressed == all[k].suppressed by {
            if k < some.len() {
                assert(some[k] == all[k]);
                let i = choose|i: int|
                    0 <= i < front.len() && front[i].anchor == some[k].anchor
                        && front[i].suppressed == some[k].suppressed;
                assert(histories[i] == front[i]);
            } else {
                assert(last.anchor == all[k].anchor);
            }
        }
        assert forall|a: int| 0 <= a < all.len() implies ((
        #[trigger] all[a]).anchor matches Some(anchor) ==> loaded.contains(anchor)) by {
            if a < some.len() {
                assert(some[a] == all[a]);
            } else {
                assert(last.anchor == all[a].anchor);
            }
        }
        assert forall|a: int, b: int| 0 <= a < b < all.len() implies (
        #[trigger] all[a]).suppressed.disjoint((#[trigger] all[b]).suppressed) by {
            assert(some[a] == all[a]);
            if b < some.len() {
                assert(some[b] == all[b]);
            } else {
                let i = choose|i: int|
                    0 <= i < front.len() && front[i].anchor == some[a].anchor
                        && front[i].suppressed == some[a].suppressed;
                assert(histories[i] == front[i]);
                assert(last.suppressed == all[b].suppressed);
            }
        }
    }
}

/// Beginning a turn and ending a conversation keep a state consistent.
pub proof fn law_turns_keep_consistency(state: StateView)
    requires
        state.consistent(),
    ensures
        (StateView { histories: next_turn(state.histories), ..state }).consistent(),
        (StateView { histories: Seq::empty(), ..state }).consistent(),
{
    lemma_consistent(state);
    lemma_next_turn(state.histories, state.loaded.to_set());
    lemma_consistent(StateView { histories: next_turn(state.histories), ..state });
    lemma_consistent(StateView { histories: Seq::empty(), ..state });
}

} // verus!
