use rolava::ai_provider::ToolChatMessage;
use rolava::conversation_context::{
    ActiveToolHistory, ContextError, EmptyToolHistory, RuntimeContextState, ToolRoundError,
    ToolRoundHistory,
};
use rolava::id_set::IdSet;
use rolava::tools::ToolCall;

fn call(id: &str) -> ToolCall {
    ToolCall {
        id: id.to_string(),
        name: "test_tool".to_string(),
        arguments: "{}".to_string(),
    }
}

fn assistant(content: Option<&str>, calls: Vec<ToolCall>) -> ToolChatMessage {
    ToolChatMessage::Assistant {
        content: content.map(str::to_string),
        reasoning: None,
        tool_calls: calls,
    }
}

fn result(id: &str, content: &str) -> ToolChatMessage {
    ToolChatMessage::Tool {
        tool_call_id: id.to_string(),
        content: content.to_string(),
    }
}

fn round() -> ToolRoundHistory {
    ToolRoundHistory::new(
        assistant(Some("正在查询"), vec![call("call-1")]),
        vec![result("call-1", "查询结果")],
    )
    .unwrap()
}

#[test]
fn stable_append_keeps_boundaries_and_window_rebuild_discards_them() {
    let mut state = RuntimeContextState::default();
    assert!(!state.reconcile_message_ids(&vec![1, 2]).unwrap());
    state.seal_current_tail();
    assert!(state.is_sealed_after(2));

    assert!(!state.reconcile_message_ids(&vec![1, 2, 3]).unwrap());
    assert!(state.is_sealed_after(2));

    assert!(state.reconcile_message_ids(&vec![3, 4]).unwrap());
    assert!(!state.is_sealed_after(2));
}

#[test]
fn invalid_database_order_is_rejected() {
    let mut state = RuntimeContextState::default();
    assert!(state.reconcile_message_ids(&vec![2, 1]).is_err());
    assert!(state.reconcile_message_ids(&vec![1, 1]).is_err());
}

#[test]
fn tool_history_is_validated_reconciled_and_compacted() {
    let history = ActiveToolHistory::new(Some(2), vec![round()], &vec![3]).unwrap();
    let mut state = RuntimeContextState::default();
    state.reconcile_message_ids(&vec![1, 2, 3]).unwrap();
    state.push_tool_history(history).unwrap();

    assert!(state.reconcile_message_ids(&vec![2, 3, 4]).unwrap());
    assert_eq!(state.active_tool_histories().len(), 1);
    assert_eq!(state.compact_finished_conversation(), 1);
    assert!(state.active_tool_histories().is_empty());
}

#[test]
fn mismatched_tool_result_is_rejected() {
    let result = ToolRoundHistory::new(
        assistant(None, vec![call("call-1")]),
        vec![result("call-other", "错误结果")],
    );
    assert!(result.is_err());
}

#[test]
fn rounds_that_are_not_kept() {
    let refused = |first: ToolChatMessage, results: Vec<ToolChatMessage>| {
        ToolRoundHistory::new(first, results).unwrap_err()
    };
    assert_eq!(
        refused(assistant(Some("你好"), vec![]), vec![]),
        ToolRoundError::MissingCalls
    );
    assert_eq!(
        refused(assistant(None, vec![call("a"), call("a")]), vec![]),
        ToolRoundError::DuplicateCall
    );
    assert_eq!(
        refused(
            assistant(None, vec![call("a")]),
            vec![assistant(None, vec![])]
        ),
        ToolRoundError::NotAResult
    );
    assert_eq!(
        refused(
            assistant(None, vec![call("a")]),
            vec![result("a", "1"), result("a", "2")]
        ),
        ToolRoundError::DuplicateResult
    );
    assert_eq!(
        refused(assistant(None, vec![call("a")]), vec![]),
        ToolRoundError::Mismatch
    );
}

#[test]
fn histories_that_are_not_kept() {
    assert_eq!(
        ActiveToolHistory::new(Some(1), vec![], &vec![]).unwrap_err(),
        EmptyToolHistory
    );
    let mut state = RuntimeContextState::new();
    assert_eq!(
        state.reconcile_message_ids(&vec![2, 1]),
        Err(ContextError::Unordered)
    );
    state.reconcile_message_ids(&vec![1, 2]).unwrap();
    let stale = ActiveToolHistory::new(Some(7), vec![round()], &vec![]).unwrap();
    assert_eq!(
        state.push_tool_history(stale),
        Err(ContextError::StaleAnchor)
    );
    let mut state = RuntimeContextState::new();
    state.reconcile_message_ids(&vec![1, 2]).unwrap();
    let first = ActiveToolHistory::new(Some(1), vec![round()], &vec![2]).unwrap();
    state.push_tool_history(first).unwrap();
    let second = ActiveToolHistory::new(Some(2), vec![round()], &vec![2]).unwrap();
    assert_eq!(
        state.push_tool_history(second),
        Err(ContextError::SharedMessage)
    );
}

#[test]
fn exchanges_leave_after_their_turns() {
    let mut state = RuntimeContextState::new();
    state.reconcile_message_ids(&vec![1]).unwrap();
    let history = ActiveToolHistory::new(Some(1), vec![round()], &vec![])
        .unwrap()
        .with_turn_limit(2);
    state.push_tool_history(history).unwrap();
    assert_eq!(state.advance_tool_history_turn(), 0);
    assert_eq!(state.advance_tool_history_turn(), 0);
    assert_eq!(state.advance_tool_history_turn(), 1);
    assert!(state.active_tool_histories().is_empty());
}

#[test]
fn a_history_shows_its_messages_in_order() {
    let history = ActiveToolHistory::new(Some(4), vec![round()], &vec![9]).unwrap();
    assert_eq!(history.anchor(), Some(4));
    assert!(history.suppresses_message(9));
    assert!(!history.suppresses_message(4));
    let mut messages = vec![];
    history.extend_messages(&mut messages);
    assert_eq!(
        messages,
        vec![
            assistant(Some("正在查询"), vec![call("call-1")]),
            result("call-1", "查询结果")
        ]
    );
}

#[test]
fn a_reset_forgets_everything() {
    let mut state = RuntimeContextState::new();
    state.reconcile_message_ids(&vec![1, 2]).unwrap();
    state.seal_current_tail();
    state.reset();
    assert!(!state.is_sealed_after(2));
    assert!(!state.reconcile_message_ids(&vec![5]).unwrap());
}

#[test]
fn sets_of_ids() {
    let mut set = IdSet::from_list(&vec![3, 1, 3]);
    assert!(set.contains(1) && set.contains(3) && !set.contains(2));
    assert!(set.insert(2));
    assert!(!set.insert(2));
    let other = IdSet::from_list(&vec![2, 3, 4]);
    assert!(!set.within(&other));
    assert!(!set.apart_from(&other));
    set.keep_common(&other);
    assert!(set.within(&other));
    assert!(!set.contains(1));
    set.add_all(&IdSet::from_list(&vec![8]));
    assert!(set.contains(8));
}
