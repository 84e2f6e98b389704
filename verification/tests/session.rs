use neap::repl::engine::CommandResult;
use neap::repl::session::{command_history_entry, HistoryEntry, InputOutcome, ReplMsg, ReplState};
use neap::types::repr::Type;

fn entry(input: &str, output: &str) -> HistoryEntry {
    HistoryEntry { input: input.to_string(), output: output.to_string(), is_error: false }
}

fn type_line(state: &mut ReplState, text: &str) {
    assert!(state.update(ReplMsg::Input(InputOutcome::Changed(text.to_string()))).is_none());
}

#[test]
fn submit_queues_the_line_and_empties_the_field() {
    let mut state = ReplState::new();
    type_line(&mut state, "1 + 2");
    let next = state.update(ReplMsg::Input(InputOutcome::Submitted));
    assert!(matches!(next, Some(ReplMsg::Submit)));
    assert!(state.update(ReplMsg::Submit).is_none());
    assert_eq!(state.input(), "");
    assert_eq!(state.take_pending(), Some("1 + 2".to_string()));
    assert_eq!(state.take_pending(), None);
}

#[test]
fn submitting_an_empty_field_queues_nothing() {
    let mut state = ReplState::new();
    state.update(ReplMsg::Submit);
    assert_eq!(state.take_pending(), None);
}

#[test]
fn history_navigation_walks_back_and_returns_to_the_typed_line() {
    let mut state = ReplState::new();
    state.update(ReplMsg::AddHistory(entry("first", "1")));
    state.update(ReplMsg::AddHistory(entry("second", "2")));
    type_line(&mut state, "draft");
    state.update(ReplMsg::HistoryPrev);
    assert_eq!(state.input(), "second");
    state.update(ReplMsg::HistoryPrev);
    assert_eq!(state.input(), "first");
    // at the oldest entry nothing changes
    state.update(ReplMsg::HistoryPrev);
    assert_eq!(state.input(), "first");
    state.update(ReplMsg::HistoryNext);
    assert_eq!(state.input(), "second");
    state.update(ReplMsg::HistoryNext);
    assert_eq!(state.input(), "draft");
    // not navigating: nothing changes
    state.update(ReplMsg::HistoryNext);
    assert_eq!(state.input(), "draft");
}

#[test]
fn history_prev_with_empty_history_does_nothing() {
    let mut state = ReplState::new();
    type_line(&mut state, "x");
    state.update(ReplMsg::HistoryPrev);
    assert_eq!(state.input(), "x");
}

#[test]
fn scrolling_stays_within_the_history() {
    let mut state = ReplState::new();
    state.update(ReplMsg::ScrollUp);
    assert_eq!(state.scroll_offset(), 0);
    for i in 0..3 {
        state.update(ReplMsg::AddHistory(entry(&i.to_string(), "ok")));
    }
    for _ in 0..5 {
        state.update(ReplMsg::ScrollUp);
    }
    assert_eq!(state.scroll_offset(), 2);
    state.update(ReplMsg::ScrollDown);
    assert_eq!(state.scroll_offset(), 1);
    // a new entry scrolls to the bottom
    state.update(ReplMsg::AddHistory(entry("n", "ok")));
    assert_eq!(state.scroll_offset(), 0);
    state.update(ReplMsg::Clear);
    assert!(state.history().is_empty());
}

#[test]
fn quit_entry_ends_the_session() {
    let mut state = ReplState::new();
    state.update(ReplMsg::AddHistory(entry(":quit", "QUIT")));
    assert!(state.should_quit());
    assert!(state.history().is_empty());
    let mut state = ReplState::new();
    state.update(ReplMsg::Quit);
    assert!(state.should_quit());
}

#[test]
fn command_entries() {
    let e = command_history_entry(":q", CommandResult::Quit);
    assert_eq!((e.input.as_str(), e.output.as_str(), e.is_error), (":q", "QUIT", false));
    let e = command_history_entry(":clear", CommandResult::Cleared);
    assert_eq!(e.output, "Environment cleared.");
    let e = command_history_entry(":t 1", CommandResult::TypeOf { ty: Type::int_type() });
    assert_eq!((e.output.as_str(), e.is_error), ("int", false));
    let e = command_history_entry(":x", CommandResult::Unknown { cmd: "Unknown command: :x".to_string() });
    assert_eq!((e.output.as_str(), e.is_error), ("Unknown command: :x", true));
}
