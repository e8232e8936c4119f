use command_bot::entity::{Entity, Message, Update};
use command_bot::executor::CommandExecutor;
use command_bot::poll::{handle_updates, Fetched, PollLoop, UpdateKind, POLL_INTERVAL_SECONDS};
use std::cell::RefCell;

type Handler<'a> = Box<dyn Fn(&Update, &str, &str) + 'a>;

fn plain(update_id: u32) -> Update {
    Update { update_id, message: None }
}

fn with_command(update_id: u32, text: &str, length: u32) -> Update {
    Update {
        update_id,
        message: Some(Message {
            chat_id: 1,
            text: Some(text.to_string()),
            entities: Some(vec![Entity { kind: "bot_command".to_string(), offset: 0, length }]),
        }),
    }
}

fn without_entities(update_id: u32, text: &str) -> Update {
    Update {
        update_id,
        message: Some(Message { chat_id: 1, text: Some(text.to_string()), entities: None }),
    }
}

fn counting<'a>(log: &'a RefCell<Vec<u32>>) -> CommandExecutor<Handler<'a>> {
    let mut executor: CommandExecutor<Handler> = CommandExecutor::new();
    executor.register_command(
        "up".to_string(),
        Box::new(move |update: &Update, _: &str, _: &str| log.borrow_mut().push(update.update_id)),
    );
    executor
}

#[test]
fn empty_batch_asks_for_no_cursor() {
    let log = RefCell::new(Vec::new());
    let executor = counting(&log);
    assert_eq!(handle_updates(&vec![], &executor), None);
}

#[test]
fn batch_asks_for_one_past_its_highest_identifier() {
    let log = RefCell::new(Vec::new());
    let executor = counting(&log);
    assert_eq!(handle_updates(&vec![plain(10), plain(11), plain(12)], &executor), Some(13));
    assert_eq!(handle_updates(&vec![plain(0)], &executor), Some(1));
    assert_eq!(handle_updates(&vec![plain(12), plain(10), plain(11)], &executor), Some(13));
}

#[test]
fn highest_identifier_does_not_overflow_the_cursor() {
    let log = RefCell::new(Vec::new());
    let executor = counting(&log);
    assert_eq!(handle_updates(&vec![plain(u32::MAX)], &executor), Some(4294967296));
}

#[test]
fn batch_calls_handlers_in_the_order_received() {
    let log = RefCell::new(Vec::new());
    let executor = counting(&log);
    let batch = vec![with_command(4, "/up", 3), plain(5), with_command(6, "/up now", 3)];
    assert_eq!(handle_updates(&batch, &executor), Some(7));
    assert_eq!(*log.borrow(), vec![4, 6]);
}

#[test]
fn update_without_entities_still_counts_for_the_cursor() {
    let log = RefCell::new(Vec::new());
    let executor = counting(&log);
    let batch = vec![with_command(20, "/up", 3), without_entities(21, "/up")];
    assert_eq!(handle_updates(&batch, &executor), Some(22));
    assert_eq!(*log.borrow(), vec![20]);
}

#[test]
fn malformed_update_does_not_stop_the_batch() {
    let log = RefCell::new(Vec::new());
    let executor = counting(&log);
    let batch = vec![
        plain(1),
        with_command(2, "/up", 40),
        Update { update_id: 3, message: Some(Message { chat_id: 1, text: None, entities: None }) },
        with_command(4, "/other", 6),
        with_command(5, "/up", 3),
    ];
    assert_eq!(handle_updates(&batch, &executor), Some(6));
    assert_eq!(*log.borrow(), vec![5]);
}

#[test]
fn new_loop_has_no_cursor_and_asks_for_messages() {
    let state = PollLoop::new();
    assert_eq!(state.cursor(), None);
    let request = state.request();
    assert_eq!(request.offset, None);
    assert_eq!(request.allowed_kinds, vec![UpdateKind::Message]);
}

#[test]
fn fetched_batch_advances_the_cursor_and_the_next_request() {
    let log = RefCell::new(Vec::new());
    let executor = counting(&log);
    let mut state = PollLoop::new();
    let pause = state.step(Fetched::Updates(vec![plain(100), with_command(101, "/up", 3)]), &executor);
    assert_eq!(pause.seconds, 3);
    assert_eq!(pause.seconds, POLL_INTERVAL_SECONDS);
    assert_eq!(pause.report, None);
    assert_eq!(state.cursor(), Some(102));
    assert_eq!(state.request().offset, Some(102));
    assert_eq!(state.request().allowed_kinds, vec![UpdateKind::Message]);
    assert_eq!(*log.borrow(), vec![101]);
}

#[test]
fn empty_batch_leaves_the_cursor() {
    let log = RefCell::new(Vec::new());
    let executor = counting(&log);
    let mut state = PollLoop::new();
    state.step(Fetched::Updates(vec![]), &executor);
    assert_eq!(state.cursor(), None);
    state.step(Fetched::Updates(vec![plain(7)]), &executor);
    assert_eq!(state.cursor(), Some(8));
    let pause = state.step(Fetched::Updates(vec![]), &executor);
    assert_eq!(state.cursor(), Some(8));
    assert_eq!(pause.seconds, 3);
}

#[test]
fn failed_fetch_leaves_the_cursor_and_is_reported() {
    let log = RefCell::new(Vec::new());
    let executor = counting(&log);
    let mut state = PollLoop::new();
    let pause = state.step(Fetched::Failed("no route".to_string()), &executor);
    assert_eq!(state.cursor(), None);
    assert_eq!(pause.report, Some("Error: no route".to_string()));
    assert_eq!(pause.seconds, 3);
    state.step(Fetched::Updates(vec![plain(41)]), &executor);
    let before = state.cursor();
    assert_eq!(before, Some(42));
    let pause = state.step(Fetched::Failed("timeout".to_string()), &executor);
    assert_eq!(state.cursor(), before);
    assert_eq!(state.request().offset, Some(42));
    assert_eq!(pause.report, Some("Error: timeout".to_string()));
    assert!(log.borrow().is_empty());
}

#[test]
fn cursor_never_moves_backwards() {
    let log = RefCell::new(Vec::new());
    let executor = counting(&log);
    let mut state = PollLoop::new();
    state.step(Fetched::Updates(vec![plain(9)]), &executor);
    assert_eq!(state.cursor(), Some(10));
    state.step(Fetched::Updates(vec![plain(3)]), &executor);
    assert_eq!(state.cursor(), Some(10));
    state.step(Fetched::Updates(vec![plain(9)]), &executor);
    assert_eq!(state.cursor(), Some(10));
    state.step(Fetched::Updates(vec![plain(10)]), &executor);
    assert_eq!(state.cursor(), Some(11));
}

#[test]
fn cursor_rises_over_a_run_of_batches_and_failures() {
    let log = RefCell::new(Vec::new());
    let executor = counting(&log);
    let mut state = PollLoop::new();
    let answers = vec![
        Fetched::Updates(vec![]),
        Fetched::Updates(vec![plain(1), plain(2)]),
        Fetched::Failed("down".to_string()),
        Fetched::Updates(vec![plain(3)]),
        Fetched::Updates(vec![]),
        Fetched::Updates(vec![plain(4), plain(5), plain(6)]),
        Fetched::Failed("down".to_string()),
    ];
    let expected = [None, Some(3), Some(3), Some(4), Some(4), Some(7), Some(7)];
    let mut last = state.cursor();
    for (answer, want) in answers.into_iter().zip(expected) {
        state.step(answer, &executor);
        assert_eq!(state.cursor(), want);
        assert!(last <= state.cursor());
        assert_eq!(state.request().offset, state.cursor());
        last = state.cursor();
    }
}

#[test]
fn cursor_reaches_its_highest_value() {
    let log = RefCell::new(Vec::new());
    let executor = counting(&log);
    let mut state = PollLoop::new();
    state.step(Fetched::Updates(vec![plain(u32::MAX)]), &executor);
    assert_eq!(state.cursor(), Some(4294967296));
}
