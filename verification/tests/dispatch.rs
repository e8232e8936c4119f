use command_bot::entity::{Entity, Message, Update};
use command_bot::executor::{strip_tag, CommandExecutor};
use command_bot::registry::CommandRegistry;
use command_bot::text::text_eq;
use std::cell::RefCell;

type Handler<'a> = Box<dyn Fn(&Update, &str, &str) + 'a>;

fn command(offset: u32, length: u32) -> Entity {
    Entity { kind: "bot_command".to_string(), offset, length }
}

fn update(update_id: u32, text: Option<&str>, entities: Option<Vec<Entity>>) -> Update {
    Update {
        update_id,
        message: Some(Message { chat_id: 42, text: text.map(|t| t.to_string()), entities }),
    }
}

fn recorder<'a>(log: &'a RefCell<Vec<String>>, tag: &'a str) -> Handler<'a> {
    Box::new(move |update: &Update, command: &str, rest: &str| {
        log.borrow_mut().push(format!("{}:{}:{}:{}", tag, update.update_id, command, rest));
    })
}

#[test]
fn texts_are_equal_when_their_characters_are() {
    assert!(text_eq("", ""));
    assert!(text_eq("up", "up"));
    assert!(text_eq("\u{1F600}x", "\u{1F600}x"));
    assert!(!text_eq("up", "u"));
    assert!(!text_eq("u", "up"));
    assert!(!text_eq("up", "uq"));
    assert!(!text_eq("", "a"));
    assert!(!text_eq("Up", "up"));
}

#[test]
fn empty_registry_knows_no_command() {
    let registry: CommandRegistry<u8> = CommandRegistry::new();
    assert_eq!(registry.len(), 0);
    assert!(registry.lookup("up").is_none());
    assert!(registry.lookup("").is_none());
}

#[test]
fn registered_handler_is_found_under_its_name() {
    let mut registry: CommandRegistry<u8> = CommandRegistry::new();
    registry.register("up".to_string(), 1);
    registry.register("down".to_string(), 2);
    assert_eq!(registry.lookup("up"), Some(&1));
    assert_eq!(registry.lookup("down"), Some(&2));
    assert_eq!(registry.lookup("left"), None);
    assert_eq!(registry.lookup("u"), None);
    assert_eq!(registry.lookup("/up"), None);
    assert_eq!(registry.len(), 2);
}

#[test]
fn last_registration_of_a_name_wins() {
    let mut registry: CommandRegistry<u8> = CommandRegistry::new();
    registry.register("up".to_string(), 1);
    registry.register("down".to_string(), 2);
    registry.register("up".to_string(), 3);
    assert_eq!(registry.lookup("up"), Some(&3));
    assert_eq!(registry.lookup("down"), Some(&2));
    assert_eq!(registry.len(), 2);
    registry.register("up".to_string(), 1);
    assert_eq!(registry.lookup("up"), Some(&1));
    assert_eq!(registry.len(), 2);
}

#[test]
fn tag_is_stripped_once_from_the_front() {
    assert_eq!(strip_tag("/up"), "up");
    assert_eq!(strip_tag("up"), "up");
    assert_eq!(strip_tag("//up"), "/up");
    assert_eq!(strip_tag("/"), "");
    assert_eq!(strip_tag(""), "");
    assert_eq!(strip_tag("u/p"), "u/p");
    assert_eq!(strip_tag("/\u{1F600}"), "\u{1F600}");
}

#[test]
fn unknown_command_calls_no_handler() {
    let log = RefCell::new(Vec::new());
    let mut executor: CommandExecutor<Handler> = CommandExecutor::new();
    executor.register_command("up".to_string(), recorder(&log, "up"));
    let u = update(1, Some("/nonexistent"), Some(vec![command(0, 12)]));
    let called = executor.execute_command(&u, "/nonexistent", "");
    assert!(!called);
    assert!(executor.resolve("/nonexistent").is_none());
    assert_eq!(executor.execute_update(&u), 0);
    assert!(executor.dispatch(&u).is_empty());
    assert!(log.borrow().is_empty());
}

#[test]
fn known_command_calls_its_handler_with_token_and_remainder() {
    let log = RefCell::new(Vec::new());
    let mut executor: CommandExecutor<Handler> = CommandExecutor::new();
    executor.register_command("up".to_string(), recorder(&log, "up"));
    executor.register_command("down".to_string(), recorder(&log, "down"));
    let u = update(5, None, None);
    assert!(executor.execute_command(&u, "/up", " please"));
    assert!(executor.execute_command(&u, "down", ""));
    assert_eq!(*log.borrow(), vec!["up:5:/up: please".to_string(), "down:5:down:".to_string()]);
}

#[test]
fn executor_calls_the_handler_registered_last() {
    let log = RefCell::new(Vec::new());
    let mut executor: CommandExecutor<Handler> = CommandExecutor::new();
    executor.register_command("up".to_string(), recorder(&log, "first"));
    executor.register_command("up".to_string(), recorder(&log, "second"));
    let u = update(1, None, None);
    assert!(executor.execute_command(&u, "/up", ""));
    assert_eq!(*log.borrow(), vec!["second:1:/up:".to_string()]);
}

#[test]
fn executor_over_a_filled_registry_knows_its_commands() {
    let mut registry: CommandRegistry<u8> = CommandRegistry::new();
    registry.register("up".to_string(), 9);
    let executor = CommandExecutor::with_registry(registry);
    assert_eq!(executor.resolve("/up"), Some(&9));
    assert_eq!(executor.resolve("up"), Some(&9));
    assert_eq!(executor.resolve("/down"), None);
}

#[test]
fn update_calls_the_handlers_of_its_commands_in_order() {
    let log = RefCell::new(Vec::new());
    let mut executor: CommandExecutor<Handler> = CommandExecutor::new();
    executor.register_command("up".to_string(), recorder(&log, "up"));
    executor.register_command("down".to_string(), recorder(&log, "down"));
    let u = update(
        3,
        Some("/down a /nope b /up c"),
        Some(vec![command(0, 5), command(8, 5), command(16, 3), command(30, 2)]),
    );
    assert_eq!(executor.execute_update(&u), 2);
    assert_eq!(
        *log.borrow(),
        vec!["down:3:/down: a /nope b /up c".to_string(), "up:3:/up: c".to_string()]
    );
}

#[test]
fn dispatch_lists_the_calls_without_making_them() {
    let log = RefCell::new(Vec::new());
    let mut executor: CommandExecutor<Handler> = CommandExecutor::new();
    executor.register_command("up".to_string(), recorder(&log, "up"));
    let u = update(3, Some("x /up y"), Some(vec![command(2, 3)]));
    let calls = executor.dispatch(&u);
    assert_eq!(calls.len(), 1);
    assert_eq!(calls[0].name, "/up");
    assert_eq!(calls[0].remainder, " y");
    assert!(log.borrow().is_empty());
    (calls[0].handler)(&u, calls[0].name, calls[0].remainder);
    assert_eq!(*log.borrow(), vec!["up:3:/up: y".to_string()]);
}

#[test]
fn update_without_message_text_or_entities_calls_nothing() {
    let log = RefCell::new(Vec::new());
    let mut executor: CommandExecutor<Handler> = CommandExecutor::new();
    executor.register_command("up".to_string(), recorder(&log, "up"));
    let bare = Update { update_id: 1, message: None };
    assert_eq!(executor.execute_update(&bare), 0);
    assert_eq!(executor.execute_update(&update(2, None, Some(vec![command(0, 3)]))), 0);
    assert_eq!(executor.execute_update(&update(3, Some("/up"), None)), 0);
    assert!(log.borrow().is_empty());
}
