//! Dispatch of commands to their handlers.
//!
//! The executor owns the registry. Given a command token it strips the command
//! tag, looks the name up and calls the handler found; a token that names no
//! registered command is passed over in silence. Given an update it does so
//! for every command that the update's message holds.

use crate::entity::{outcome_parts, Command, CommandView, ExtractError, Update};
use crate::registry::CommandRegistry;
use vstd::prelude::*;
use vstd::string::*;

verus! {

/// The character that tags a token as a command.
pub open spec fn command_tag() -> char {
    '/'
}

/// The name that a command token is registered under: the token without its
/// leading tag. A token that does not start with the tag is its own name.
pub open spec fn command_name(token: Seq<char>) -> Seq<char> {
    if token.len() > 0 && token[0] == command_tag() {
        token.skip(1)
    } else {
        token
    }
}

/// Strips the command tag from the front of `token`.
pub fn strip_tag<'a>(token: &'a str) -> (name: &'a str)
    ensures
        name@ == command_name(token@),
{
    let n = token.unicode_len();
    if n > 0 && token.get_char(0) == '/' {
        token.substring_char(1, n)
    } else {
        token
    }
}

/// One call of a handler that an update gives rise to.
pub struct Invocation<'a, H> {
    /// The handler registered under the command's name.
    pub handler: &'a H,
    /// The command token as it stands in the text, tag included.
    pub name: &'a str,
    /// The text that follows the command token.
    pub remainder: &'a str,
}

/// A handler call as plain values.
pub struct InvocationView<H> {
    pub handler: H,
    pub name: Seq<char>,
    pub remainder: Seq<char>,
}

impl<'a, H> View for Invocation<'a, H> {
    type V = InvocationView<H>;

    open spec fn view(&self) -> InvocationView<H> {
        InvocationView { handler: *self.handler, name: self.name@, remainder: self.remainder@ }
    }
}

/// The call that the command `parts` gives rise to under `table`.
pub open spec fn invocation_of<H>(table: Map<Seq<char>, H>, parts: CommandView) -> InvocationView<
    H,
> {
    InvocationView {
        handler: table[command_name(parts.name)],
        name: parts.name,
        remainder: parts.remainder,
    }
}

/// Whether what was taken from one command entity is a command that `table`
/// has a handler for.
pub open spec fn is_matched<H>(table: Map<Seq<char>, H>, item: Option<CommandView>) -> bool {
    item matches Some(parts) && table.contains_key(command_name(parts.name))
}

/// The handler calls that `items` give rise to under `table`, in their order:
/// one for each command that has a handler. Commands without a handler and
/// entities with an invalid span give rise to none.
pub open spec fn invocations<H>(table: Map<Seq<char>, H>, items: Seq<Option<CommandView>>) -> Seq<
    InvocationView<H>,
> {
    items.filter(|item: Option<CommandView>| is_matched(table, item)).map_values(
        |item: Option<CommandView>| invocation_of(table, item.unwrap()),
    )
}

/// One more item adds one call where it is a command with a handler, and none
/// otherwise.
pub proof fn lemma_invocations_push<H>(
    table: Map<Seq<char>, H>,
    items: Seq<Option<CommandView>>,
    item: Option<CommandView>,
)
    ensures
        invocations(table, items.push(item)) == if is_matched(table, item) {
            invocations(table, items).push(invocation_of(table, item.unwrap()))
        } else {
            invocations(table, items)
        },
{
    let matched = |item: Option<CommandView>| is_matched(table, item);
    let call = |item: Option<CommandView>| invocation_of(table, item.unwrap());
    items.lemma_filter_push(item, matched);
    if is_matched(table, item) {
        items.filter(matched).lemma_push_map_commute(call, item);
    }
}

/// Every call names a registered command and goes to the handler registered
/// under that name.
pub proof fn lemma_invocations_registered<H>(
    table: Map<Seq<char>, H>,
    items: Seq<Option<CommandView>>,
    k: int,
)
    requires
        0 <= k < invocations(table, items).len(),
    ensures
        table.contains_key(command_name(invocations(table, items)[k].name)),
        invocations(table, items)[k].handler == table[command_name(
            invocations(table, items)[k].name,
        )],
{
    let matched = |item: Option<CommandView>| is_matched(table, item);
    items.lemma_filter_pred(matched, k);
}

/// The handler calls that `update` gives rise to under `table`. An update
/// without a message gives rise to none.
pub open spec fn update_invocations<H>(table: Map<Seq<char>, H>, update: Update) -> Seq<
    InvocationView<H>,
> {
    match update.message {
        Some(message) => invocations(table, message.commands()),
        None => Seq::empty(),
    }
}

/// An update without a message, a message without text and a message without
/// entities give rise to no call, whatever is registered.
pub proof fn lemma_skipped_update_calls_nothing<H>(table: Map<Seq<char>, H>, update: Update)
    requires
        update.message matches Some(message) ==> message.text is None || message.entities is None,
    ensures
        update_invocations(table, update).len() == 0,
{
    match update.message {
        Some(message) => {
            assert(message.commands() =~= Seq::empty());
            Seq::<Option<CommandView>>::empty().lemma_filter_len(
                |item: Option<CommandView>| is_matched(table, item),
            );
        },
        None => {},
    }
}

/// The handler of `call` has returned from a call on `update`, the command
/// token and the remainder of `call`.
pub open spec fn was_called<H: Fn(&Update, &str, &str)>(
    update: &Update,
    call: InvocationView<H>,
) -> bool {
    exists|name: &str, remainder: &str|
        name@ == call.name && remainder@ == call.remainder && #[trigger] call_ensures(
            call.handler,
            (update, name, remainder),
            (),
        )
}

/// Every handler call that `update` gives rise to under `table` has been made
/// and has returned.
pub open spec fn all_called<H: Fn(&Update, &str, &str)>(
    table: Map<Seq<char>, H>,
    update: &Update,
) -> bool {
    forall|k: int|
        0 <= k < update_invocations(table, *update).len() ==> was_called(
            update,
            #[trigger] update_invocations(table, *update)[k],
        )
}

/// Extracts the commands of updates and calls their handlers.
pub struct CommandExecutor<H> {
    registry: CommandRegistry<H>,
}

impl<H> View for CommandExecutor<H> {
    type V = Map<Seq<char>, H>;

    closed spec fn view(&self) -> Map<Seq<char>, H> {
        self.registry@
    }
}

impl<H> CommandExecutor<H> {
    /// An executor that knows no command.
    pub fn new() -> (executor: Self)
        ensures
            executor@ == Map::<Seq<char>, H>::empty(),
    {
        CommandExecutor { registry: CommandRegistry::new() }
    }

    /// An executor over the commands of `registry`.
    pub fn with_registry(registry: CommandRegistry<H>) -> (executor: Self)
        ensures
            executor@ == registry@,
    {
        CommandExecutor { registry }
    }

    /// Registers `handler` under `name`, in place of what was registered under
    /// that name before.
    pub fn register_command(&mut self, name: String, handler: H)
        ensures
            final(self)@ == old(self)@.insert(name@, handler),
    {
        self.registry.register(name, handler);
    }

    /// The handler that the command token `command_text` names, or nothing
    /// where no command of that name is registered.
    pub fn resolve(&self, command_text: &str) -> (found: Option<&H>)
        ensures
            match found {
                Some(handler) => self@.contains_key(command_name(command_text@)) && *handler
                    == self@[command_name(command_text@)],
                None => !self@.contains_key(command_name(command_text@)),
            },
    {
        self.registry.lookup(strip_tag(command_text))
    }

    /// The handler calls that `update` gives rise to, in the order of the
    /// entities of its message.
    pub fn dispatch<'a>(&'a self, update: &'a Update) -> (calls: Vec<Invocation<'a, H>>)
        ensures
            calls@.map_values(|call: Invocation<'a, H>| call@) == update_invocations(
                self@,
                *update,
            ),
    {
        let mut calls: Vec<Invocation<'a, H>> = Vec::new();
        let message = match &update.message {
            Some(message) => message,
            None => {
                return calls;
            },
        };
        let found = message.extract_commands();
        let ghost items = message.commands();
        let ghost table = self@;
        let mut i: usize = 0;
        while i < found.len()
            invariant
                i <= found.len(),
                table == self@,
                found@.map_values(|o: Result<Command<'a>, ExtractError>| outcome_parts(o)) == items,
                calls@.map_values(|call: Invocation<'a, H>| call@) == invocations(
                    table,
                    items.take(i as int),
                ),
            decreases found.len() - i,
        {
            let ghost before = calls@;
            proof {
                lemma_invocations_push(table, items.take(i as int), items[i as int]);
                assert(items.take(i as int).push(items[i as int]) =~= items.take(i + 1));
                assert(items[i as int] == outcome_parts(found@[i as int]));
            }
            match &found[i] {
                Ok(command) => {
                    match self.resolve(command.name) {
                        Some(handler) => {
                            let call = Invocation {
                                handler,
                                name: command.name,
                                remainder: command.remainder,
                            };
                            calls.push(call);
                            proof {
                                before.lemma_push_map_commute(
                                    |call: Invocation<'a, H>| call@,
                                    call,
                                );
                            }
                        },
                        None => {},
                    }
                },
                Err(_) => {},
            }
            i = i + 1;
        }
        proof {
            assert(items.take(i as int) =~= items);
        }
        calls
    }

    /// Every registered handler can be called on every update, command and
    /// remainder.
    pub open spec fn handlers_accept_all(&self) -> bool where H: Fn(&Update, &str, &str) {
        forall|name: Seq<char>, update: &Update, command_text: &str, remainder: &str|
            self@.contains_key(name) ==> #[trigger] call_requires(
                self@[name],
                (update, command_text, remainder),
            )
    }

    /// Calls the handler that `command_text` names on the update, the command
    /// token and the remainder. Where no command of that name is registered,
    /// nothing is called and nothing is reported: the token may never have
    /// been meant as a command. Says whether a handler was called.
    pub fn execute_command(
        &self,
        update: &Update,
        command_text: &str,
        remainder: &str,
    ) -> (called: bool) where H: Fn(&Update, &str, &str)
        requires
            self.handlers_accept_all(),
        ensures
            called == self@.contains_key(command_name(command_text@)),
            called ==> call_ensures(
                self@[command_name(command_text@)],
                (update, command_text, remainder),
                (),
            ),
    {
        match self.resolve(command_text) {
            Some(handler) => {
                handler(update, command_text, remainder);
                true
            },
            None => false,
        }
    }

    /// Calls the handlers of the commands of `update`, each on the update, its
    /// command token and its remainder, in the order of the entities. Commands
    /// without a handler and entities with an invalid span are passed over; an
    /// update without message, text or entities calls nothing. Gives the
    /// number of calls made.
    pub fn execute_update(&self, update: &Update) -> (count: usize) where H: Fn(&Update, &str, &str)
        requires
            self.handlers_accept_all(),
        ensures
            count == update_invocations(self@, *update).len(),
            all_called(self@, update),
    {
        let calls = self.dispatch(update);
        let ghost plan = update_invocations(self@, *update);
        proof {
            assert(plan.len() == calls@.len());
            assert forall|k: int| 0 <= k < calls.len() implies self@.contains_key(
                command_name(#[trigger] calls@[k].name@),
            ) && *calls@[k].handler == self@[command_name(calls@[k].name@)] by {
                assert(plan[k] == calls@[k]@);
                match update.message {
                    Some(message) => {
                        lemma_invocations_registered(self@, message.commands(), k);
                    },
                    None => {},
                }
            }
        }
        let mut i: usize = 0;
        while i < calls.len()
            invariant
                i <= calls.len(),
                self.handlers_accept_all(),
                plan == calls@.map_values(|call: Invocation<'_, H>| call@),
                forall|k: int|
                    0 <= k < calls.len() ==> self@.contains_key(
                        command_name(#[trigger] calls@[k].name@),
                    ) && *calls@[k].handler == self@[command_name(calls@[k].name@)],
                forall|k: int| 0 <= k < i ==> was_called(update, #[trigger] plan[k]),
            decreases calls.len() - i,
        {
            let call = &calls[i];
            proof {
                let name = command_name(calls@[i as int].name@);
                assert(self@.contains_key(name) && *call.handler == self@[name]);
                assert(call_requires(self@[name], (update, call.name, call.remainder)));
            }
            (call.handler)(update, call.name, call.remainder);
            proof {
                assert(plan[i as int] == calls@[i as int]@);
                assert(call.name@ == plan[i as int].name);
                assert(call.remainder@ == plan[i as int].remainder);
                assert(call_ensures(
                    plan[i as int].handler,
                    (update, call.name, call.remainder),
                    (),
                ));
            }
            i = i + 1;
        }
        calls.len()
    }
}

} // verus!
