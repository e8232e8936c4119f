//! Messages, their entity annotations, and the extraction of command tokens.
//!
//! An entity marks a span of a message's text with a kind. The spans tagged as
//! commands are sliced out of the text: the marked token is the command, and
//! all that follows it is the remainder, which a handler reads as arguments.
//! Offsets and lengths count UTF-16 code units, as the platform reports them.

use crate::text::{
    boundary_index, find_boundary, is_boundary, lemma_boundary_index, lemma_unit_len_concat,
    lemma_unit_len_strictly_monotonic, text_eq, unit_len,
};
use vstd::prelude::*;
use vstd::string::*;

verus! {

/// An annotation of a span of a message's text.
#[derive(Clone, Debug)]
pub struct Entity {
    /// What the span is: a command, a mention, a link and so on.
    pub kind: String,
    /// Where the span starts, in UTF-16 code units from the start of the text.
    pub offset: u32,
    /// How many UTF-16 code units the span covers.
    pub length: u32,
}

/// An inbound message.
#[derive(Clone, Debug)]
pub struct Message {
    /// The conversation that the message belongs to; a handler replies there.
    pub chat_id: i64,
    /// The text of the message, where it has one.
    pub text: Option<String>,
    /// The annotations of the text in the order given, where there are any.
    pub entities: Option<Vec<Entity>>,
}

/// An inbound event of the platform.
#[derive(Clone, Debug)]
pub struct Update {
    /// The identifier of the update; the platform hands them out in rising order.
    pub update_id: u32,
    /// The message that the update carries, where it carries one.
    pub message: Option<Message>,
}

/// A command token sliced out of a text, with all that follows it.
#[derive(Clone, Copy, Debug)]
pub struct Command<'a> {
    /// The span that the entity marks, command tag included.
    pub name: &'a str,
    /// The text after the span, up to the end of the message.
    pub remainder: &'a str,
}

/// A command and its remainder as sequences of characters.
pub struct CommandView {
    pub name: Seq<char>,
    pub remainder: Seq<char>,
}

impl<'a> View for Command<'a> {
    type V = CommandView;

    open spec fn view(&self) -> CommandView {
        CommandView { name: self.name@, remainder: self.remainder@ }
    }
}

/// Why no command could be taken from an entity.
#[derive(Clone, Copy, Debug, PartialEq, Eq, Structural)]
pub enum ExtractError {
    /// The span reaches past the end of the text, or one of its ends falls
    /// between the two code units of one character.
    InvalidEntitySpan,
}

/// The kind that tags an entity as a command.
pub const BOT_COMMAND: &'static str = "bot_command";

/// The kind that tags an entity as a command, as characters.
pub open spec fn command_kind() -> Seq<char> {
    BOT_COMMAND@
}

/// The command and the remainder that a span marks in `text`, where both ends
/// of the span lie at a character of the text or at its end.
pub open spec fn span_parts(text: Seq<char>, offset: nat, length: nat) -> Option<CommandView> {
    match (boundary_index(text, offset), boundary_index(text, offset + length)) {
        (Some(start), Some(end)) => Some(
            CommandView { name: text.subrange(start, end), remainder: text.skip(end) },
        ),
        _ => None,
    }
}

/// The text is `prefix`, then the command, then the remainder, where the
/// prefix takes `offset` code units and the command `length`.
pub open spec fn splits_as(
    text: Seq<char>,
    prefix: Seq<char>,
    parts: CommandView,
    offset: nat,
    length: nat,
) -> bool {
    &&& text == prefix + parts.name + parts.remainder
    &&& unit_len(prefix) == offset
    &&& unit_len(parts.name) == length
}

/// A span marks a command and a remainder exactly where the text splits into
/// a prefix of `offset` code units, the command of `length` code units, and
/// the remainder. So no character is lost, doubled or cut in two.
pub proof fn lemma_span_parts_split(text: Seq<char>, offset: nat, length: nat, parts: CommandView)
    ensures
        span_parts(text, offset, length) == Some(parts) <==> exists|prefix: Seq<char>|
            splits_as(text, prefix, parts, offset, length),
{
    if span_parts(text, offset, length) == Some(parts) {
        let start = boundary_index(text, offset)->0;
        let end = boundary_index(text, offset + length)->0;
        assert(is_boundary(text, start, offset));
        assert(is_boundary(text, end, offset + length));
        if end < start {
            lemma_unit_len_strictly_monotonic(text, end, start);
        }
        let prefix = text.take(start);
        assert(text.take(end) =~= prefix + parts.name);
        lemma_unit_len_concat(prefix, parts.name);
        assert(text =~= prefix + parts.name + parts.remainder);
        assert(splits_as(text, prefix, parts, offset, length));
    }
    if exists|prefix: Seq<char>| splits_as(text, prefix, parts, offset, length) {
        let prefix = choose|prefix: Seq<char>| splits_as(text, prefix, parts, offset, length);
        let start = prefix.len() as int;
        let end = start + parts.name.len();
        assert(text.take(start) =~= prefix);
        assert(text.take(end) =~= prefix + parts.name);
        lemma_unit_len_concat(prefix, parts.name);
        lemma_boundary_index(text, start, offset);
        lemma_boundary_index(text, end, offset + length);
        assert(text.subrange(start, end) =~= parts.name);
        assert(text.skip(end) =~= parts.remainder);
    }
}

/// What was taken from one command entity: the command and the remainder, or
/// nothing where its span is invalid.
pub open spec fn outcome_parts(outcome: Result<Command<'_>, ExtractError>) -> Option<CommandView> {
    match outcome {
        Ok(command) => Some(command@),
        Err(_) => None,
    }
}

/// What the command entities among `entities` mark in `text`, one item for each
/// of them, in their order.
pub open spec fn extracted(text: Seq<char>, entities: Seq<Entity>) -> Seq<Option<CommandView>> {
    entities.filter(|e: Entity| e.spec_is_command()).map_values(|e: Entity| e.parts_in(text))
}

/// One more entity adds one item where it is a command, and none otherwise.
pub proof fn lemma_extracted_push(text: Seq<char>, entities: Seq<Entity>, entity: Entity)
    ensures
        extracted(text, entities.push(entity)) == if entity.spec_is_command() {
            extracted(text, entities).push(entity.parts_in(text))
        } else {
            extracted(text, entities)
        },
{
    let is_command = |e: Entity| e.spec_is_command();
    let parts = |e: Entity| e.parts_in(text);
    entities.lemma_filter_push(entity, is_command);
    if entity.spec_is_command() {
        entities.filter(is_command).lemma_push_map_commute(parts, entity);
    }
}

impl Entity {
    /// The entity is tagged as a command.
    pub open spec fn spec_is_command(&self) -> bool {
        self.kind@ == command_kind()
    }

    /// What the entity marks in `text`.
    pub open spec fn parts_in(&self, text: Seq<char>) -> Option<CommandView> {
        span_parts(text, self.offset as nat, self.length as nat)
    }

    /// Whether the entity is tagged as a command.
    #[verifier::when_used_as_spec(spec_is_command)]
    pub fn is_command(&self) -> (yes: bool)
        ensures
            yes == self.spec_is_command(),
    {
        text_eq(self.kind.as_str(), BOT_COMMAND)
    }

    /// Slices the span that the entity marks out of `text`.
    ///
    /// The command is the marked span, the remainder is the text after it.
    /// Fails where the span does not lie within the text on character borders.
    pub fn slice<'a>(&self, text: &'a str) -> (sliced: Result<Command<'a>, ExtractError>)
        ensures
            match sliced {
                Ok(command) => self.parts_in(text@) == Some(command@),
                Err(e) => e == ExtractError::InvalidEntitySpan && self.parts_in(text@) is None,
            },
    {
        let offset: u64 = self.offset as u64;
        let end_units: u64 = offset + self.length as u64;
        let start = match find_boundary(text, offset) {
            Some(i) => i,
            None => {
                return Err(ExtractError::InvalidEntitySpan);
            },
        };
        let end = match find_boundary(text, end_units) {
            Some(j) => j,
            None => {
                return Err(ExtractError::InvalidEntitySpan);
            },
        };
        proof {
            if end < start {
                lemma_unit_len_strictly_monotonic(text@, end as int, start as int);
            }
        }
        let total = text.unicode_len();
        let name = text.substring_char(start, end);
        let remainder = text.substring_char(end, total);
        Ok(Command { name, remainder })
    }
}

impl Message {
    /// What the command entities of the message mark in its text. A message
    /// without text or without entities has no commands.
    pub open spec fn commands(&self) -> Seq<Option<CommandView>> {
        match (self.text, self.entities) {
            (Some(text), Some(entities)) => extracted(text@, entities@),
            _ => Seq::empty(),
        }
    }

    /// Takes the commands out of the message: one outcome for each entity
    /// tagged as a command, in the order of the entities. Entities of other
    /// kinds are passed over. An entity whose span is invalid gives an error in
    /// its place and does not disturb the others. A message without text or
    /// without entities gives nothing.
    pub fn extract_commands<'a>(&'a self) -> (found: Vec<Result<Command<'a>, ExtractError>>)
        ensures
            found@.map_values(|o: Result<Command<'a>, ExtractError>| outcome_parts(o))
                == self.commands(),
    {
        let mut found: Vec<Result<Command<'a>, ExtractError>> = Vec::new();
        let text = match &self.text {
            Some(text) => text.as_str(),
            None => {
                return found;
            },
        };
        let entities = match &self.entities {
            Some(entities) => entities,
            None => {
                return found;
            },
        };
        let mut i: usize = 0;
        while i < entities.len()
            invariant
                i <= entities.len(),
                found@.map_values(|o: Result<Command<'a>, ExtractError>| outcome_parts(o))
                    == extracted(text@, entities@.take(i as int)),
            decreases entities.len() - i,
        {
            let entity = &entities[i];
            let ghost before = found@;
            proof {
                lemma_extracted_push(text@, entities@.take(i as int), *entity);
                assert(entities@.take(i as int).push(*entity) =~= entities@.take(i + 1));
            }
            if entity.is_command() {
                let outcome = entity.slice(text);
                found.push(outcome);
                proof {
                    before.lemma_push_map_commute(
                        |o: Result<Command<'a>, ExtractError>| outcome_parts(o),
                        outcome,
                    );
                }
            }
            i = i + 1;
        }
        proof {
            assert(entities@.take(i as int) =~= entities@);
        }
        found
    }
}

} // verus!
