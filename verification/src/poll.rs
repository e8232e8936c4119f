//! The polling loop and its cursor.
//!
//! The loop asks the update source for the updates from its cursor on, hands
//! what comes back to the executor, moves the cursor past the updates seen,
//! and pauses. Asking and pausing are the caller's part: this module decides
//! what to ask for, what a fetched batch does to the cursor, and what to do
//! after a failed fetch. The cursor never moves backwards, so no request ever
//! starts below an update that an earlier request had moved the cursor past.

use crate::entity::Update;
use crate::executor::{all_called, CommandExecutor};
use vstd::prelude::*;
use vstd::string::*;

verus! {

/// The pause between two requests, in seconds.
pub const POLL_INTERVAL_SECONDS: u64 = 3;

/// The kinds of event that a request can ask for.
#[derive(Clone, Copy, Debug, PartialEq, Eq, Structural)]
pub enum UpdateKind {
    /// A new inbound message.
    Message,
}

/// What to ask of the update source.
#[derive(Clone, Debug)]
pub struct FetchRequest {
    /// The first update identifier wanted; absent to start where the platform
    /// starts by default.
    pub offset: Option<u64>,
    /// The kinds of event wanted.
    pub allowed_kinds: Vec<UpdateKind>,
}

/// What came back from the update source.
#[derive(Clone, Debug)]
pub enum Fetched {
    /// The pending updates, in the order received.
    Updates(Vec<Update>),
    /// The request failed; the text describes why.
    Failed(String),
}

/// What to do before the next request.
#[derive(Clone, Debug)]
pub struct Pause {
    /// A line for the operator's diagnostic stream, where there is one.
    pub report: Option<String>,
    /// How long to wait, in seconds.
    pub seconds: u64,
}

/// One cursor is not ahead of another. An unset cursor is ahead of none.
pub open spec fn cursor_le(a: Option<u64>, b: Option<u64>) -> bool {
    match a {
        None => true,
        Some(x) => b matches Some(y) && x <= y,
    }
}

/// The highest identifier among `updates`, or -1 where there are none.
pub open spec fn highest_id(updates: Seq<Update>) -> int
    decreases updates.len(),
{
    if updates.len() == 0 {
        -1
    } else {
        let rest = highest_id(updates.drop_last());
        if updates.last().update_id > rest {
            updates.last().update_id as int
        } else {
            rest
        }
    }
}

/// The cursor that a batch asks for: one past its highest identifier. An
/// empty batch asks for none.
pub open spec fn pending_cursor(updates: Seq<Update>) -> Option<u64> {
    if updates.len() == 0 {
        None
    } else {
        Some((highest_id(updates) + 1) as u64)
    }
}

/// The cursor after a batch was processed: the cursor that the batch asks
/// for, unless the cursor is ahead of it already or the batch is empty.
pub open spec fn advanced(cursor: Option<u64>, updates: Seq<Update>) -> Option<u64> {
    match (cursor, pending_cursor(updates)) {
        (_, None) => cursor,
        (None, Some(pending)) => Some(pending),
        (Some(current), Some(pending)) => Some(if current < pending {
            pending
        } else {
            current
        }),
    }
}

/// The cursor after one answer of the update source: a failed request leaves
/// it as it was, a batch advances it.
pub open spec fn after_fetch(cursor: Option<u64>, batch: Option<Seq<Update>>) -> Option<u64> {
    match batch {
        Some(updates) => advanced(cursor, updates),
        None => cursor,
    }
}

/// The cursor after a run of answers of the update source, starting from
/// `cursor`.
pub open spec fn after_run(cursor: Option<u64>, answers: Seq<Option<Seq<Update>>>) -> Option<u64>
    decreases answers.len(),
{
    if answers.len() == 0 {
        cursor
    } else {
        after_fetch(after_run(cursor, answers.drop_last()), answers.last())
    }
}

/// The highest identifier of a batch is the identifier of one of its updates,
/// and none is higher.
pub proof fn lemma_highest_id(updates: Seq<Update>)
    ensures
        forall|i: int| 0 <= i < updates.len() ==> updates[i].update_id <= highest_id(updates),
        updates.len() > 0 ==> exists|i: int|
            0 <= i < updates.len() && updates[i].update_id == highest_id(updates),
        updates.len() == 0 ==> highest_id(updates) == -1,
        -1 <= highest_id(updates) <= u32::MAX,
    decreases updates.len(),
{
    if updates.len() > 0 {
        let rest = updates.drop_last();
        lemma_highest_id(rest);
        let last = updates.len() - 1;
        assert forall|i: int| 0 <= i < updates.len() implies updates[i].update_id <= highest_id(
            updates,
        ) by {
            if i < last {
                assert(rest[i] == updates[i]);
            }
        }
        if updates.last().update_id > highest_id(rest) {
            assert(updates[last].update_id == highest_id(updates));
        } else {
            let i = choose|i: int| 0 <= i < rest.len() && rest[i].update_id == highest_id(rest);
            assert(updates[i].update_id == highest_id(updates));
        }
    }
}

/// No answer of the update source moves the cursor backwards.
pub proof fn lemma_fetch_keeps_order(cursor: Option<u64>, batch: Option<Seq<Update>>)
    ensures
        cursor_le(cursor, after_fetch(cursor, batch)),
{
}

/// After a batch that is not empty the cursor stands one past the highest
/// identifier of the batch, provided it was not further ahead before.
pub proof fn lemma_advanced_past_batch(cursor: Option<u64>, updates: Seq<Update>)
    requires
        updates.len() > 0,
        cursor matches Some(c) ==> c <= highest_id(updates) + 1,
    ensures
        advanced(cursor, updates) == Some((highest_id(updates) + 1) as u64),
        advanced(cursor, updates)->0 == highest_id(updates) + 1,
{
    lemma_highest_id(updates);
}

/// After a batch the cursor stands past every update of the batch, so that
/// the next request, which starts at the cursor, asks for none of them again.
pub proof fn lemma_cursor_past_batch(cursor: Option<u64>, updates: Seq<Update>, i: int)
    requires
        0 <= i < updates.len(),
    ensures
        advanced(cursor, updates) matches Some(next) && updates[i].update_id < next,
{
    lemma_highest_id(updates);
}

/// Over any run of answers, failed requests among them, the cursor after more
/// answers is not behind the cursor after fewer.
pub proof fn lemma_run_keeps_order(
    cursor: Option<u64>,
    answers: Seq<Option<Seq<Update>>>,
    i: int,
    j: int,
)
    requires
        0 <= i <= j <= answers.len(),
    ensures
        cursor_le(after_run(cursor, answers.take(i)), after_run(cursor, answers.take(j))),
    decreases j - i,
{
    if i < j {
        lemma_run_keeps_order(cursor, answers, i, j - 1);
        assert(answers.take(j).drop_last() =~= answers.take(j - 1));
        lemma_fetch_keeps_order(after_run(cursor, answers.take(j - 1)), answers.take(j).last());
    }
}

/// Once the cursor stands at `c`, every later request starts at `c` or above:
/// no request is issued below a cursor that was reached before.
pub proof fn lemma_no_request_below_cursor(
    cursor: Option<u64>,
    answers: Seq<Option<Seq<Update>>>,
    i: int,
    j: int,
    c: u64,
)
    requires
        0 <= i <= j <= answers.len(),
        after_run(cursor, answers.take(i)) == Some(c),
    ensures
        after_run(cursor, answers.take(j)) matches Some(later) && c <= later,
{
    lemma_run_keeps_order(cursor, answers, i, j);
}

/// Processes one batch of updates in the order received: for each update the
/// handlers of its commands are called. An update without message, text or
/// entities, an entity with an invalid span and a command without a handler
/// are passed over and stop nothing. Gives the cursor that the batch asks for:
/// one past the highest identifier seen, or none where the batch is empty.
/// Every update counts for the cursor, whether or not it held a command.
pub fn handle_updates<H>(
    updates: &Vec<Update>,
    executor: &CommandExecutor<H>,
) -> (pending: Option<u64>) where H: Fn(&Update, &str, &str)
    requires
        executor.handlers_accept_all(),
    ensures
        pending == pending_cursor(updates@),
        forall|k: int| 0 <= k < updates.len() ==> all_called(executor@, #[trigger] &updates@[k]),
{
    let mut pending: Option<u64> = None;
    let mut i: usize = 0;
    while i < updates.len()
        invariant
            i <= updates.len(),
            executor.handlers_accept_all(),
            pending == pending_cursor(updates@.take(i as int)),
            forall|k: int| 0 <= k < i ==> all_called(executor@, #[trigger] &updates@[k]),
        decreases updates.len() - i,
    {
        let update = &updates[i];
        executor.execute_update(update);
        let next: u64 = update.update_id as u64 + 1;
        proof {
            assert(updates@.take(i + 1).drop_last() =~= updates@.take(i as int));
            assert(updates@.take(i + 1).last() == *update);
            lemma_highest_id(updates@.take(i as int));
        }
        pending = match pending {
            Some(seen) if seen >= next => Some(seen),
            _ => Some(next),
        };
        i = i + 1;
    }
    proof {
        assert(updates@.take(i as int) =~= updates@);
    }
    pending
}

impl Fetched {
    /// The batch that came back, or nothing where the request failed.
    pub open spec fn batch(self) -> Option<Seq<Update>> {
        match self {
            Fetched::Updates(updates) => Some(updates@),
            Fetched::Failed(_) => None,
        }
    }
}

/// The state of the polling loop: the next update identifier not yet fetched.
pub struct PollLoop {
    cursor: Option<u64>,
}

impl PollLoop {
    #[verifier::type_invariant]
    spec fn well_formed(self) -> bool {
        self.cursor matches Some(c) ==> c <= u32::MAX + 1
    }

    /// The cursor as a plain value.
    pub closed spec fn spec_cursor(&self) -> Option<u64> {
        self.cursor
    }

    /// A loop that has fetched nothing yet: its cursor is unset.
    pub fn new() -> (state: Self)
        ensures
            state.spec_cursor() is None,
    {
        PollLoop { cursor: None }
    }

    /// The next update identifier not yet fetched; unset before the first
    /// update was seen. It is at most one past the highest identifier that an
    /// update can have.
    #[verifier::when_used_as_spec(spec_cursor)]
    pub fn cursor(&self) -> (cursor: Option<u64>)
        ensures
            cursor == self.spec_cursor(),
            cursor matches Some(c) ==> c <= u32::MAX + 1,
    {
        proof {
            use_type_invariant(self);
        }
        self.cursor
    }

    /// The request to make next: for messages only, from the cursor on.
    pub fn request(&self) -> (request: FetchRequest)
        ensures
            request.offset == self.spec_cursor(),
            request.allowed_kinds@ == seq![UpdateKind::Message],
    {
        let mut allowed_kinds = Vec::new();
        allowed_kinds.push(UpdateKind::Message);
        FetchRequest { offset: self.cursor, allowed_kinds }
    }

    /// Takes in what came back from the update source and says how to go on.
    ///
    /// A batch is processed whole as `handle_updates` does, and the cursor then
    /// advances to one past the highest identifier of the batch, unless it is
    /// there or further already; an empty batch leaves it as it was. A failed
    /// request leaves the cursor as it was, so that the next request asks for
    /// the same updates again, and its description is handed back as a line to
    /// report. Either way the loop pauses for the fixed interval.
    pub fn step<H>(
        &mut self,
        fetched: Fetched,
        executor: &CommandExecutor<H>,
    ) -> (pause: Pause) where H: Fn(&Update, &str, &str)
        requires
            executor.handlers_accept_all(),
        ensures
            final(self).spec_cursor() == after_fetch(old(self).spec_cursor(), fetched.batch()),
            pause.seconds == POLL_INTERVAL_SECONDS,
            match fetched {
                Fetched::Updates(updates) => pause.report is None && forall|k: int|
                    0 <= k < updates.len() ==> all_called(executor@, #[trigger] &updates@[k]),
                Fetched::Failed(description) => pause.report matches Some(line) && line@
                    == "Error: "@ + description@,
            },
    {
        proof {
            use_type_invariant(&*self);
        }
        match fetched {
            Fetched::Updates(updates) => {
                let pending = handle_updates(&updates, executor);
                proof {
                    lemma_highest_id(updates@);
                }
                match (self.cursor, pending) {
                    (Some(current), Some(next)) => {
                        if current < next {
                            self.cursor = Some(next);
                        }
                    },
                    (None, Some(next)) => {
                        self.cursor = Some(next);
                    },
                    (_, None) => {},
                }
                Pause { report: None, seconds: POLL_INTERVAL_SECONDS }
            },
            Fetched::Failed(description) => {
                let line = String::from_str("Error: ").concat(description.as_str());
                Pause { report: Some(line), seconds: POLL_INTERVAL_SECONDS }
            },
        }
    }
}

} // verus!
