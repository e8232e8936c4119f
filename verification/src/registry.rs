//! The table of command handlers.
//!
//! A registry maps a command name to the handler registered under it. A name
//! occurs at most once: registering a name again replaces the handler that was
//! there. The registry is generic in the handler, which it stores and hands
//! back without looking inside.

use crate::text::text_eq;
use vstd::prelude::*;

verus! {

/// A command name with the handler registered under it.
struct Entry<H> {
    name: String,
    handler: H,
}

/// Index `i` of `entries` holds the entry named `name`.
spec fn holds_at<H>(entries: Seq<Entry<H>>, i: int, name: Seq<char>) -> bool {
    0 <= i < entries.len() && entries[i].name@ == name
}

/// No two entries share a name.
spec fn names_unique<H>(entries: Seq<Entry<H>>) -> bool {
    forall|i: int, j: int|
        0 <= i < j < entries.len() ==> #[trigger] entries[i].name@ != #[trigger] entries[j].name@
}

/// The mapping from names to handlers that `entries` stands for.
spec fn table_of<H>(entries: Seq<Entry<H>>) -> Map<Seq<char>, H> {
    Map::new(
        |name: Seq<char>| exists|i: int| holds_at(entries, i, name),
        |name: Seq<char>| entries[choose|i: int| holds_at(entries, i, name)].handler,
    )
}

/// The mapping from command names to handlers.
pub struct CommandRegistry<H> {
    entries: Vec<Entry<H>>,
}

impl<H> View for CommandRegistry<H> {
    type V = Map<Seq<char>, H>;

    closed spec fn view(&self) -> Map<Seq<char>, H> {
        table_of(self.entries@)
    }
}

impl<H> CommandRegistry<H> {
    #[verifier::type_invariant]
    spec fn well_formed(self) -> bool {
        names_unique(self.entries@)
    }

    /// A registry with no command in it.
    pub fn new() -> (registry: Self)
        ensures
            registry@ == Map::<Seq<char>, H>::empty(),
    {
        let registry = CommandRegistry { entries: Vec::new() };
        assert(registry@ =~= Map::<Seq<char>, H>::empty());
        registry
    }

    /// Where the entry named `name` stands, if there is one.
    fn position(&self, name: &str) -> (found: Option<usize>)
        ensures
            match found {
                Some(i) => holds_at(self.entries@, i as int, name@),
                None => forall|i: int| !holds_at(self.entries@, i, name@),
            },
    {
        let mut i: usize = 0;
        while i < self.entries.len()
            invariant
                i <= self.entries.len(),
                forall|j: int| 0 <= j < i ==> !holds_at(self.entries@, j, name@),
            decreases self.entries.len() - i,
        {
            if text_eq(self.entries[i].name.as_str(), name) {
                return Some(i);
            }
            i = i + 1;
        }
        None
    }

    /// Associates `handler` with `name`. A handler registered under the same
    /// name before is replaced; every other association stays.
    pub fn register(&mut self, name: String, handler: H)
        ensures
            final(self)@ == old(self)@.insert(name@, handler),
    {
        proof {
            use_type_invariant(&*self);
        }
        let found = self.position(name.as_str());
        let mut entries = Vec::new();
        std::mem::swap(&mut entries, &mut self.entries);
        let ghost before = entries@;
        match found {
            Some(i) => {
                entries.set(i, Entry { name, handler });
                proof {
                    lemma_replace(before, i as int, entries@[i as int]);
                }
            },
            None => {
                entries.push(Entry { name, handler });
                proof {
                    lemma_append(before, entries@[before.len() as int]);
                }
            },
        }
        self.entries = entries;
    }

    /// The handler registered under `name`, or nothing where the name is not
    /// registered.
    pub fn lookup(&self, name: &str) -> (found: Option<&H>)
        ensures
            match found {
                Some(handler) => self@.contains_key(name@) && *handler == self@[name@],
                None => !self@.contains_key(name@),
            },
    {
        proof {
            use_type_invariant(self);
        }
        match self.position(name) {
            Some(i) => {
                proof {
                    lemma_unique_index(self.entries@, i as int, name@);
                }
                Some(&self.entries[i].handler)
            },
            None => None,
        }
    }

    /// How many commands are registered.
    pub fn len(&self) -> (count: usize)
        ensures
            count == self@.len(),
            self@.dom().finite(),
    {
        proof {
            use_type_invariant(self);
            lemma_table_len(self.entries@);
        }
        self.entries.len()
    }
}

/// With unique names, the index that holds a name is the one that the table
/// reads its handler from.
proof fn lemma_unique_index<H>(entries: Seq<Entry<H>>, i: int, name: Seq<char>)
    requires
        names_unique(entries),
        holds_at(entries, i, name),
    ensures
        table_of(entries).contains_key(name),
        table_of(entries)[name] == entries[i].handler,
{
    let k = choose|k: int| holds_at(entries, k, name);
    assert(k == i) by {
        if k < i {
            assert(entries[k].name@ != entries[i].name@);
        } else if i < k {
            assert(entries[i].name@ != entries[k].name@);
        }
    }
}

/// Replacing the entry of a name by another of the same name maps the name to
/// the new handler and keeps the names unique.
proof fn lemma_replace<H>(entries: Seq<Entry<H>>, i: int, entry: Entry<H>)
    requires
        names_unique(entries),
        holds_at(entries, i, entry.name@),
    ensures
        names_unique(entries.update(i, entry)),
        table_of(entries.update(i, entry)) == table_of(entries).insert(entry.name@, entry.handler),
{
    let after = entries.update(i, entry);
    assert(names_unique(after)) by {
        assert forall|a: int, b: int| 0 <= a < b < after.len() implies #[trigger] after[a].name@
            != #[trigger] after[b].name@ by {
            assert(after[a].name@ == entries[a].name@);
            assert(after[b].name@ == entries[b].name@);
        }
    }
    let expected = table_of(entries).insert(entry.name@, entry.handler);
    assert forall|name: Seq<char>| #[trigger]
        table_of(after).contains_key(name) == expected.contains_key(name) by {
        if table_of(after).contains_key(name) {
            let k = choose|k: int| holds_at(after, k, name);
            assert(holds_at(entries, k, name));
        }
        if table_of(entries).contains_key(name) {
            let k = choose|k: int| holds_at(entries, k, name);
            assert(holds_at(after, k, name));
        }
        if name == entry.name@ {
            assert(holds_at(after, i, name));
        }
    }
    assert forall|name: Seq<char>| table_of(after).contains_key(name) implies #[trigger]
        table_of(after)[name] == expected[name] by {
        let k = choose|k: int| holds_at(after, k, name);
        lemma_unique_index(after, k, name);
        if name != entry.name@ {
            assert(holds_at(entries, k, name));
            lemma_unique_index(entries, k, name);
        } else {
            assert(holds_at(after, i, name));
            lemma_unique_index(after, i, name);
        }
    }
    assert(table_of(after) =~= expected);
}

/// Appending an entry under a name that is not there yet maps the name to its
/// handler and keeps the names unique.
proof fn lemma_append<H>(entries: Seq<Entry<H>>, entry: Entry<H>)
    requires
        names_unique(entries),
        forall|i: int| !holds_at(entries, i, entry.name@),
    ensures
        names_unique(entries.push(entry)),
        table_of(entries.push(entry)) == table_of(entries).insert(entry.name@, entry.handler),
{
    let after = entries.push(entry);
    let last = entries.len() as int;
    assert(names_unique(after)) by {
        assert forall|a: int, b: int| 0 <= a < b < after.len() implies #[trigger] after[a].name@
            != #[trigger] after[b].name@ by {
            if b == last {
                assert(!holds_at(entries, a, entry.name@));
            }
        }
    }
    let expected = table_of(entries).insert(entry.name@, entry.handler);
    assert forall|name: Seq<char>| #[trigger]
        table_of(after).contains_key(name) == expected.contains_key(name) by {
        if table_of(after).contains_key(name) {
            let k = choose|k: int| holds_at(after, k, name);
            if k != last {
                assert(holds_at(entries, k, name));
            }
        }
        if table_of(entries).contains_key(name) {
            let k = choose|k: int| holds_at(entries, k, name);
            assert(holds_at(after, k, name));
        }
        if name == entry.name@ {
            assert(holds_at(after, last, name));
        }
    }
    assert forall|name: Seq<char>| table_of(after).contains_key(name) implies #[trigger]
        table_of(after)[name] == expected[name] by {
        let k = choose|k: int| holds_at(after, k, name);
        lemma_unique_index(after, k, name);
        if k != last {
            assert(holds_at(entries, k, name));
            lemma_unique_index(entries, k, name);
        }
    }
    assert(table_of(after) =~= expected);
}

/// With unique names, the table has as many names as there are entries.
proof fn lemma_table_len<H>(entries: Seq<Entry<H>>)
    requires
        names_unique(entries),
    ensures
        table_of(entries).dom().finite(),
        table_of(entries).len() == entries.len(),
    decreases entries.len(),
{
    if entries.len() == 0 {
        assert(table_of(entries) =~= Map::<Seq<char>, H>::empty());
    } else {
        let front = entries.drop_last();
        let entry = entries.last();
        assert(names_unique(front)) by {
            assert forall|a: int, b: int| 0 <= a < b < front.len() implies #[trigger] front[a].name@
                != #[trigger] front[b].name@ by {
                assert(front[a].name@ == entries[a].name@);
                assert(front[b].name@ == entries[b].name@);
            }
        }
        assert forall|i: int| !holds_at(front, i, entry.name@) by {
            if 0 <= i < front.len() {
                assert(entries[i].name@ != entries[entries.len() - 1].name@);
            }
        }
        lemma_table_len(front);
        lemma_append(front, entry);
        assert(front.push(entry) =~= entries);
        assert(!table_of(front).contains_key(entry.name@)) by {
            if table_of(front).contains_key(entry.name@) {
                let k = choose|k: int| holds_at(front, k, entry.name@);
                assert(holds_at(front, k, entry.name@));
            }
        }
    }
}

} // verus!
