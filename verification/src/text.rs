//! Texts as sequences of characters: their equality, and positions inside
//! them counted in UTF-16 code units.
//!
//! The platform reports entity spans in UTF-16 code units: a character of the
//! Basic Multilingual Plane counts one unit, any other character two. A Rust
//! string is a sequence of characters, so a position given in units has to be
//! turned into a character index before the text is sliced. A position that
//! falls between the two units of one character has no character index.

use vstd::prelude::*;
use vstd::std_specs::iter::IteratorSpec;

verus! {

/// Whether two texts hold the same characters.
pub fn text_eq(a: &str, b: &str) -> (same: bool)
    ensures
        same == (a@ == b@),
{
    broadcast use vstd::string::group_string_axioms;

    let mut xs = a.chars();
    let mut ys = b.chars();
    let ghost mut i: int = 0;
    loop
        invariant
            0 <= i <= a@.len(),
            i <= b@.len(),
            xs.remaining() == a@.skip(i),
            ys.remaining() == b@.skip(i),
            a@.take(i) == b@.take(i),
        decreases a@.len() - i,
    {
        let x = xs.next();
        let y = ys.next();
        match (x, y) {
            (None, None) => {
                proof {
                    assert(a@.skip(i).len() == 0 && b@.skip(i).len() == 0);
                    assert(a@.take(i) =~= a@ && b@.take(i) =~= b@);
                }
                return true;
            },
            (Some(c), Some(d)) => {
                proof {
                    assert(c == a@[i] && d == b@[i]);
                }
                if c != d {
                    return false;
                }
                proof {
                    assert(a@.take(i + 1) =~= a@.take(i).push(c));
                    assert(b@.take(i + 1) =~= b@.take(i).push(d));
                    assert(xs.remaining() == a@.skip(i + 1));
                    assert(ys.remaining() == b@.skip(i + 1));
                    i = i + 1;
                }
            },
            _ => {
                proof {
                    assert(a@.skip(i).len() != b@.skip(i).len());
                }
                return false;
            },
        }
    }
}

/// The number of UTF-16 code units that encode `c`.
pub open spec fn unit_width(c: char) -> nat {
    if (c as u32) < 0x1_0000 {
        1
    } else {
        2
    }
}

/// The number of UTF-16 code units that encode `s`.
pub open spec fn unit_len(s: Seq<char>) -> nat
    decreases s.len(),
{
    if s.len() == 0 {
        0
    } else {
        unit_len(s.drop_last()) + unit_width(s.last())
    }
}

/// Character index `i` of `s` is where exactly `units` code units have gone by.
pub open spec fn is_boundary(s: Seq<char>, i: int, units: nat) -> bool {
    0 <= i <= s.len() && unit_len(s.take(i)) == units
}

/// The character index of `s` at which exactly `units` code units have gone
/// by, if there is one.
pub open spec fn boundary_index(s: Seq<char>, units: nat) -> Option<int> {
    if exists|i: int| is_boundary(s, i, units) {
        Some(choose|i: int| is_boundary(s, i, units))
    } else {
        None
    }
}

/// Taking one more character adds that character's width.
pub proof fn lemma_unit_len_step(s: Seq<char>, i: int)
    requires
        0 <= i < s.len(),
    ensures
        unit_len(s.take(i + 1)) == unit_len(s.take(i)) + unit_width(s[i]),
{
    assert(s.take(i + 1).drop_last() =~= s.take(i));
    assert(s.take(i + 1).last() == s[i]);
}

/// The units before a character index grow strictly with the index.
pub proof fn lemma_unit_len_strictly_monotonic(s: Seq<char>, i: int, j: int)
    requires
        0 <= i < j <= s.len(),
    ensures
        unit_len(s.take(i)) < unit_len(s.take(j)),
    decreases j - i,
{
    lemma_unit_len_step(s, j - 1);
    if i < j - 1 {
        lemma_unit_len_strictly_monotonic(s, i, j - 1);
    }
}

/// At most one character index lies at a given number of units.
pub proof fn lemma_boundary_unique(s: Seq<char>, i: int, j: int, units: nat)
    requires
        is_boundary(s, i, units),
        is_boundary(s, j, units),
    ensures
        i == j,
{
    if i < j {
        lemma_unit_len_strictly_monotonic(s, i, j);
    } else if j < i {
        lemma_unit_len_strictly_monotonic(s, j, i);
    }
}

/// A character index that lies at `units` is the one that `boundary_index`
/// names.
pub proof fn lemma_boundary_index(s: Seq<char>, i: int, units: nat)
    requires
        is_boundary(s, i, units),
    ensures
        boundary_index(s, units) == Some(i),
{
    let k = choose|k: int| is_boundary(s, k, units);
    lemma_boundary_unique(s, i, k, units);
}

/// The units of a concatenation are the units of its parts.
pub proof fn lemma_unit_len_concat(a: Seq<char>, b: Seq<char>)
    ensures
        unit_len(a + b) == unit_len(a) + unit_len(b),
    decreases b.len(),
{
    if b.len() == 0 {
        assert(a + b =~= a);
    } else {
        assert((a + b).drop_last() =~= a + b.drop_last());
        assert((a + b).last() == b.last());
        lemma_unit_len_concat(a, b.drop_last());
    }
}

/// The number of UTF-16 code units that encode `c`.
pub fn char_units(c: char) -> (w: u64)
    ensures
        w == unit_width(c),
{
    if (c as u32) < 0x1_0000 {
        1
    } else {
        2
    }
}

/// Finds the character index of `text` at which exactly `units` code units
/// have gone by. There is none where `units` exceeds the length of the text or
/// falls between the two units of one character.
pub fn find_boundary(text: &str, units: u64) -> (found: Option<usize>)
    ensures
        found is Some <==> boundary_index(text@, units as nat) is Some,
        found matches Some(i) ==> boundary_index(text@, units as nat) == Some(i as int),
{
    broadcast use vstd::string::group_string_axioms;

    let n = text.unicode_len();
    let mut chars = text.chars();
    let mut i: usize = 0;
    let mut seen: u64 = 0;
    while seen < units
        invariant
            n == text@.len(),
            i <= n,
            seen == unit_len(text@.take(i as int)),
            seen <= units,
            chars.remaining() == text@.skip(i as int),
        decreases n - i,
    {
        match chars.next() {
            None => {
                proof {
                    assert(text@.skip(i as int).len() == 0);
                    assert(text@.take(i as int) =~= text@);
                    lemma_no_boundary_past_end(text@, units as nat);
                }
                return None;
            },
            Some(c) => {
                let width = char_units(c);
                proof {
                    assert(c == text@[i as int]);
                    lemma_unit_len_step(text@, i as int);
                }
                if width > units - seen {
                    proof {
                        lemma_no_boundary_inside(text@, i as int, units as nat);
                    }
                    return None;
                }
                assert(chars.remaining() == text@.skip(i as int + 1));
                seen = seen + width;
                i = i + 1;
            },
        }
    }
    proof {
        lemma_boundary_index(text@, i as int, units as nat);
    }
    Some(i)
}

/// No character index lies at more units than the whole text has.
proof fn lemma_no_boundary_past_end(s: Seq<char>, units: nat)
    requires
        unit_len(s) < units,
    ensures
        boundary_index(s, units) is None,
{
    assert forall|k: int| !is_boundary(s, k, units) by {
        if 0 <= k < s.len() {
            lemma_unit_len_strictly_monotonic(s, k, s.len() as int);
        }
        assert(s.take(s.len() as int) =~= s);
    }
}

/// No character index lies strictly between the start and the end of the
/// character at index `i`.
proof fn lemma_no_boundary_inside(s: Seq<char>, i: int, units: nat)
    requires
        0 <= i < s.len(),
        unit_len(s.take(i)) < units < unit_len(s.take(i + 1)),
    ensures
        boundary_index(s, units) is None,
{
    assert forall|k: int| !is_boundary(s, k, units) by {
        if 0 <= k < i {
            lemma_unit_len_strictly_monotonic(s, k, i);
        } else if i + 1 < k <= s.len() {
            lemma_unit_len_strictly_monotonic(s, i + 1, k);
        }
    }
}

} // verus!
