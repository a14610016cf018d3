//! The sequence allocator: it hands out task identifiers from a counter that
//! is persisted as text, the highest identifier issued so far.

use crate::text::{
    chars_of, decimal, decimal_text, lemma_decimal_digits, lemma_parse_decimal_round_trip,
    parse_decimal, parse_unsigned, trim_bounds, trimmed,
};
use vstd::prelude::*;

verus! {

/// The highest identifier issued so far, as the stored text tells it. The
/// text is trimmed and read as a decimal number; text that is empty or is no
/// such number counts as zero.
pub open spec fn counter_value(text: Seq<char>) -> nat {
    match parse_unsigned(trimmed(text)) {
        Some(v) => v as nat,
        None => 0,
    }
}

/// Whether a stored text is garbled: it is not blank, yet it is no number. A
/// garbled counter counts as zero, which is worth a warning.
pub open spec fn is_garbled(text: Seq<char>) -> bool {
    trimmed(text).len() > 0 && parse_unsigned(trimmed(text)) is None
}

/// The text that an allocation works from: what is stored, or the numeral of
/// zero when nothing is stored yet.
pub open spec fn stored_text(stored: Option<&str>) -> Seq<char> {
    match stored {
        Some(text) => text@,
        None => decimal(0),
    }
}

/// The identifier that an allocation issues from a counter stored as `text`:
/// one more than the counter holds.
pub open spec fn next_id(text: Seq<char>) -> nat {
    counter_value(text) + 1
}

/// The counter's text after `calls` allocations in a row that started from
/// `text`, each one persisting the identifier it issued.
pub open spec fn persisted_after(text: Seq<char>, calls: nat) -> Seq<char>
    decreases calls,
{
    if calls == 0 {
        text
    } else {
        decimal(next_id(persisted_after(text, (calls - 1) as nat)))
    }
}

/// One allocation: the identifier issued and what the counter file must hold.
#[derive(Debug, Clone, PartialEq, Eq)]
pub struct Allocation {
    /// The content to create the counter file with before the allocation,
    /// when the file did not exist.
    pub created: Option<String>,
    /// The identifier issued.
    pub id: u32,
    /// The content to overwrite the counter file with.
    pub text: String,
    /// Whether the stored text was garbled and counted as zero.
    pub recovered: bool,
}

/// Reads the stored text: the value it stands for, and whether it was garbled.
fn read_counter(stored: Option<&str>) -> (read: (u32, bool))
    ensures
        read.0 == counter_value(stored_text(stored)),
        read.1 == is_garbled(stored_text(stored)),
{
    match stored {
        None => {
            proof {
                lemma_parse_decimal_round_trip(0);
                lemma_decimal_digits(0);
            }
            (0, false)
        },
        Some(text) => {
            let chars = chars_of(text);
            let (start, end) = trim_bounds(&chars);
            match parse_decimal(&chars, start, end) {
                Some(value) => (value, false),
                None => (0, start < end),
            }
        },
    }
}

/// Reads the counter: the highest identifier issued so far. `stored` is the
/// counter file's content, or `None` when the file does not exist.
pub fn current_id(stored: Option<&str>) -> (value: u32)
    ensures
        value == counter_value(stored_text(stored)),
{
    read_counter(stored).0
}

/// Issues the next identifier: one more than the counter holds. `stored` is
/// the counter file's content, or `None` when the file does not exist; the
/// file is then to be created holding zero before the allocation overwrites it.
///
/// The counter must have an identifier left to issue: `current_id` tells.
pub fn get_next_id(stored: Option<&str>) -> (issued: Allocation)
    requires
        counter_value(stored_text(stored)) < u32::MAX,
    ensures
        issued.id == next_id(stored_text(stored)),
        issued.text@ == decimal(issued.id as nat),
        counter_value(issued.text@) == issued.id,
        stored is None <==> issued.created is Some,
        issued.created matches Some(first) ==> first@ == decimal(0),
        issued.recovered == is_garbled(stored_text(stored)),
{
    let created = match stored {
        None => Some(decimal_text(0)),
        Some(_) => None,
    };
    let (value, recovered) = read_counter(stored);
    let id = value + 1;
    proof {
        lemma_parse_decimal_round_trip(id);
    }
    Allocation { created, id, text: decimal_text(id), recovered }
}

/// What is persisted reads back as the value it was written for.
pub proof fn lemma_counter_round_trip(v: u32)
    ensures
        counter_value(decimal(v as nat)) == v,
{
    lemma_parse_decimal_round_trip(v);
}

/// Identifiers are issued in sequence. When nothing else touches the counter,
/// the `n`-th allocation after the counter held `V` issues `V + n`; from a
/// counter of zero the `n`-th allocation issues `n`.
pub proof fn lemma_nth_allocation(start: Seq<char>, n: nat)
    requires
        1 <= n,
        counter_value(start) + n <= u32::MAX,
    ensures
        next_id(persisted_after(start, (n - 1) as nat)) == counter_value(start) + n,
        counter_value(persisted_after(start, n)) == counter_value(start) + n,
    decreases n,
{
    if n > 1 {
        lemma_nth_allocation(start, (n - 1) as nat);
    }
    lemma_parse_decimal_round_trip((counter_value(start) + n) as u32);
}

} // verus!
