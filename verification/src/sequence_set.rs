//! Sequence sets: which messages a fetch addresses, and the text that says
//! so to the server.
//!
//! A set is given in one of three ways: as the number of most recent
//! messages, as a range from a first to a last number, or as a list of
//! numbers. A set that is given in none of these ways addresses all
//! messages.

use crate::display::number_texts;
use crate::error::{ApiError, ApiErrorView, ErrorKind};
use crate::number::{decimal_text, push_decimal};
use crate::text::{chars_to_string, join, join_with, lemma_texts_push, push_str, texts};
use vstd::prelude::*;

verus! {

/// A range of numbers, both ends included.
#[derive(Clone, Copy, Debug, PartialEq, Eq, Structural)]
pub struct StartEnd {
    pub start: u32,
    pub end: u32,
}

/// A sequence set.
#[derive(Clone, Debug, PartialEq, Eq)]
pub struct SequenceSet {
    /// The number of most recent messages.
    pub nr_messages: Option<u32>,
    /// A range of numbers.
    pub start_end: Option<StartEnd>,
    /// A list of numbers.
    pub idx: Option<Vec<u32>>,
}

/// The mathematical content of a `SequenceSet`.
pub struct SequenceSetView {
    pub nr_messages: Option<u32>,
    pub start_end: Option<StartEnd>,
    pub idx: Option<Seq<u32>>,
}

impl View for SequenceSet {
    type V = SequenceSetView;

    open spec fn view(&self) -> SequenceSetView {
        SequenceSetView {
            nr_messages: self.nr_messages,
            start_end: self.start_end,
            idx: match self.idx {
                Some(list) => Some(list@),
                None => None,
            },
        }
    }
}

/// Whether the set is given as a list that holds a number.
pub open spec fn has_list(set: SequenceSetView) -> bool {
    set.idx is Some && set.idx->Some_0.len() > 0
}

/// In how many ways the set is given.
pub open spec fn ways(set: SequenceSetView) -> nat {
    (if set.nr_messages is Some {
        1nat
    } else {
        0nat
    }) + (if set.start_end is Some {
        1nat
    } else {
        0nat
    }) + (if has_list(set) {
        1nat
    } else {
        0nat
    })
}

/// The error for a set that is given in more than one way, or as a number
/// of zero messages.
pub open spec fn invalid_set() -> ApiErrorView {
    ApiErrorView { kind: ErrorKind::InvalidArgument, message: "Invalid sequence set"@ }
}

/// The first of the `count` most recent of `exists` messages; the first
/// message where there are no more than `count`.
pub open spec fn first_recent(count: u32, exists: u32) -> u32 {
    if count >= exists {
        1
    } else {
        (exists - count + 1) as u32
    }
}

/// The text of a sequence set for a mailbox that holds `exists` messages.
/// A set that is given in no way is `1:*`; the most recent messages are a
/// range that ends at `*`; a range is its ends with a colon between them; a
/// list is its numbers with commas between them. A set that is given in
/// more than one way has no text, nor has the set of the zero most recent
/// messages.
pub open spec fn set_text(set: SequenceSetView, exists: u32) -> Result<Seq<char>, ApiErrorView> {
    if ways(set) > 1 {
        Err(invalid_set())
    } else if set.nr_messages is Some {
        if set.nr_messages->Some_0 == 0 {
            Err(invalid_set())
        } else {
            Ok(decimal_text(first_recent(set.nr_messages->Some_0, exists) as nat) + ":*"@)
        }
    } else if set.start_end is Some {
        Ok(
            decimal_text(set.start_end->Some_0.start as nat) + ":"@ + decimal_text(
                set.start_end->Some_0.end as nat,
            ),
        )
    } else if has_list(set) {
        Ok(join_with(number_texts(set.idx->Some_0), ','))
    } else {
        Ok("1:*"@)
    }
}

/// The numbers of a list with commas between them.
pub fn number_list(numbers: &Vec<u32>) -> (res: Vec<char>)
    ensures
        res@ == join_with(number_texts(numbers@), ','),
{
    let mut items: Vec<Vec<char>> = Vec::new();
    let mut i: usize = 0;
    assert(texts(items@) =~= number_texts(numbers@).take(0));
    while i < numbers.len()
        invariant
            i <= numbers.len(),
            texts(items@) == number_texts(numbers@).take(i as int),
        decreases numbers.len() - i,
    {
        let mut item: Vec<char> = Vec::new();
        push_decimal(&mut item, numbers[i] as u64);
        assert(item@ =~= decimal_text(numbers@[i as int] as nat));
        proof {
            lemma_texts_push(items@, item);
            assert(number_texts(numbers@).take(i + 1) =~= number_texts(numbers@).take(
                i as int,
            ).push(item@));
        }
        items.push(item);
        i += 1;
    }
    assert(number_texts(numbers@).take(numbers.len() as int) =~= number_texts(numbers@));
    join(&items, ',')
}

/// Writes a sequence set as the server reads it, for a mailbox that holds
/// `exists` messages.
pub fn sequence_set_text(set: &SequenceSet, exists: u32) -> (res: Result<String, ApiError>)
    ensures
        match res {
            Ok(text) => set_text(set@, exists) == Ok::<Seq<char>, ApiErrorView>(text@),
            Err(error) => set_text(set@, exists) == Err::<Seq<char>, ApiErrorView>(error@),
        },
{
    let listed = match &set.idx {
        Some(list) => list.len() > 0,
        None => false,
    };
    let by_count = set.nr_messages.is_some();
    let by_range = set.start_end.is_some();
    if (by_count && by_range) || (by_count && listed) || (by_range && listed) {
        return Err(ApiError::new(ErrorKind::InvalidArgument, "Invalid sequence set"));
    }
    let mut out: Vec<char> = Vec::new();
    match (set.nr_messages, set.start_end, &set.idx) {
        (Some(count), _, _) => {
            if count == 0 {
                return Err(ApiError::new(ErrorKind::InvalidArgument, "Invalid sequence set"));
            }
            let first = if count >= exists {
                1
            } else {
                exists - count + 1
            };
            push_decimal(&mut out, first as u64);
            push_str(&mut out, ":*");
            assert(out@ =~= decimal_text(first as nat) + ":*"@);
        },
        (None, Some(range), _) => {
            push_decimal(&mut out, range.start as u64);
            push_str(&mut out, ":");
            push_decimal(&mut out, range.end as u64);
            assert(out@ =~= decimal_text(range.start as nat) + ":"@ + decimal_text(
                range.end as nat,
            ));
        },
        (None, None, Some(list)) => {
            if list.len() > 0 {
                out = number_list(list);
            } else {
                push_str(&mut out, "1:*");
                assert(out@ =~= "1:*"@);
            }
        },
        (None, None, None) => {
            push_str(&mut out, "1:*");
            assert(out@ =~= "1:*"@);
        },
    }
    Ok(chars_to_string(&out))
}

} // verus!
