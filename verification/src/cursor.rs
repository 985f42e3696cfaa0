//! The timeline cursor: the text `timestamp:frame_id` that names the last
//! entry of a page, so that the next page starts behind it.

use crate::decimal::{
    decimal_digits, decimal_signed, lemma_decimal_digits, parse_i64, parse_i64_spec, parse_u64,
    parse_u64_spec, push_decimal, push_decimal_signed, strip_plus, strip_sign,
};
use crate::text::{chars_range, str_chars};
use vstd::prelude::*;
use vstd::string::StringExecFns;

verus! {

/// One entry of a timeline page, as a response carries it.
#[derive(Clone, Debug)]
pub struct TimelineEntryOutput {
    pub frame_id: u64,
    pub timestamp: i64,
    pub preview: String,
    pub uri: Option<String>,
    pub child_frames: Vec<u64>,
}

/// What is wrong with a cursor.
#[derive(Clone, Copy, Debug, PartialEq, Eq, Structural)]
pub enum CursorError {
    /// There is no `:` in it.
    Format,
    /// What stands before the first `:` is no signed 64-bit number.
    Timestamp,
    /// What stands behind the first `:` is no unsigned 64-bit number.
    FrameId,
}

/// The message of each cursor error.
pub open spec fn cursor_error_text(e: CursorError) -> Seq<char> {
    match e {
        CursorError::Format => "invalid cursor format"@,
        CursorError::Timestamp => "invalid cursor timestamp"@,
        CursorError::FrameId => "invalid cursor frame_id"@,
    }
}

/// The first `:` of `s` is at `i`.
pub open spec fn first_colon_at(s: Seq<char>, i: int) -> bool {
    &&& 0 <= i < s.len()
    &&& s[i] == ':'
    &&& forall|j: int| 0 <= j < i ==> s[j] != ':'
}

/// `s` holds a `:`.
pub open spec fn has_colon(s: Seq<char>) -> bool {
    exists|i: int| first_colon_at(s, i)
}

/// Where the first `:` of `s` is.
pub open spec fn first_colon(s: Seq<char>) -> int {
    choose|i: int| first_colon_at(s, i)
}

/// What a cursor text denotes: the timestamp before the first `:` and the
/// frame id behind it. The timestamp is read first, so a text without `:`
/// that is no number has a bad timestamp, not a bad format.
pub open spec fn cursor_spec(s: Seq<char>) -> Result<(i64, u64), CursorError> {
    let head = if has_colon(s) {
        s.take(first_colon(s))
    } else {
        s
    };
    match parse_i64_spec(head) {
        None => Err(CursorError::Timestamp),
        Some(ts) => if !has_colon(s) {
            Err(CursorError::Format)
        } else {
            match parse_u64_spec(s.skip(first_colon(s) + 1)) {
                None => Err(CursorError::FrameId),
                Some(id) => Ok((ts, id)),
            }
        },
    }
}

/// The cursor text of the entry with the given timestamp and frame id.
pub open spec fn cursor_text(timestamp: i64, frame_id: u64) -> Seq<char> {
    decimal_signed(timestamp as int) + seq![':'] + decimal_digits(frame_id as nat)
}

/// There is only one first `:`.
pub proof fn lemma_first_colon(s: Seq<char>, i: int)
    requires
        first_colon_at(s, i),
    ensures
        has_colon(s),
        first_colon(s) == i,
{
    let j = first_colon(s);
    assert(first_colon_at(s, j));
    if j < i {
        assert(s[j] != ':');
    } else if i < j {
        assert(s[i] != ':');
    }
}

/// Reading the cursor of an entry gives back its timestamp and frame id.
pub proof fn lemma_cursor_round_trip(timestamp: i64, frame_id: u64)
    ensures
        cursor_spec(cursor_text(timestamp, frame_id)) == Ok::<(i64, u64), CursorError>(
            (timestamp, frame_id),
        ),
{
    let head = decimal_signed(timestamp as int);
    let tail = decimal_digits(frame_id as nat);
    let s = cursor_text(timestamp, frame_id);
    let magnitude: nat = if timestamp < 0 {
        (-timestamp) as nat
    } else {
        timestamp as nat
    };
    lemma_decimal_digits(magnitude);
    lemma_decimal_digits(frame_id as nat);
    let digits = decimal_digits(magnitude);
    assert(strip_sign(head) =~= digits);
    assert forall|j: int| 0 <= j < head.len() implies head[j] != ':' by {
        if timestamp < 0 && j > 0 {
            assert(head[j] == digits[j - 1]);
        }
    }
    let at = head.len() as int;
    assert(first_colon_at(s, at));
    lemma_first_colon(s, at);
    assert(s.take(at) =~= head);
    assert(s.skip(at + 1) =~= tail);
    assert(strip_plus(tail) =~= tail);
}

/// Reads a cursor of the form `timestamp:frame_id`.
pub fn parse_timeline_cursor(cursor: &str) -> (r: Result<(i64, u64), String>)
    ensures
        match cursor_spec(cursor@) {
            Ok(pair) => r == Ok::<(i64, u64), String>(pair),
            Err(e) => r is Err && r->Err_0@ == cursor_error_text(e),
        },
{
    let chars: Vec<char> = str_chars(cursor);
    let mut at: usize = 0;
    while at < chars.len() && chars[at] != ':'
        invariant
            at <= chars.len(),
            forall|j: int| 0 <= j < at ==> chars[j] != ':',
        decreases chars.len() - at,
    {
        at = at + 1;
    }
    let found: bool = at < chars.len();
    proof {
        if found {
            lemma_first_colon(chars@, at as int);
        } else {
            assert forall|i: int| !first_colon_at(chars@, i) by {}
            assert(chars@.subrange(0, at as int) =~= chars@);
        }
    }
    let head: Vec<char> = chars_range(&chars, 0, at);
    let ts: i64 = match parse_i64(&head) {
        Some(ts) => ts,
        None => {
            return Err("invalid cursor timestamp".to_string());
        },
    };
    if !found {
        return Err("invalid cursor format".to_string());
    }
    let tail: Vec<char> = chars_range(&chars, at + 1, chars.len());
    match parse_u64(&tail) {
        Some(frame_id) => Ok((ts, frame_id)),
        None => Err("invalid cursor frame_id".to_string()),
    }
}

/// Writes the cursor that names `entry`.
pub fn timeline_cursor_from_entry(entry: &TimelineEntryOutput) -> (cursor: String)
    ensures
        cursor@ == cursor_text(entry.timestamp, entry.frame_id),
{
    let mut cursor: String = String::new();
    push_decimal_signed(&mut cursor, entry.timestamp);
    proof {
        reveal_strlit(":");
    }
    cursor.append(":");
    push_decimal(&mut cursor, entry.frame_id);
    assert(cursor@ =~= cursor_text(entry.timestamp, entry.frame_id));
    cursor
}

} // verus!
