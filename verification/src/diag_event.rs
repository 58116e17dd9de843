//! The file of diagnostic events: its name, its lines and their numbers.
use vstd::prelude::*;

use crate::text::{decimal, push_decimal};

verus! {

/// What the names of event files start with.
pub const DIAG_EVENT_FILE_PREFIX: &'static str = "emulebb-rust-diag-";

/// The schema that every event names.
pub const DIAG_EVENT_SCHEMA: &'static str = "diag_event_v1";

/// The client that every event names.
pub const DIAG_EVENT_CLIENT: &'static str = "rust";

/// The name of the event file of a process.
pub fn diag_event_file_name(process_id: u32) -> (r: String)
    ensures
        r@ == DIAG_EVENT_FILE_PREFIX@ + decimal(process_id as nat) + ".jsonl"@,
{
    let mut name: String = DIAG_EVENT_FILE_PREFIX.to_owned();
    push_decimal(&mut name, process_id as u64);
    name.append(".jsonl");
    name
}

/// The line of an event: its JSON text, which holds no line break, and a line
/// break.
pub fn encode_record_line(json: Vec<u8>) -> (r: Vec<u8>)
    ensures
        r@ == json@.push(0x0A),
{
    let mut line: Vec<u8> = json;
    line.push(0x0A);
    line
}

/// Numbers events, from one on.
#[derive(Debug)]
pub struct DiagSequence {
    pub next: u64,
}

impl DiagSequence {
    /// No event is numbered yet.
    pub fn new() -> (r: Self)
        ensures
            r.next == 1,
    {
        DiagSequence { next: 1 }
    }

    /// The number of the next event.
    pub fn next_seq(&mut self) -> (r: u64)
        ensures
            r == old(self).next,
            final(self).next == old(self).next.wrapping_add(1),
    {
        let r: u64 = self.next;
        self.next = self.next.wrapping_add(1);
        r
    }
}

} // verus!
