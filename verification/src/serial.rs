//! Serial monitor writer.
//!
//! Text output over a serial port: one byte per character, each character
//! truncated to its low byte, written to the port the writer was created
//! for. The port I/O instruction itself is hardware work outside this
//! crate; the writer owns the port number and prepares exactly the bytes
//! the port receives.

use vstd::prelude::*;
use vstd::string::StrSliceExecFns;

verus! {

/// The byte the serial monitor emits for one character: the character cast
/// down to a byte. For any character whose code point fits in a byte —
/// ASCII and the rest of Latin-1 — this is exactly the code point.
pub open spec fn char_byte(c: char) -> u8 {
    c as u8
}

pub struct SerialMonitorWriter {
    port: u16,
}

impl SerialMonitorWriter {
    /// The I/O port this writer emits to.
    pub closed spec fn spec_port(self) -> u16 {
        self.port
    }

    /// A writer for the serial monitor behind the given I/O port.
    pub fn new(port: u16) -> (w: SerialMonitorWriter)
        ensures
            w.spec_port() == port,
    {
        SerialMonitorWriter { port }
    }

    /// The port number, for the hardware layer that performs the writes.
    pub fn port(&self) -> (p: u16)
        ensures
            p == self.spec_port(),
    {
        self.port
    }

    /// The exact byte sequence the monitor emits for a piece of text: one
    /// byte per character, in order, each truncated to its low byte.
    pub fn encode_str(&self, s: &str) -> (bytes: Vec<u8>)
        ensures
            bytes@.len() == s@.len(),
            forall|i: int| 0 <= i < s@.len() ==> bytes@[i] == char_byte(s@[i]),
            forall|i: int|
                0 <= i < s@.len() && (s@[i] as int) < 256 ==> bytes@[i] as int == s@[i] as int,
    {
        let len = s.unicode_len();
        let mut bytes: Vec<u8> = Vec::new();
        let mut i: usize = 0;
        while i < len
            invariant
                len == s@.len(),
                0 <= i <= len,
                bytes@.len() == i,
                forall|j: int| 0 <= j < i ==> bytes@[j] == char_byte(s@[j]),
                forall|j: int|
                    0 <= j < i && (s@[j] as int) < 256 ==> bytes@[j] as int == s@[j] as int,
            decreases len - i,
        {
            let c = s.get_char(i);
            bytes.push(#[verifier::truncate] (c as u8));
            i = i + 1;
        }
        bytes
    }
}

} // verus!
