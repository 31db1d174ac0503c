//! Byte-stream decoder: turns raw terminal output bytes into display
//! operations. It is a byte-for-byte filter, not an escape-sequence
//! interpreter: line feed, carriage return and backspace map to their
//! operations, printable ASCII maps to `Print`, and every other byte is
//! dropped.

use vstd::prelude::*;

verus! {

/// One atomic edit instruction for the display grid.
#[derive(Debug, Copy, Clone, PartialEq, Eq, Structural)]
pub enum VtEvent {
    Print(char),
    Newline,
    CarriageReturn,
    Backspace,
}

/// What a single byte of terminal output decodes to, if anything.
pub open spec fn decode_byte(b: u8) -> Option<VtEvent> {
    if b == 0x0Au8 {
        Some(VtEvent::Newline)
    } else if b == 0x0Du8 {
        Some(VtEvent::CarriageReturn)
    } else if b == 0x08u8 {
        Some(VtEvent::Backspace)
    } else if 0x20u8 <= b <= 0x7Eu8 {
        Some(VtEvent::Print(b as char))
    } else {
        None
    }
}

/// The ordered operations a whole byte sequence decodes to.
pub open spec fn decode_bytes(bs: Seq<u8>) -> Seq<VtEvent>
    decreases bs.len(),
{
    if bs.len() == 0 {
        Seq::empty()
    } else {
        match decode_byte(bs[0]) {
            Some(e) => seq![e] + decode_bytes(bs.drop_first()),
            None => decode_bytes(bs.drop_first()),
        }
    }
}

/// Decoding distributes over splitting the input after its first byte;
/// this form, on a one-byte extension at the end, carries loop proofs.
pub proof fn lemma_decode_bytes_push(bs: Seq<u8>, b: u8)
    ensures
        decode_bytes(bs.push(b)) == decode_bytes(bs) + match decode_byte(b) {
            Some(e) => seq![e],
            None => Seq::<VtEvent>::empty(),
        },
    decreases bs.len(),
{
    if bs.len() == 0 {
        assert(bs.push(b).drop_first() =~= Seq::<u8>::empty());
        assert(decode_bytes(Seq::<u8>::empty()) =~= Seq::<VtEvent>::empty());
        assert(decode_bytes(bs.push(b)) =~= decode_bytes(bs) + match decode_byte(b) {
            Some(e) => seq![e],
            None => Seq::<VtEvent>::empty(),
        });
    } else {
        assert(bs.push(b).drop_first() =~= bs.drop_first().push(b));
        lemma_decode_bytes_push(bs.drop_first(), b);
        assert(decode_bytes(bs.push(b)) =~= decode_bytes(bs) + match decode_byte(b) {
            Some(e) => seq![e],
            None => Seq::<VtEvent>::empty(),
        });
    }
}

/// Stateless decoder of the child process's output byte stream. No partial
/// multi-byte state is retained across calls: a byte is interpreted on its
/// own, whatever read boundary it arrived on.
pub struct VtParser;

impl VtParser {
    pub fn new() -> Self {
        Self
    }

    /// Consumes a byte slice and appends the operations it decodes to,
    /// in input order, to the caller's output vector.
    pub fn advance(&mut self, input: &[u8], events: &mut Vec<VtEvent>)
        ensures
            final(events)@ == old(events)@ + decode_bytes(input@),
    {
        let n = input.len();
        let mut i: usize = 0;
        while i < n
            invariant
                n == input@.len(),
                i <= n,
                events@ == old(events)@ + decode_bytes(input@.subrange(0, i as int)),
            decreases n - i,
        {
            let b = input[i];
            proof {
                lemma_decode_bytes_push(input@.subrange(0, i as int), b);
                assert(input@.subrange(0, i as int).push(b) =~= input@.subrange(
                    0,
                    i as int + 1,
                ));
            }
            if b == 0x0Au8 {
                events.push(VtEvent::Newline);
            } else if b == 0x0Du8 {
                events.push(VtEvent::CarriageReturn);
            } else if b == 0x08u8 {
                events.push(VtEvent::Backspace);
            } else if 0x20u8 <= b && b <= 0x7Eu8 {
                events.push(VtEvent::Print(b as char));
            }
            i = i + 1;
        }
        proof {
            assert(input@.subrange(0, n as int) =~= input@);
        }
    }
}

impl Default for VtParser {
    fn default() -> (r: Self)
        ensures
            r == VtParser,
    {
        Self::new()
    }
}

} // verus!
