//! Cuts a message into its lines.
//!
//! A line ends with a carriage return followed by a line feed. Whatever
//! follows the last such pair belongs to no line.

use vstd::prelude::*;
use vstd::string::StringSliceAdditionalSpecFns;
use vstd::utf8::*;

verus! {

/// The carriage return that starts a line's end.
pub const CR: u8 = 13;

/// The line feed that completes a line's end.
pub const LF: u8 = 10;

/// The lines of `message` that are still to come when the line at hand
/// began at `start` and has been read up to `at` without meeting its end.
pub open spec fn lines_from(message: Seq<u8>, start: int, at: int) -> Seq<Seq<u8>>
    decreases message.len() - at,
{
    if at < 0 || at + 1 >= message.len() {
        Seq::empty()
    } else if message[at] == CR && message[at + 1] == LF {
        seq![message.subrange(start, at)] + lines_from(message, at + 2, at + 2)
    } else {
        lines_from(message, start, at + 1)
    }
}

/// The lines of `message`, each without its end, in their order.
pub open spec fn lines(message: Seq<u8>) -> Seq<Seq<u8>> {
    lines_from(message, 0, 0)
}

/// The bytes of each of `chunks`, in their order.
pub open spec fn bytes_of(chunks: Seq<&str>) -> Seq<Seq<u8>> {
    Seq::new(chunks.len(), |i: int| chunks[i].spec_bytes())
}

/// Right after a byte that is a character of its own, a new character
/// begins or the text ends.
pub proof fn lemma_boundary_after_ascii(bytes: Seq<u8>, at: int)
    requires
        valid_utf8(bytes),
        0 <= at < bytes.len(),
        bytes[at] <= 0x7f,
    ensures
        is_char_boundary(bytes, at + 1),
    decreases bytes.len(),
{
    let first = length_of_first_scalar(bytes);
    if at < first {
        reveal_with_fuel(is_char_boundary, 3);
        assert(is_char_boundary(bytes, at)) by {
            is_char_boundary_iff_not_is_continuation_byte(bytes, at);
        }
        assert(at == 0);
    } else {
        lemma_boundary_after_ascii(pop_first_scalar(bytes), at - first);
    }
}

/// Cuts `message` into its lines.
pub fn split_lines<'a>(message: &'a str) -> (chunks: Vec<&'a str>)
    ensures
        bytes_of(chunks@) == lines(message.spec_bytes()),
{
    broadcast use encode_utf8_valid_utf8;

    let bytes = message.as_bytes();
    let mut chunks: Vec<&'a str> = Vec::new();
    let mut start: usize = 0;
    let mut at: usize = 0;
    assert(bytes_of(chunks@) =~= Seq::<Seq<u8>>::empty());
    while at < bytes.len() && at + 1 < bytes.len()
        invariant
            bytes@ == message.spec_bytes(),
            valid_utf8(bytes@),
            0 <= start <= at <= bytes.len(),
            is_char_boundary(bytes@, start as int),
            lines(bytes@) == bytes_of(chunks@) + lines_from(bytes@, start as int, at as int),
        decreases bytes.len() - at,
    {
        if bytes[at] == CR && bytes[at + 1] == LF {
            proof {
                is_char_boundary_iff_not_is_continuation_byte(bytes@, at as int);
                valid_utf8_split(bytes@, at as int);
            }
            let (head, _) = message.split_at(at);
            proof {
                if start < at {
                    is_char_boundary_iff_not_is_continuation_byte(bytes@, start as int);
                    is_char_boundary_iff_not_is_continuation_byte(head.spec_bytes(), start as int);
                } else {
                    is_char_boundary_start_end_of_seq(head.spec_bytes());
                }
            }
            let (_, line) = head.split_at(start);
            let ghost before = bytes_of(chunks@);
            chunks.push(line);
            proof {
                assert(line.spec_bytes() =~= bytes@.subrange(start as int, at as int));
                assert(bytes_of(chunks@) =~= before + seq![bytes@.subrange(start as int, at as int)]);
                lemma_boundary_after_ascii(bytes@, at + 1);
            }
            at = at + 2;
            start = at;
        } else {
            at = at + 1;
        }
    }
    chunks
}

} // verus!
