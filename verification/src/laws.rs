//! Laws that hold of the stores and of the decoder, each proved from the
//! definitions by which the library's functions state what they do.

use crate::error::{message_of, DecodeErrorView};
use crate::lists::{list_at, range_of};
use crate::lines::{lines, lines_from, CR, LF};
use crate::parse::{
    command_of, names, set_expiry_of, strip_dollars, text_at, token_at, CommandView,
    NANOS_PER_MILLI,
};
use crate::store::{after_lookup, expired, lookup, Entries};
use crate::text::{
    all_digits, decimal, digit_char, digits_value, i32_value, is_digit, signed_decimal, signed_value, u64_value,
    unsigned_value, upper,
};
use vstd::prelude::*;
use vstd::string::StringSliceAdditionalSpecFns;
use vstd::utf8::{decode_utf8, is_ascii_chars_encode_utf8};

verus! {

/// One access to the scalar store.
pub ghost enum ScalarOp {
    /// Puts a value under a key, with or without a deadline.
    Write { key: Seq<char>, value: Seq<char>, deadline: Option<u128> },
    /// Reads the value under a key at an instant.
    Read { key: Seq<char>, now: u64 },
}

/// What the scalar store holds after the access `op`.
pub open spec fn step(entries: Entries, op: ScalarOp) -> Entries {
    match op {
        ScalarOp::Write { key, value, deadline } => entries.insert(key, (value, deadline)),
        ScalarOp::Read { key, now } => after_lookup(entries, key, now),
    }
}

/// What a scalar store that began empty holds after the accesses `ops`, in
/// their order.
pub open spec fn replay(ops: Seq<ScalarOp>) -> Entries
    decreases ops.len(),
{
    if ops.len() == 0 {
        Map::empty()
    } else {
        step(replay(ops.drop_last()), ops.last())
    }
}

/// Tells whether `op` puts a value under `key`.
pub open spec fn writes(op: ScalarOp, key: Seq<char>) -> bool {
    op matches ScalarOp::Write { key: written, .. } && written == key
}

/// A key that no access has ever put a value under is not in the store, so
/// that a read of it finds nothing, at whatever instant.
pub proof fn lemma_unwritten_key_is_absent(ops: Seq<ScalarOp>, key: Seq<char>, now: u64)
    requires
        forall|i: int| 0 <= i < ops.len() ==> !writes(#[trigger] ops[i], key),
    ensures
        !replay(ops).contains_key(key),
        lookup(replay(ops), key, now) is None,
    decreases ops.len(),
{
    if ops.len() > 0 {
        let earlier = ops.drop_last();
        assert forall|i: int| 0 <= i < earlier.len() implies !writes(#[trigger] earlier[i], key) by {
            assert(earlier[i] == ops[i]);
        }
        lemma_unwritten_key_is_absent(earlier, key, now);
        assert(!writes(ops[ops.len() - 1], key));
    }
}

/// A read that follows a write of the same key finds the value written,
/// unless its deadline has passed by then.
pub proof fn lemma_read_after_write(
    entries: Entries,
    key: Seq<char>,
    value: Seq<char>,
    deadline: Option<u128>,
    now: u64,
)
    requires
        !expired(deadline, now),
    ensures
        lookup(entries.insert(key, (value, deadline)), key, now) == Some(value),
        after_lookup(entries.insert(key, (value, deadline)), key, now) == entries.insert(
            key,
            (value, deadline),
        ),
{
}

/// A value written with a deadline is gone for a read that comes after the
/// deadline: the read finds nothing and removes the key, and no later read,
/// at whatever instant, finds the value again. So it is for a deadline of
/// zero milliseconds after the instant of the write and any read after that
/// instant.
pub proof fn lemma_read_after_deadline(
    entries: Entries,
    key: Seq<char>,
    value: Seq<char>,
    deadline: u128,
    now: u64,
    later: u64,
)
    requires
        now > deadline,
    ensures
        ({
            let written = entries.insert(key, (value, Some(deadline)));
            let read = after_lookup(written, key, now);
            &&& lookup(written, key, now) is None
            &&& read == entries.remove(key)
            &&& lookup(read, key, later) is None
        }),
{
    let written = entries.insert(key, (value, Some(deadline)));
    assert(written.remove(key) =~= entries.remove(key));
}

/// Two writes of one key leave the key with the value and the deadline of
/// the write that came last, whichever that is, and every other key as it
/// was: never the value of one write with the deadline of the other.
pub proof fn lemma_last_write_wins(
    entries: Entries,
    key: Seq<char>,
    first: (Seq<char>, Option<u128>),
    second: (Seq<char>, Option<u128>),
)
    ensures
        entries.insert(key, first).insert(key, second) == entries.insert(key, second),
        entries.insert(key, second).insert(key, first) == entries.insert(key, first),
        entries.insert(key, second)[key] == second,
        entries.insert(key, first)[key] == first,
{
    assert(entries.insert(key, first).insert(key, second) =~= entries.insert(key, second));
    assert(entries.insert(key, second).insert(key, first) =~= entries.insert(key, first));
}

/// The range from the first index to the last, written `0` and `-1`,
/// selects the whole of a list, but of a list of one item: there the index
/// `-1` reaches back as far as the list is long, and selects nothing.
pub proof fn lemma_whole_range<T>(list: Seq<T>)
    requires
        list.len() != 1,
    ensures
        range_of(list, 0, -1) == list,
{
    assert(range_of(list, 0, -1) =~= list);
}

/// Values that are appended under a key that is not there make up the list
/// under that key: it is as long as they are many, and its whole range
/// gives them back in their order.
pub proof fn lemma_rpush_on_absent_key(
    lists: Map<Seq<char>, Seq<Seq<char>>>,
    key: Seq<char>,
    values: Seq<Seq<char>>,
)
    requires
        !lists.contains_key(key),
        values.len() != 1,
    ensures
        ({
            let after = lists.insert(key, list_at(lists, key) + values);
            &&& list_at(after, key).len() == values.len()
            &&& range_of(list_at(after, key), 0, -1) == values
        }),
{
    let after = lists.insert(key, list_at(lists, key) + values);
    assert(list_at(after, key) =~= values);
    lemma_whole_range(values);
}

/// Values that are put in front of a list come out of its whole range
/// first, in their order, and the items that the list held before come
/// after them.
pub proof fn lemma_lpush_goes_in_front(
    lists: Map<Seq<char>, Seq<Seq<char>>>,
    key: Seq<char>,
    values: Seq<Seq<char>>,
)
    requires
        values.len() + list_at(lists, key).len() != 1,
    ensures
        ({
            let after = lists.insert(key, values + list_at(lists, key));
            &&& list_at(after, key).len() == values.len() + list_at(lists, key).len()
            &&& range_of(list_at(after, key), 0, -1) == values + list_at(lists, key)
        }),
{
    lemma_whole_range(values + list_at(lists, key));
}

/// A start index that reaches back beyond the head of the list selects
/// what the first index selects.
pub proof fn lemma_start_clamps_to_head<T>(list: Seq<T>, start: int, end: int)
    requires
        start <= -list.len(),
    ensures
        range_of(list, start, end) == range_of(list, 0, end),
{
}

/// A start index at or beyond the end of the list selects nothing.
pub proof fn lemma_start_beyond_end<T>(list: Seq<T>, start: int, end: int)
    requires
        start >= list.len(),
    ensures
        range_of(list, start, end) == Seq::<T>::empty(),
{
}

/// The markers differ from each other.
proof fn lemma_markers_differ()
    ensures
        "*3".spec_bytes() != "*1".spec_bytes(),
        "*3".spec_bytes() != "*2".spec_bytes(),
        "*5".spec_bytes() != "*1".spec_bytes(),
        "*5".spec_bytes() != "*2".spec_bytes(),
        "*5".spec_bytes() != "*3".spec_bytes(),
{
    reveal_strlit("*1");
    reveal_strlit("*2");
    reveal_strlit("*3");
    reveal_strlit("*5");
    is_ascii_chars_encode_utf8("*1"@);
    is_ascii_chars_encode_utf8("*2"@);
    is_ascii_chars_encode_utf8("*3"@);
    is_ascii_chars_encode_utf8("*5"@);
    assert("*1".spec_bytes()[1] == '1' as u8);
    assert("*2".spec_bytes()[1] == '2' as u8);
    assert("*3".spec_bytes()[1] == '3' as u8);
    assert("*5".spec_bytes()[1] == '5' as u8);
}

/// The bytes of the names of the commands.
proof fn lemma_name_bytes()
    ensures
        "PING".spec_bytes() == seq!['P' as u8, 'I' as u8, 'N' as u8, 'G' as u8],
        "ECHO".spec_bytes() == seq!['E' as u8, 'C' as u8, 'H' as u8, 'O' as u8],
        "SET".spec_bytes() == seq!['S' as u8, 'E' as u8, 'T' as u8],
        "GET".spec_bytes() == seq!['G' as u8, 'E' as u8, 'T' as u8],
        "RPUSH".spec_bytes() == seq!['R' as u8, 'P' as u8, 'U' as u8, 'S' as u8, 'H' as u8],
        "LPUSH".spec_bytes() == seq!['L' as u8, 'P' as u8, 'U' as u8, 'S' as u8, 'H' as u8],
        "LRANGE".spec_bytes() == seq![
            'L' as u8,
            'R' as u8,
            'A' as u8,
            'N' as u8,
            'G' as u8,
            'E' as u8,
        ],
{
    reveal_strlit("PING");
    reveal_strlit("ECHO");
    reveal_strlit("SET");
    reveal_strlit("GET");
    reveal_strlit("RPUSH");
    reveal_strlit("LPUSH");
    reveal_strlit("LRANGE");
    is_ascii_chars_encode_utf8("PING"@);
    is_ascii_chars_encode_utf8("ECHO"@);
    is_ascii_chars_encode_utf8("SET"@);
    is_ascii_chars_encode_utf8("GET"@);
    is_ascii_chars_encode_utf8("RPUSH"@);
    is_ascii_chars_encode_utf8("LPUSH"@);
    is_ascii_chars_encode_utf8("LRANGE"@);
    assert("PING".spec_bytes() =~= seq!['P' as u8, 'I' as u8, 'N' as u8, 'G' as u8]);
    assert("ECHO".spec_bytes() =~= seq!['E' as u8, 'C' as u8, 'H' as u8, 'O' as u8]);
    assert("SET".spec_bytes() =~= seq!['S' as u8, 'E' as u8, 'T' as u8]);
    assert("GET".spec_bytes() =~= seq!['G' as u8, 'E' as u8, 'T' as u8]);
    assert("RPUSH".spec_bytes() =~= seq!['R' as u8, 'P' as u8, 'U' as u8, 'S' as u8, 'H' as u8]);
    assert("LPUSH".spec_bytes() =~= seq!['L' as u8, 'P' as u8, 'U' as u8, 'S' as u8, 'H' as u8]);
    assert("LRANGE".spec_bytes() =~= seq![
        'L' as u8,
        'R' as u8,
        'A' as u8,
        'N' as u8,
        'G' as u8,
        'E' as u8,
    ]);
}

/// A token names one command at most.
proof fn lemma_names_differ(name: Seq<u8>)
    ensures
        names(name, "PING") ==> !names(name, "ECHO") && !names(name, "SET") && !names(name, "GET")
            && !names(name, "RPUSH") && !names(name, "LRANGE") && !names(name, "LPUSH"),
        names(name, "SET") ==> !names(name, "PING") && !names(name, "ECHO"),
{
    lemma_name_bytes();
    if names(name, "PING") {
        assert(upper(name[0]) == 'P' as u8);
    }
    if names(name, "SET") {
        assert(upper(name[0]) == 'S' as u8);
    }
}

/// A `PING` is accepted under the marker `*1` and under no other: under
/// any other marker the message is turned down as one that asks for no
/// command, and the reason holds the marker.
pub proof fn lemma_ping_goes_with_one_marker(lines: Seq<Seq<u8>>, now: u64)
    requires
        lines.len() > 0,
        token_at(lines, 1) matches Ok(name) && names(name, "PING"),
    ensures
        lines[0] == "*1".spec_bytes() ==> command_of(lines, now) == Ok::<_, DecodeErrorView>(
            CommandView::PING,
        ),
        lines[0] != "*1".spec_bytes() ==> command_of(lines, now) == Err::<CommandView, _>(
            DecodeErrorView::UnknownCommand(decode_utf8(lines[0])),
        ),
{
    lemma_names_differ(token_at(lines, 1)->Ok_0);
}

/// Tells whether the arguments of `lines` before the one at line `pos` can
/// be read, and whether a flag among them is `PX`.
pub open spec fn readable_before(lines: Seq<Seq<u8>>, pos: int) -> bool {
    &&& pos > 3 ==> token_at(lines, 3) is Ok
    &&& pos > 5 ==> token_at(lines, 5) is Ok
    &&& pos > 7 ==> (token_at(lines, 7) matches Ok(flag) && names(flag, "PX"))
}

/// A `SET` in which an argument is not as long as its length line says is
/// turned down for that argument, and the reason and its sentence name both
/// lengths: the one that the line holds and the one that was declared.
pub proof fn lemma_set_length_mismatch(lines: Seq<Seq<u8>>, now: u64, pos: int, declared: i32)
    requires
        lines.len() > 0,
        token_at(lines, 1) matches Ok(name) && names(name, "SET"),
        lines[0] == "*3".spec_bytes() && (pos == 3 || pos == 5) || lines[0] == "*5".spec_bytes() && (
        pos == 3 || pos == 5 || pos == 7 || pos == 9),
        readable_before(lines, pos),
        pos + 1 < lines.len(),
        i32_value(strip_dollars(lines[pos])) == Some(declared),
        lines[pos + 1].len() != declared,
    ensures
        ({
            let why = DecodeErrorView::LengthMismatch {
                actual: lines[pos + 1].len(),
                text: decode_utf8(lines[pos + 1]),
                declared: declared as int,
            };
            &&& command_of(lines, now) == Err::<CommandView, _>(why)
            &&& message_of(why) == "Actual text ("@ + decimal(lines[pos + 1].len()) + ":"@
                + decode_utf8(lines[pos + 1]) + ") doesn't match expected length ("@
                + signed_decimal(declared as int) + ")"@
        }),
{
    lemma_markers_differ();
    lemma_names_differ(token_at(lines, 1)->Ok_0);
}

/// The instant at which a message is decoded bears on nothing but the
/// deadline of a `SET`, which moves with it: a message that is turned down
/// at one instant is turned down at every instant, for the same reason, and
/// any other command is the same at every instant.
pub proof fn lemma_instant_only_moves_deadline(lines: Seq<Seq<u8>>, one: u64, other: u64)
    ensures
        match command_of(lines, one) {
            Err(why) => command_of(lines, other) == Err::<CommandView, _>(why),
            Ok(CommandView::SET(key, value, Some(deadline))) => {
                &&& deadline >= one
                &&& command_of(lines, other) == Ok::<_, DecodeErrorView>(
                    CommandView::SET(key, value, Some((deadline - one + other) as u128)),
                )
            },
            Ok(command) => command_of(lines, other) == Ok::<_, DecodeErrorView>(command),
        },
{
}

/// A `SET` with the flag `PX` and a number of milliseconds holds the
/// deadline that lies that many milliseconds after the instant at which the
/// message was decoded, so that its value is gone for exactly the reads
/// that come later than that.
pub proof fn lemma_deadline_counts_from_decoding(lines: Seq<Seq<u8>>, now: u64, millis: u64)
    requires
        text_at(lines, 3) is Ok,
        text_at(lines, 5) is Ok,
        token_at(lines, 7) matches Ok(flag) && names(flag, "PX"),
        token_at(lines, 9) matches Ok(token) && u64_value(token) == Some(millis),
    ensures
        set_expiry_of(lines, now) == Ok::<_, DecodeErrorView>(
            CommandView::SET(
                text_at(lines, 3)->Ok_0,
                text_at(lines, 5)->Ok_0,
                Some((now + millis * NANOS_PER_MILLI) as u128),
            ),
        ),
        forall|read_at: u64| #[trigger]
            expired(Some((now + millis * NANOS_PER_MILLI) as u128), read_at) <==> read_at > now
                + millis * NANOS_PER_MILLI,
{
}

/// A `SET` with the flag `PX` that has no line for its milliseconds is
/// turned down for that, whether or not their length line is there.
pub proof fn lemma_set_without_milliseconds(lines: Seq<Seq<u8>>, now: u64)
    requires
        text_at(lines, 3) is Ok,
        text_at(lines, 5) is Ok,
        token_at(lines, 7) matches Ok(flag) && names(flag, "PX"),
        lines.len() <= 10,
    ensures
        set_expiry_of(lines, now) == Err::<CommandView, _>(DecodeErrorView::MissingExpiry),
        message_of(DecodeErrorView::MissingExpiry) == "Missing expire time"@,
{
}

/// Tells whether a line ends at position `at` of `text`: a carriage return
/// stands there, and a line feed right after it.
pub open spec fn line_ends_at(text: Seq<u8>, at: int) -> bool {
    0 <= at && at + 1 < text.len() && text[at] == CR && text[at + 1] == LF
}

/// Tells whether no line ends anywhere in `text`.
pub open spec fn holds_no_line_end(text: Seq<u8>) -> bool {
    forall|at: int| !line_ends_at(text, at)
}

/// The text that `lines` make when each is followed by a line end.
pub open spec fn joined(lines: Seq<Seq<u8>>) -> Seq<u8>
    decreases lines.len(),
{
    if lines.len() == 0 {
        Seq::empty()
    } else {
        lines[0] + seq![CR, LF] + joined(lines.drop_first())
    }
}

proof fn lemma_lines_from_rejoin(message: Seq<u8>, start: int, at: int)
    requires
        0 <= start <= at <= message.len(),
        forall|p: int| start <= p < at ==> !line_ends_at(message, p),
    ensures
        ({
            let found = lines_from(message, start, at);
            let taken = joined(found).len();
            &&& forall|i: int| 0 <= i < found.len() ==> holds_no_line_end(#[trigger] found[i])
            &&& start + taken <= message.len()
            &&& message.subrange(start, start + taken) == joined(found)
            &&& holds_no_line_end(message.subrange(start + taken, message.len() as int))
        }),
    decreases message.len() - at,
{
    let found = lines_from(message, start, at);
    if at + 1 >= message.len() {
        assert(joined(found) =~= Seq::<u8>::empty());
        let rest = message.subrange(start, message.len() as int);
        assert forall|p: int| !line_ends_at(rest, p) by {
            if line_ends_at(rest, p) {
                assert(line_ends_at(message, start + p));
            }
        }
        assert(message.subrange(start, start) =~= Seq::<u8>::empty());
    } else if message[at] == CR && message[at + 1] == LF {
        let line = message.subrange(start, at);
        let after = lines_from(message, at + 2, at + 2);
        lemma_lines_from_rejoin(message, at + 2, at + 2);
        assert(found.drop_first() =~= after);
        assert(found[0] == line);
        assert forall|p: int| !line_ends_at(line, p) by {
            if line_ends_at(line, p) {
                assert(line_ends_at(message, start + p));
            }
        }
        assert forall|i: int| 0 <= i < found.len() implies holds_no_line_end(#[trigger] found[i]) by {
            if i > 0 {
                assert(found[i] == after[i - 1]);
            }
        }
        let taken = joined(found).len();
        assert(joined(found) == line + seq![CR, LF] + joined(after));
        assert(taken == (at - start) + 2 + joined(after).len());
        assert(message.subrange(start, start + taken) =~= line + seq![CR, LF] + message.subrange(
            at + 2,
            at + 2 + joined(after).len(),
        ));
    } else {
        lemma_lines_from_rejoin(message, start, at + 1);
    }
}

/// The lines of a message are what stands between its line ends: no line
/// holds a line end; the lines, each followed by a line end, make up the
/// message from its start; and in what is left of the message after them no
/// line ends.
pub proof fn lemma_lines_rejoin(message: Seq<u8>)
    ensures
        forall|i: int|
            0 <= i < lines(message).len() ==> holds_no_line_end(#[trigger] lines(message)[i]),
        joined(lines(message)).len() <= message.len(),
        message.subrange(0, joined(lines(message)).len() as int) == joined(lines(message)),
        holds_no_line_end(
            message.subrange(joined(lines(message)).len() as int, message.len() as int),
        ),
{
    lemma_lines_from_rejoin(message, 0, 0);
}

/// The digits of `text`, each as the byte that stands for it on the wire.
pub open spec fn as_bytes(text: Seq<char>) -> Seq<u8> {
    Seq::new(text.len(), |i: int| text[i] as u8)
}

/// A number that is written in decimal is read back as itself, with or
/// without a sign.
pub proof fn lemma_decimal_reads_back(n: nat)
    ensures
        all_digits(as_bytes(decimal(n))),
        decimal(n).len() > 0,
        is_digit(as_bytes(decimal(n))[0]),
        digits_value(as_bytes(decimal(n))) == n,
        unsigned_value(as_bytes(decimal(n))) == Some(n),
        signed_value(as_bytes(signed_decimal(n as int))) == Some(n as int),
        signed_value(as_bytes(signed_decimal(-(n as int)))) == Some(-(n as int)),
    decreases n,
{
    let written = as_bytes(decimal(n));
    let last = digit_char(n % 10);
    assert(last as u8 == '0' as u8 + n % 10);
    if n >= 10 {
        let shorter = as_bytes(decimal(n / 10));
        lemma_decimal_reads_back(n / 10);
        assert(written.drop_last() =~= shorter);
        assert(written.last() == last as u8);
        assert forall|i: int| 0 <= i < written.len() implies is_digit(#[trigger] written[i]) by {
            if i < shorter.len() {
                assert(written[i] == shorter[i]);
            }
        }
        assert(written[0] == shorter[0]);
    } else {
        assert(written =~= seq![last as u8]);
        assert(written.drop_last() =~= Seq::<u8>::empty());
        assert(digits_value(written.drop_last()) == 0);
    }
    assert(written[0] != '+' as u8 && written[0] != '-' as u8);
    assert(as_bytes(signed_decimal(n as int)) == written);
    if n > 0 {
        let negative = as_bytes(signed_decimal(-(n as int)));
        assert(negative[0] == '-' as u8);
        assert(negative.drop_first() =~= written);
    }
}

} // verus!
