//! The decoder: from the text of one message to the command that it asks
//! for, or to the reason why it asks for none.
//!
//! A message is a sequence of lines. The first line is a marker, `*` and the
//! number of arguments that follow. Each argument takes two lines: `$` and
//! the argument's length in bytes, then the argument itself. The first
//! argument names the command.

use crate::clock::now_nanos;
use crate::error::{message_of, DecodeError, DecodeErrorView};
use crate::lines::{bytes_of, lemma_boundary_after_ascii, lines, split_lines};
use crate::text::{
    eq_bytes, eq_ignore_case, i32_value, parse_i32, parse_u64, same_ignoring_case, u64_value,
};
use vstd::prelude::*;
use vstd::string::StringSliceAdditionalSpecFns;
use vstd::utf8::*;

verus! {

/// A request that the stores can carry out.
#[derive(Debug, PartialEq, Eq)]
pub enum Command {
    /// Asks for a sign of life.
    PING,
    /// Asks for the text back.
    ECHO(String),
    /// Puts a value under a key, for good or until the deadline, which is
    /// counted in nanoseconds since the Unix epoch.
    SET(String, String, Option<u128>),
    /// Asks for the value under a key.
    GET(String),
    /// Appends values to the list under a key.
    RPUSH(String, Vec<String>),
    /// Asks for the items of the list under a key from one signed index to
    /// another, both included.
    LRANGE(String, i32, i32),
    /// Puts values in front of the list under a key.
    LPUSH(String, Vec<String>),
}

/// What a `Command` says, with each text as the sequence of its characters.
pub ghost enum CommandView {
    PING,
    ECHO(Seq<char>),
    SET(Seq<char>, Seq<char>, Option<u128>),
    GET(Seq<char>),
    RPUSH(Seq<char>, Seq<Seq<char>>),
    LRANGE(Seq<char>, i32, i32),
    LPUSH(Seq<char>, Seq<Seq<char>>),
}

impl View for Command {
    type V = CommandView;

    open spec fn view(&self) -> CommandView {
        match *self {
            Command::PING => CommandView::PING,
            Command::ECHO(text) => CommandView::ECHO(text@),
            Command::SET(key, value, deadline) => CommandView::SET(key@, value@, deadline),
            Command::GET(key) => CommandView::GET(key@),
            Command::RPUSH(key, values) => CommandView::RPUSH(key@, values.deep_view()),
            Command::LRANGE(key, start, end) => CommandView::LRANGE(key@, start, end),
            Command::LPUSH(key, values) => CommandView::LPUSH(key@, values.deep_view()),
        }
    }
}

/// The byte that opens a length line.
pub const DOLLAR: u8 = 36;

/// What is left of `line` once every `$` at its start is taken away.
pub open spec fn strip_dollars(line: Seq<u8>) -> Seq<u8>
    decreases line.len(),
{
    if line.len() > 0 && line[0] == DOLLAR {
        strip_dollars(line.drop_first())
    } else {
        line
    }
}

/// The argument whose length line is line `pos` of `lines`, or why there is
/// none: the length line must be there and spell an `i32`, the next line must
/// be there, and it must hold exactly as many bytes as the length line says.
pub open spec fn token_at(lines: Seq<Seq<u8>>, pos: int) -> Result<Seq<u8>, DecodeErrorView> {
    if pos >= lines.len() {
        Err(DecodeErrorView::MissingLength)
    } else {
        let digits = strip_dollars(lines[pos]);
        match i32_value(digits) {
            None => Err(DecodeErrorView::BadLength(decode_utf8(digits))),
            Some(declared) => {
                if pos + 1 >= lines.len() {
                    Err(DecodeErrorView::MissingText)
                } else if lines[pos + 1].len() != declared {
                    Err(
                        DecodeErrorView::LengthMismatch {
                            actual: lines[pos + 1].len(),
                            text: decode_utf8(lines[pos + 1]),
                            declared: declared as int,
                        },
                    )
                } else {
                    Ok(lines[pos + 1])
                }
            },
        }
    }
}

/// The argument at line `pos` as text.
pub open spec fn text_at(lines: Seq<Seq<u8>>, pos: int) -> Result<Seq<char>, DecodeErrorView> {
    match token_at(lines, pos) {
        Ok(token) => Ok(decode_utf8(token)),
        Err(why) => Err(why),
    }
}

/// The argument at line `pos` as a signed index.
pub open spec fn int_at(lines: Seq<Seq<u8>>, pos: int) -> Result<i32, DecodeErrorView> {
    match token_at(lines, pos) {
        Ok(token) => match i32_value(token) {
            Some(number) => Ok(number),
            None => Err(DecodeErrorView::NotAnInteger(decode_utf8(token))),
        },
        Err(why) => Err(why),
    }
}

/// Every chunk is text, so its bytes spell the characters that it holds.
proof fn lemma_chunk_text(chunk: &str)
    ensures
        valid_utf8(chunk.spec_bytes()),
        decode_utf8(chunk.spec_bytes()) == chunk@,
{
    encode_utf8_valid_utf8(chunk@);
    encode_utf8_decode_utf8(chunk@);
}

/// Takes every `$` from the start of `chunk`.
fn trim_dollars<'a>(chunk: &'a str) -> (rest: &'a str)
    ensures
        rest.spec_bytes() == strip_dollars(chunk.spec_bytes()),
{
    let bytes = chunk.as_bytes();
    let mut at: usize = 0;
    proof {
        lemma_chunk_text(chunk);
        assert(bytes@.subrange(0, bytes.len() as int) =~= bytes@);
    }
    while at < bytes.len() && bytes[at] == DOLLAR
        invariant
            bytes@ == chunk.spec_bytes(),
            valid_utf8(bytes@),
            0 <= at <= bytes.len(),
            is_char_boundary(bytes@, at as int),
            strip_dollars(bytes@) == strip_dollars(bytes@.subrange(at as int, bytes.len() as int)),
        decreases bytes.len() - at,
    {
        proof {
            let tail = bytes@.subrange(at as int, bytes.len() as int);
            assert(tail.drop_first() =~= bytes@.subrange(at + 1, bytes.len() as int));
            lemma_boundary_after_ascii(bytes@, at as int);
        }
        at += 1;
    }
    let (_, rest) = chunk.split_at(at);
    rest
}

/// Reads the argument whose length line is line `pos` of `chunks`.
pub fn extract_text(chunks: &Vec<&str>, pos: usize) -> (text: Result<String, DecodeError>)
    ensures
        match text {
            Ok(found) => {
                &&& token_at(bytes_of(chunks@), pos as int) == Ok::<_, DecodeErrorView>(
                    encode_utf8(found@),
                )
                &&& text_at(bytes_of(chunks@), pos as int) == Ok::<_, DecodeErrorView>(found@)
            },
            Err(why) => {
                &&& token_at(bytes_of(chunks@), pos as int) == Err::<Seq<u8>, _>(why@)
                &&& text_at(bytes_of(chunks@), pos as int) == Err::<Seq<char>, _>(why@)
            },
        },
        text is Ok ==> pos + 1 < chunks.len(),
{
    if pos >= chunks.len() {
        return Err(DecodeError::MissingLength);
    }
    let digits = trim_dollars(chunks[pos]);
    proof {
        lemma_chunk_text(digits);
    }
    let declared = match parse_i32(digits.as_bytes()) {
        Some(number) => number,
        None => {
            return Err(DecodeError::BadLength(digits.to_owned()));
        },
    };
    if pos + 1 >= chunks.len() {
        return Err(DecodeError::MissingText);
    }
    let text = chunks[pos + 1];
    proof {
        lemma_chunk_text(text);
    }
    let actual = text.as_bytes().len();
    if declared < 0 || actual != declared as usize {
        return Err(DecodeError::LengthMismatch { actual, text: text.to_owned(), declared });
    }
    Ok(text.to_owned())
}

/// Reads the argument whose length line is line `pos` of `chunks` as a
/// signed index.
pub fn extract_int(chunks: &Vec<&str>, pos: usize) -> (number: Result<i32, DecodeError>)
    ensures
        match number {
            Ok(found) => int_at(bytes_of(chunks@), pos as int) == Ok::<_, DecodeErrorView>(found),
            Err(why) => int_at(bytes_of(chunks@), pos as int) == Err::<i32, _>(why@),
        },
{
    let text = match extract_text(chunks, pos) {
        Ok(text) => text,
        Err(why) => {
            return Err(why);
        },
    };
    proof {
        encode_utf8_decode_utf8(text@);
    }
    match parse_i32(text.as_str().as_bytes()) {
        Some(number) => Ok(number),
        None => Err(DecodeError::NotAnInteger(text)),
    }
}

/// What a decoder's answer says.
pub open spec fn decoded(answer: Result<Command, DecodeError>) -> Result<
    CommandView,
    DecodeErrorView,
> {
    match answer {
        Ok(command) => Ok(command@),
        Err(why) => Err(why@),
    }
}

/// Tells whether `token` is the command name or flag `word`, in capitals,
/// small letters or a mixture.
pub open spec fn names(token: Seq<u8>, word: &str) -> bool {
    same_ignoring_case(token, word.spec_bytes())
}

/// The `ECHO` that `lines` ask for: its text is the second argument.
pub open spec fn echo_of(lines: Seq<Seq<u8>>) -> Result<CommandView, DecodeErrorView> {
    match text_at(lines, 3) {
        Ok(text) => Ok(CommandView::ECHO(text)),
        Err(why) => Err(why),
    }
}

/// The `GET` that `lines` ask for: its key is the second argument.
pub open spec fn get_of(lines: Seq<Seq<u8>>) -> Result<CommandView, DecodeErrorView> {
    match text_at(lines, 3) {
        Ok(key) => Ok(CommandView::GET(key)),
        Err(why) => Err(why),
    }
}

/// The `SET` without a deadline that `lines` ask for: key and value are the
/// second and third arguments.
pub open spec fn set_of(lines: Seq<Seq<u8>>) -> Result<CommandView, DecodeErrorView> {
    match text_at(lines, 3) {
        Err(why) => Err(why),
        Ok(key) => match text_at(lines, 5) {
            Err(why) => Err(why),
            Ok(value) => Ok(CommandView::SET(key, value, None)),
        },
    }
}

/// The nanoseconds that make a millisecond.
pub const NANOS_PER_MILLI: u64 = 1_000_000;

/// The deadline that the flag and the milliseconds in the fourth and fifth
/// arguments of `lines` set for a message read at the instant `now`: the
/// flag must be `PX`, the line of the milliseconds must be there, the
/// milliseconds must be as long as their length line says and spell an
/// unsigned decimal, and the deadline lies that many milliseconds after
/// `now`.
pub open spec fn deadline_of(lines: Seq<Seq<u8>>, now: u64) -> Result<u128, DecodeErrorView> {
    match token_at(lines, 7) {
        Err(why) => Err(why),
        Ok(flag) => if !names(flag, "PX") {
            Err(DecodeErrorView::UnknownFlag(decode_utf8(flag)))
        } else if lines.len() <= 10 {
            Err(DecodeErrorView::MissingExpiry)
        } else {
            match token_at(lines, 9) {
                Err(why) => Err(why),
                Ok(token) => match u64_value(token) {
                    None => Err(DecodeErrorView::BadExpiry(decode_utf8(token))),
                    Some(millis) => Ok((now + millis * NANOS_PER_MILLI) as u128),
                },
            }
        },
    }
}

/// The `SET` with a deadline that `lines` ask for when they are read at the
/// instant `now`.
pub open spec fn set_expiry_of(lines: Seq<Seq<u8>>, now: u64) -> Result<
    CommandView,
    DecodeErrorView,
> {
    match text_at(lines, 3) {
        Err(why) => Err(why),
        Ok(key) => match text_at(lines, 5) {
            Err(why) => Err(why),
            Ok(value) => match deadline_of(lines, now) {
                Err(why) => Err(why),
                Ok(deadline) => Ok(CommandView::SET(key, value, Some(deadline))),
            },
        },
    }
}

/// The `LRANGE` that `lines` ask for: the key and the two signed indexes are
/// the second, third and fourth arguments.
pub open spec fn lrange_of(lines: Seq<Seq<u8>>) -> Result<CommandView, DecodeErrorView> {
    match text_at(lines, 3) {
        Err(why) => Err(why),
        Ok(key) => match int_at(lines, 5) {
            Err(why) => Err(why),
            Ok(start) => match int_at(lines, 7) {
                Err(why) => Err(why),
                Ok(end) => Ok(CommandView::LRANGE(key, start, end)),
            },
        },
    }
}

/// The arguments of `lines` from line `pos` to the last line, in their
/// order, behind those read `sofar`; or why the first that cannot be read
/// cannot.
pub open spec fn values_from(lines: Seq<Seq<u8>>, pos: int, sofar: Seq<Seq<char>>) -> Result<
    Seq<Seq<char>>,
    DecodeErrorView,
>
    decreases lines.len() - pos,
{
    if pos >= lines.len() {
        Ok(sofar)
    } else {
        match text_at(lines, pos) {
            Err(why) => Err(why),
            Ok(text) => values_from(lines, pos + 2, sofar.push(text)),
        }
    }
}

/// The `RPUSH` that `lines` ask for: the key is the second argument, the
/// values are all the arguments after it, however many the marker counts.
pub open spec fn rpush_of(lines: Seq<Seq<u8>>) -> Result<CommandView, DecodeErrorView> {
    match text_at(lines, 3) {
        Err(why) => Err(why),
        Ok(key) => match values_from(lines, 5, Seq::empty()) {
            Err(why) => Err(why),
            Ok(values) => Ok(CommandView::RPUSH(key, values)),
        },
    }
}

/// The `LPUSH` that `lines` ask for: the key is the second argument, the
/// values are all the arguments after it, however many the marker counts.
pub open spec fn lpush_of(lines: Seq<Seq<u8>>) -> Result<CommandView, DecodeErrorView> {
    match text_at(lines, 3) {
        Err(why) => Err(why),
        Ok(key) => match values_from(lines, 5, Seq::empty()) {
            Err(why) => Err(why),
            Ok(values) => Ok(CommandView::LPUSH(key, values)),
        },
    }
}

/// The command that `lines` ask for when they are read at the instant `now`.
/// The marker on the first line and the name in the first argument choose
/// the command; the name counts in any case of its letters, and `RPUSH` and
/// `LPUSH` go with any marker.
pub open spec fn command_of(lines: Seq<Seq<u8>>, now: u64) -> Result<
    CommandView,
    DecodeErrorView,
> {
    if lines.len() == 0 {
        Err(DecodeErrorView::MissingMarker)
    } else {
        match token_at(lines, 1) {
            Err(why) => Err(why),
            Ok(name) => {
                let marker = lines[0];
                if marker == "*1".spec_bytes() && names(name, "PING") {
                    Ok(CommandView::PING)
                } else if marker == "*2".spec_bytes() && names(name, "ECHO") {
                    echo_of(lines)
                } else if marker == "*3".spec_bytes() && names(name, "SET") {
                    set_of(lines)
                } else if marker == "*5".spec_bytes() && names(name, "SET") {
                    set_expiry_of(lines, now)
                } else if marker == "*2".spec_bytes() && names(name, "GET") {
                    get_of(lines)
                } else if names(name, "RPUSH") {
                    rpush_of(lines)
                } else if marker == "*4".spec_bytes() && names(name, "LRANGE") {
                    lrange_of(lines)
                } else if names(name, "LPUSH") {
                    lpush_of(lines)
                } else {
                    Err(DecodeErrorView::UnknownCommand(decode_utf8(marker)))
                }
            },
        }
    }
}

/// Reads an `ECHO` from `chunks`.
pub fn parse_echo(chunks: &Vec<&str>) -> (answer: Result<Command, DecodeError>)
    ensures
        decoded(answer) == echo_of(bytes_of(chunks@)),
{
    match extract_text(chunks, 3) {
        Ok(text) => Ok(Command::ECHO(text)),
        Err(why) => Err(why),
    }
}

/// Reads a `SET` without a deadline from `chunks`.
pub fn parse_set(chunks: &Vec<&str>) -> (answer: Result<Command, DecodeError>)
    ensures
        decoded(answer) == set_of(bytes_of(chunks@)),
{
    let key = match extract_text(chunks, 3) {
        Ok(key) => key,
        Err(why) => {
            return Err(why);
        },
    };
    let value = match extract_text(chunks, 5) {
        Ok(value) => value,
        Err(why) => {
            return Err(why);
        },
    };
    Ok(Command::SET(key, value, None))
}

/// Reads the deadline of a `SET` from `chunks`, for a message read at the
/// instant `now`.
fn extract_deadline(chunks: &Vec<&str>, now: u64) -> (deadline: Result<u128, DecodeError>)
    ensures
        match deadline {
            Ok(instant) => deadline_of(bytes_of(chunks@), now) == Ok::<_, DecodeErrorView>(instant),
            Err(why) => deadline_of(bytes_of(chunks@), now) == Err::<u128, _>(why@),
        },
{
    let flag = match extract_text(chunks, 7) {
        Ok(flag) => flag,
        Err(why) => {
            return Err(why);
        },
    };
    proof {
        encode_utf8_decode_utf8(flag@);
    }
    if !eq_ignore_case(flag.as_str().as_bytes(), "PX".as_bytes()) {
        return Err(DecodeError::UnknownFlag(flag));
    }
    if chunks.len() <= 10 {
        return Err(DecodeError::MissingExpiry);
    }
    let token = match extract_text(chunks, 9) {
        Ok(token) => token,
        Err(why) => {
            return Err(why);
        },
    };
    proof {
        encode_utf8_decode_utf8(token@);
    }
    match parse_u64(token.as_str().as_bytes()) {
        Some(millis) => Ok(now as u128 + millis as u128 * NANOS_PER_MILLI as u128),
        None => Err(DecodeError::BadExpiry(token)),
    }
}

/// Reads a `SET` with a deadline from `chunks`, for a message read at the
/// instant `now`.
pub fn parse_set_expiry(chunks: &Vec<&str>, now: u64) -> (answer: Result<Command, DecodeError>)
    ensures
        decoded(answer) == set_expiry_of(bytes_of(chunks@), now),
{
    let key = match extract_text(chunks, 3) {
        Ok(key) => key,
        Err(why) => {
            return Err(why);
        },
    };
    let value = match extract_text(chunks, 5) {
        Ok(value) => value,
        Err(why) => {
            return Err(why);
        },
    };
    match extract_deadline(chunks, now) {
        Ok(deadline) => Ok(Command::SET(key, value, Some(deadline))),
        Err(why) => Err(why),
    }
}

/// Reads a `GET` from `chunks`.
pub fn parse_get(chunks: &Vec<&str>) -> (answer: Result<Command, DecodeError>)
    ensures
        decoded(answer) == get_of(bytes_of(chunks@)),
{
    match extract_text(chunks, 3) {
        Ok(key) => Ok(Command::GET(key)),
        Err(why) => Err(why),
    }
}

/// Reads every argument of `chunks` from the third on.
fn extract_values(chunks: &Vec<&str>) -> (values: Result<Vec<String>, DecodeError>)
    ensures
        match values {
            Ok(found) => values_from(bytes_of(chunks@), 5, Seq::empty()) == Ok::<
                _,
                DecodeErrorView,
            >(found.deep_view()),
            Err(why) => values_from(bytes_of(chunks@), 5, Seq::empty()) == Err::<
                Seq<Seq<char>>,
                _,
            >(why@),
        },
{
    let mut values: Vec<String> = Vec::new();
    let mut at: usize = 5;
    assert(values.deep_view() =~= Seq::<Seq<char>>::empty());
    while at < chunks.len()
        invariant
            values_from(bytes_of(chunks@), 5, Seq::empty()) == values_from(
                bytes_of(chunks@),
                at as int,
                values.deep_view(),
            ),
        decreases chunks.len() - at,
    {
        let ghost sofar = values.deep_view();
        match extract_text(chunks, at) {
            Ok(text) => {
                values.push(text);
                assert(values.deep_view() =~= sofar.push(text@));
            },
            Err(why) => {
                return Err(why);
            },
        }
        at += 2;
    }
    Ok(values)
}

/// Reads an `RPUSH` from `chunks`.
pub fn parse_rpush(chunks: &Vec<&str>) -> (answer: Result<Command, DecodeError>)
    ensures
        decoded(answer) == rpush_of(bytes_of(chunks@)),
{
    let key = match extract_text(chunks, 3) {
        Ok(key) => key,
        Err(why) => {
            return Err(why);
        },
    };
    match extract_values(chunks) {
        Ok(values) => Ok(Command::RPUSH(key, values)),
        Err(why) => Err(why),
    }
}

/// Reads an `LRANGE` from `chunks`.
pub fn parse_lrange(chunks: &Vec<&str>) -> (answer: Result<Command, DecodeError>)
    ensures
        decoded(answer) == lrange_of(bytes_of(chunks@)),
{
    let key = match extract_text(chunks, 3) {
        Ok(key) => key,
        Err(why) => {
            return Err(why);
        },
    };
    let start = match extract_int(chunks, 5) {
        Ok(start) => start,
        Err(why) => {
            return Err(why);
        },
    };
    let end = match extract_int(chunks, 7) {
        Ok(end) => end,
        Err(why) => {
            return Err(why);
        },
    };
    Ok(Command::LRANGE(key, start, end))
}

/// Reads an `LPUSH` from `chunks`.
pub fn parse_lpush(chunks: &Vec<&str>) -> (answer: Result<Command, DecodeError>)
    ensures
        decoded(answer) == lpush_of(bytes_of(chunks@)),
{
    let key = match extract_text(chunks, 3) {
        Ok(key) => key,
        Err(why) => {
            return Err(why);
        },
    };
    match extract_values(chunks) {
        Ok(values) => Ok(Command::LPUSH(key, values)),
        Err(why) => Err(why),
    }
}

/// Decodes the message `command` as read at the instant `now`, which is
/// counted in nanoseconds since the Unix epoch.
pub fn parse_command_at(command: &str, now: u64) -> (answer: Result<Command, DecodeError>)
    ensures
        decoded(answer) == command_of(lines(command.spec_bytes()), now),
{
    let chunks = split_lines(command);
    if chunks.len() == 0 {
        return Err(DecodeError::MissingMarker);
    }
    let name = match extract_text(&chunks, 1) {
        Ok(name) => name,
        Err(why) => {
            return Err(why);
        },
    };
    let marker = chunks[0].as_bytes();
    let word = name.as_str().as_bytes();
    proof {
        lemma_chunk_text(chunks[0]);
    }
    if eq_bytes(marker, "*1".as_bytes()) && eq_ignore_case(word, "PING".as_bytes()) {
        Ok(Command::PING)
    } else if eq_bytes(marker, "*2".as_bytes()) && eq_ignore_case(word, "ECHO".as_bytes()) {
        parse_echo(&chunks)
    } else if eq_bytes(marker, "*3".as_bytes()) && eq_ignore_case(word, "SET".as_bytes()) {
        parse_set(&chunks)
    } else if eq_bytes(marker, "*5".as_bytes()) && eq_ignore_case(word, "SET".as_bytes()) {
        parse_set_expiry(&chunks, now)
    } else if eq_bytes(marker, "*2".as_bytes()) && eq_ignore_case(word, "GET".as_bytes()) {
        parse_get(&chunks)
    } else if eq_ignore_case(word, "RPUSH".as_bytes()) {
        parse_rpush(&chunks)
    } else if eq_bytes(marker, "*4".as_bytes()) && eq_ignore_case(word, "LRANGE".as_bytes()) {
        parse_lrange(&chunks)
    } else if eq_ignore_case(word, "LPUSH".as_bytes()) {
        parse_lpush(&chunks)
    } else {
        Err(DecodeError::UnknownCommand(chunks[0].to_owned()))
    }
}

/// Tells whether `answer` reports what the decoder `found`: the same
/// command, or the sentence for the same reason.
pub open spec fn reports(
    answer: Result<Command, String>,
    found: Result<CommandView, DecodeErrorView>,
) -> bool {
    match answer {
        Ok(command) => found == Ok::<_, DecodeErrorView>(command@),
        Err(message) => found matches Err(why) && message@ == message_of(why),
    }
}

/// Decodes the message `command` as read now: the instant by which a
/// deadline is set is a reading of the system clock, taken during the call.
/// A message that is turned down comes back as the sentence that says why.
pub fn parse_command(command: &str) -> (answer: Result<Command, String>)
    ensures
        exists|now: u64| reports(answer, #[trigger] command_of(lines(command.spec_bytes()), now)),
{
    let now = now_nanos();
    let answer = match parse_command_at(command, now) {
        Ok(found) => Ok(found),
        Err(why) => Err(why.message()),
    };
    assert(reports(answer, command_of(lines(command.spec_bytes()), now)));
    answer
}

} // verus!
