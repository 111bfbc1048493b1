//! The answers that go back to a client, and how each is written on the
//! wire.

use crate::text::{decimal, push_decimal};
use vstd::prelude::*;
use vstd::string::StringExecFns;
use vstd::utf8::encode_utf8;

verus! {

/// An answer to a client.
#[derive(Debug, PartialEq, Eq)]
pub enum Reply {
    /// A short text that holds no line end.
    Simple(String),
    /// A text of any content, sent with its length.
    Bulk(String),
    /// The answer that there is no value.
    Null,
    /// A count.
    Integer(usize),
    /// A sequence of texts, each sent as a bulk text.
    Array(Vec<String>),
    /// The answer that the request was turned down, and why.
    Error(String),
}

/// What a `Reply` says, with each text as the sequence of its characters.
pub ghost enum ReplyView {
    Simple(Seq<char>),
    Bulk(Seq<char>),
    Null,
    Integer(nat),
    Array(Seq<Seq<char>>),
    Error(Seq<char>),
}

impl View for Reply {
    type V = ReplyView;

    open spec fn view(&self) -> ReplyView {
        match *self {
            Reply::Simple(text) => ReplyView::Simple(text@),
            Reply::Bulk(text) => ReplyView::Bulk(text@),
            Reply::Null => ReplyView::Null,
            Reply::Integer(count) => ReplyView::Integer(count as nat),
            Reply::Array(items) => ReplyView::Array(items.deep_view()),
            Reply::Error(message) => ReplyView::Error(message@),
        }
    }
}

/// The frame of a bulk text: `$`, the number of bytes that the text takes
/// on the wire, a line end, the text, a line end.
pub open spec fn bulk_frame(text: Seq<char>) -> Seq<char> {
    "$"@ + decimal(encode_utf8(text).len()) + "\r\n"@ + text + "\r\n"@
}

/// The bulk frames of `items`, one after the other.
pub open spec fn bulk_frames(items: Seq<Seq<char>>) -> Seq<char>
    decreases items.len(),
{
    if items.len() == 0 {
        Seq::empty()
    } else {
        bulk_frames(items.drop_last()) + bulk_frame(items.last())
    }
}

/// The frame that carries `reply` on the wire.
pub open spec fn frame(reply: ReplyView) -> Seq<char> {
    match reply {
        ReplyView::Simple(text) => "+"@ + text + "\r\n"@,
        ReplyView::Bulk(text) => bulk_frame(text),
        ReplyView::Null => "$-1\r\n"@,
        ReplyView::Integer(count) => ":"@ + decimal(count) + "\r\n"@,
        ReplyView::Array(items) => "*"@ + decimal(items.len()) + "\r\n"@ + bulk_frames(items),
        ReplyView::Error(message) => "-"@ + message + "\r\n"@,
    }
}

/// Writes the bulk frame of `text` at the end of `out`.
fn push_bulk(out: &mut String, text: &str)
    ensures
        final(out)@ == old(out)@ + bulk_frame(text@),
{
    out.append("$");
    push_decimal(out, text.as_bytes().len() as u128);
    out.append("\r\n");
    out.append(text);
    out.append("\r\n");
}

impl Reply {
    /// Writes the reply as the frame that carries it on the wire.
    pub fn encode(&self) -> (out: String)
        ensures
            out@ == frame(self@),
    {
        match self {
            Reply::Simple(text) => {
                let mut out = "+".to_owned();
                out.append(text.as_str());
                out.append("\r\n");
                out
            },
            Reply::Bulk(text) => {
                let mut out = String::new();
                push_bulk(&mut out, text.as_str());
                out
            },
            Reply::Null => "$-1\r\n".to_owned(),
            Reply::Integer(count) => {
                let mut out = ":".to_owned();
                push_decimal(&mut out, *count as u128);
                out.append("\r\n");
                out
            },
            Reply::Array(items) => {
                let mut out = "*".to_owned();
                push_decimal(&mut out, items.len() as u128);
                out.append("\r\n");
                let ghost head = out@;
                let mut i: usize = 0;
                while i < items.len()
                    invariant
                        0 <= i <= items.len(),
                        out@ == head + bulk_frames(items.deep_view().subrange(0, i as int)),
                    decreases items.len() - i,
                {
                    push_bulk(&mut out, items[i].as_str());
                    i += 1;
                    proof {
                        let done = items.deep_view().subrange(0, i as int);
                        assert(done.drop_last() =~= items.deep_view().subrange(0, i - 1));
                    }
                }
                proof {
                    assert(items.deep_view().subrange(0, i as int) =~= items.deep_view());
                }
                out
            },
            Reply::Error(message) => {
                let mut out = "-".to_owned();
                out.append(message.as_str());
                out.append("\r\n");
                out
            },
        }
    }
}

} // verus!
