//! What each command does to the stores, and the reply that it earns.

use crate::clock::now_nanos;
use crate::lists::{list_at, range_of, ListStore};
use crate::reply::{Reply, ReplyView};
use crate::store::{after_lookup, lookup, ScalarStore};
use vstd::prelude::*;

verus! {

/// Answers a `PING`.
pub fn handle_ping() -> (reply: Reply)
    ensures
        reply@ == ReplyView::Simple("PONG"@),
{
    Reply::Simple("PONG".to_owned())
}

/// Answers an `ECHO` with its own text.
pub fn handle_echo(text: &String) -> (reply: Reply)
    ensures
        reply@ == ReplyView::Bulk(text@),
{
    Reply::Bulk(text.clone())
}

/// Carries out a `SET`: the key holds the value and the deadline from now
/// on, whatever it held before.
pub fn handle_set(store: &mut ScalarStore, key: &String, value: &String, exp: &Option<u128>) -> (reply:
    Reply)
    ensures
        final(store)@ == old(store)@.insert(key@, (value@, *exp)),
        reply@ == ReplyView::Simple("OK"@),
{
    store.set(key.clone(), value.clone(), *exp);
    Reply::Simple("OK".to_owned())
}

/// The reply to a `GET` that finds `value`.
pub open spec fn get_reply(value: Option<Seq<char>>) -> ReplyView {
    match value {
        Some(text) => ReplyView::Bulk(text),
        None => ReplyView::Null,
    }
}

/// Carries out a `GET` at the instant `now`: the reply holds the value
/// under the key, or says that there is none; a value whose deadline has
/// passed is not given and leaves the store.
pub fn handle_get_at(store: &mut ScalarStore, key: &String, now: u64) -> (reply: Reply)
    ensures
        reply@ == get_reply(lookup(old(store)@, key@, now)),
        final(store)@ == after_lookup(old(store)@, key@, now),
{
    match store.get(key.as_str(), now) {
        Some(text) => Reply::Bulk(text),
        None => Reply::Null,
    }
}

/// Carries out a `GET` now: the instant by which deadlines are judged is a
/// reading of the system clock, taken during the call.
pub fn handle_get(store: &mut ScalarStore, key: &String) -> (reply: Reply)
    ensures
        exists|now: u64|
            {
                &&& reply@ == get_reply(#[trigger] lookup(old(store)@, key@, now))
                &&& final(store)@ == after_lookup(old(store)@, key@, now)
            },
{
    let now = now_nanos();
    let reply = handle_get_at(store, key, now);
    assert(reply@ == get_reply(lookup(old(store)@, key@, now)));
    reply
}

/// Carries out an `RPUSH`: the values go to the end of the list under the
/// key, and the reply counts the items that the list holds after that.
pub fn handle_rpush(store: &mut ListStore, key: &String, val_vec: &Vec<String>) -> (reply: Reply)
    ensures
        final(store)@ == old(store)@.insert(
            key@,
            list_at(old(store)@, key@) + val_vec.deep_view(),
        ),
        reply@ == ReplyView::Integer(list_at(final(store)@, key@).len()),
{
    Reply::Integer(store.rpush(key.as_str(), val_vec))
}

/// Carries out an `LPUSH`: the values go in front of the list under the
/// key, and the reply counts the items that the list holds after that.
pub fn handle_lpush(store: &mut ListStore, key: &String, val_vec: &Vec<String>) -> (reply: Reply)
    ensures
        final(store)@ == old(store)@.insert(
            key@,
            val_vec.deep_view() + list_at(old(store)@, key@),
        ),
        reply@ == ReplyView::Integer(list_at(final(store)@, key@).len()),
{
    Reply::Integer(store.lpush(key.as_str(), val_vec))
}

/// Carries out an `LRANGE`: the reply holds the items of the list under the
/// key that the two signed indexes select.
pub fn handle_lrange(store: &ListStore, key: &String, start: &i32, end: &i32) -> (reply: Reply)
    ensures
        reply@ == ReplyView::Array(range_of(list_at(store@, key@), *start as int, *end as int)),
{
    Reply::Array(store.lrange(key.as_str(), *start, *end))
}

} // verus!
