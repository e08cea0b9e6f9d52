use crate::backend::text::chars_of;
use crate::backend::types::{callback_number, SteamCallbackId, SteamClientError};
use vstd::prelude::*;

verus! {

/// A message taken from the Steam callback pipe: its callback number, whether
/// it carries a payload, and the payload's size in bytes.
pub struct PumpedMessage {
    pub id: i32,
    pub has_payload: bool,
    pub payload_size: i32,
}

/// Whether `msg` is a `UserStatsReceived` callback whose payload can be read:
/// present and at least `needed_size` bytes (the size of the callback struct).
pub fn is_user_stats_received(msg: &PumpedMessage, needed_size: i32) -> (b: bool)
    ensures
        b == (msg.id == callback_number(SteamCallbackId::UserStatsReceived) && msg.has_payload
            && msg.payload_size >= needed_size),
{
    msg.id == SteamCallbackId::UserStatsReceived.number() && msg.has_payload && msg.payload_size >= needed_size
}

/// Whether `msg` announces the completion of an API call whose handle can be
/// read: an `ApiCallCompleted` callback with a payload of at least
/// `needed_size` bytes. The call it completes is the one its handle names.
pub fn is_call_completion(msg: &PumpedMessage, needed_size: i32) -> (b: bool)
    ensures
        b == (msg.id == callback_number(SteamCallbackId::ApiCallCompleted) && msg.has_payload
            && msg.payload_size >= needed_size),
{
    msg.id == SteamCallbackId::ApiCallCompleted.number() && msg.has_payload && msg.payload_size >= needed_size
}

/// The app of a game id: its low 32 bits.
pub fn app_id_of_game(game_id: u64) -> (app_id: u32)
    ensures
        app_id == game_id % 0x1_0000_0000,
{
    let app_id = game_id as u32;
    assert(app_id == game_id % 0x1_0000_0000) by (bit_vector)
        requires
            app_id == game_id as u32,
    ;
    app_id
}

/// The payload of a completed call is usable only if the fetch succeeded and
/// Steam did not flag the call as failed.
pub fn payload_usable(fetched: bool, failed: bool) -> (b: bool)
    ensures
        b == (fetched && !failed),
{
    fetched && !failed
}

/// A name can be handed to the Steam client as a C string only if it holds
/// no NUL character.
pub open spec fn c_compatible(name: Seq<char>) -> bool {
    forall|i: int| 0 <= i < name.len() ==> name[i] != '\0'
}

/// Whether `name` can be passed to the Steam client.
pub fn native_name_ok(name: &str) -> (ok: bool)
    ensures
        ok == c_compatible(name@),
{
    let chars = chars_of(name);
    let mut i: usize = 0;
    while i < chars.len()
        invariant
            i <= chars.len(),
            chars@ == name@,
            forall|j: int| 0 <= j < i ==> chars@[j] != '\0',
        decreases chars.len() - i,
    {
        if chars[i] == '\0' {
            return false;
        }
        i = i + 1;
    }
    true
}

/// The answer of a client call that reports success with `ok` and fills in
/// `value`: a refusal is an `UnknownError`.
pub fn read_outcome<T>(ok: bool, value: T) -> (out: Result<T, SteamClientError>)
    ensures
        out == if ok {
            Ok::<T, SteamClientError>(value)
        } else {
            Err::<T, SteamClientError>(SteamClientError::UnknownError)
        },
{
    if ok {
        Ok(value)
    } else {
        Err(SteamClientError::UnknownError)
    }
}

} // verus!
