//! The SET command.
use vstd::prelude::*;
use vstd::string::*;
use vstd::utf8::encode_utf8;
use crate::redis_command::RedisCommand;
use crate::redis_store::{error_text, IStore, StoreError, Value, ValueKind, ValueModel};
use crate::{RedisCommandHandler, StoreState};

verus! {

/// The reply to a SET with fewer than a key and a value.
pub open spec fn set_arity_error() -> Seq<char> {
    "-ERR wrong number of arguments for 'set' command"@
}

/// The reply that the outcome of a store write turns into: `+OK`, or the
/// error's own text.
pub open spec fn write_reply(r: Result<(), StoreError>) -> Seq<char> {
    match r {
        Ok(_) => "+OK"@,
        Err(e) => error_text(e),
    }
}

/// Turns the outcome of a store write into a reply.
pub fn reply_of(r: &Result<(), StoreError>) -> (s: String)
    ensures
        s@ == write_reply(*r),
{
    match r {
        Ok(_) => String::from_str("+OK"),
        Err(e) => e.message(),
    }
}

/// Handles the SET command: `SET <key> <value>` stores `value`, as a
/// string-kind value holding its UTF-8 bytes, under `key`.
pub struct SetHandler {}

impl RedisCommandHandler for SetHandler {
    open spec fn outcome(&self, before: StoreState, cmd: Seq<Seq<char>>) -> (Seq<char>, Map<
        Seq<char>,
        ValueModel,
    >) {
        if cmd.len() < 3 {
            (set_arity_error(), before.entries)
        } else if before.closed {
            (error_text(StoreError::KeyNotFoundError), before.entries)
        } else if before.discards {
            ("+OK"@, before.entries)
        } else {
            (
                "+OK"@,
                before.entries.insert(
                    cmd[1],
                    ValueModel { kind: ValueKind::String, data: encode_utf8(cmd[2]) },
                ),
            )
        }
    }

    fn exec<S: IStore>(&self, store: &mut S, cmd: &RedisCommand) -> (r: String) {
        if cmd.len() < 3 {
            return String::from_str("-ERR wrong number of arguments for 'set' command");
        }
        let value = Value::new_string(cmd.arg(2).as_str().as_bytes_vec());
        let key = cmd.arg(1).clone();
        let res = store.set(key, value);
        reply_of(&res)
    }
}

} // verus!
