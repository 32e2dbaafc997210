//! The CONFIG command.
use vstd::prelude::*;
use vstd::string::*;
use crate::redis_command::RedisCommand;
use crate::redis_store::{IStore, ValueModel};
use crate::{RedisCommandHandler, StoreState};

verus! {

/// Handles the CONFIG command: it acknowledges and leaves the store alone.
pub struct ConfigHandler {}

impl RedisCommandHandler for ConfigHandler {
    open spec fn outcome(&self, before: StoreState, cmd: Seq<Seq<char>>) -> (Seq<char>, Map<
        Seq<char>,
        ValueModel,
    >) {
        ("+OK"@, before.entries)
    }

    fn exec<S: IStore>(&self, store: &mut S, cmd: &RedisCommand) -> (r: String) {
        String::from_str("+OK")
    }
}

} // verus!
