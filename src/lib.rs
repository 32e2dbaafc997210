//! Processing core of a small in-memory key-value server: a typed store,
//! a decoder for multi-bulk command frames, and a registry that dispatches
//! each command to its handler.
use vstd::prelude::*;
use crate::redis_command::RedisCommand;
use crate::redis_store::{IStore, ValueModel};

pub mod redis_store;
pub mod decoder;
pub mod redis_command;
pub mod handler_config;
pub mod handler_set;
pub mod registry;
pub mod vec_map;

verus! {

/// What a handler can observe of a store before it runs.
pub struct StoreState {
    pub entries: Map<Seq<char>, ValueModel>,
    pub closed: bool,
    pub discards: bool,
}

/// The observable state of a store.
pub open spec fn state_of<S: IStore>(s: &S) -> StoreState {
    StoreState { entries: s.entries(), closed: s.is_closed(), discards: s.discards_writes() }
}

/// Defines the behaviour of the command handlers.
///
/// A handler is a stateless value that executes one kind of command
/// against a store and answers with a one-line reply.
pub trait RedisCommandHandler {
    /// The reply, and the store's entries afterwards, when the command with
    /// arguments `cmd` runs on a store in state `before`.
    spec fn outcome(&self, before: StoreState, cmd: Seq<Seq<char>>) -> (Seq<char>, Map<
        Seq<char>,
        ValueModel,
    >);

    /// Executes a single command against the store.
    fn exec<S: IStore>(&self, store: &mut S, cmd: &RedisCommand) -> (r: String)
        requires
            old(store).inv(),
        ensures
            final(store).inv(),
            final(store).is_closed() == old(store).is_closed(),
            final(store).discards_writes() == old(store).discards_writes(),
            (r@, final(store).entries()) == self.outcome(state_of(&*old(store)), cmd@),
    ;
}

} // verus!
