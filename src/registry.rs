//! The handler registry and command dispatch.
use vstd::prelude::*;
use vstd::string::*;
use crate::vec_map::VecMap;
use crate::handler_config::ConfigHandler;
use crate::handler_set::SetHandler;
use crate::redis_command::{lower_of, RedisCommand};
use crate::redis_store::{IStore, ValueModel};
use crate::{state_of, RedisCommandHandler, StoreState};

verus! {

/// The reply to a command that no handler is registered for.
pub open spec fn not_found_reply() -> Seq<char> {
    "-ERR command not found"@
}

/// A table from command names to handlers. Names are compared exactly, so
/// they are registered in lower case, the form that `RedisCommand::name` gives.
pub struct Registry<H> {
    table: VecMap<H>,
}

impl<H> Registry<H> {
    /// The name table is well formed.
    pub closed spec fn well_formed(&self) -> bool {
        self.table.well_formed()
    }

    /// The handlers, by name.
    pub closed spec fn table(&self) -> Map<Seq<char>, H> {
        self.table.model()
    }

    /// An empty registry.
    pub fn new() -> (r: Registry<H>)
        ensures
            r.well_formed(),
            r.table() == Map::<Seq<char>, H>::empty(),
    {
        Registry { table: VecMap::new() }
    }

    /// Registers `handler` under `name`, replacing any handler of that name.
    pub fn register(&mut self, name: String, handler: H)
        requires
            old(self).well_formed(),
        ensures
            final(self).well_formed(),
            final(self).table() == old(self).table().insert(name@, handler),
    {
        self.table.insert(name, handler);
    }
}

impl<H: RedisCommandHandler> Registry<H> {
    /// Runs `cmd` through the handler registered under `name`. With no such
    /// handler the reply is `-ERR command not found` and the store is not touched.
    pub fn dispatch_named<S: IStore>(&self, name: &String, store: &mut S, cmd: &RedisCommand) -> (r:
        String)
        requires
            self.well_formed(),
            old(store).inv(),
        ensures
            final(store).inv(),
            !self.table().contains_key(name@) ==> r@ == not_found_reply() && *final(store) == *old(
                store,
            ),
            self.table().contains_key(name@) ==> {
                &&& final(store).is_closed() == old(store).is_closed()
                &&& final(store).discards_writes() == old(store).discards_writes()
                &&& (r@, final(store).entries()) == self.table()[name@].outcome(
                    state_of(&*old(store)),
                    cmd@,
                )
            },
    {
        match self.table.get(name) {
            Some(h) => h.exec(store, cmd),
            None => String::from_str("-ERR command not found"),
        }
    }

    /// Runs `cmd` through the handler registered under its lower-cased verb.
    /// With no such handler the reply is `-ERR command not found` and the
    /// store is not touched.
    pub fn dispatch<S: IStore>(&self, store: &mut S, cmd: &RedisCommand) -> (r: String)
        requires
            self.well_formed(),
            old(store).inv(),
            cmd@.len() > 0,
        ensures
            final(store).inv(),
            !self.table().contains_key(lower_of(cmd@[0])) ==> r@ == not_found_reply()
                && *final(store) == *old(store),
            self.table().contains_key(lower_of(cmd@[0])) ==> {
                &&& final(store).is_closed() == old(store).is_closed()
                &&& final(store).discards_writes() == old(store).discards_writes()
                &&& (r@, final(store).entries()) == self.table()[lower_of(cmd@[0])].outcome(
                    state_of(&*old(store)),
                    cmd@,
                )
            },
    {
        let name = cmd.name();
        self.dispatch_named(&name, store, cmd)
    }
}

/// The handlers this server ships with.
pub enum Builtin {
    ConfigCmd(ConfigHandler),
    SetCmd(SetHandler),
}

impl RedisCommandHandler for Builtin {
    open spec fn outcome(&self, before: StoreState, cmd: Seq<Seq<char>>) -> (Seq<char>, Map<
        Seq<char>,
        ValueModel,
    >) {
        match self {
            Builtin::ConfigCmd(h) => h.outcome(before, cmd),
            Builtin::SetCmd(h) => h.outcome(before, cmd),
        }
    }

    fn exec<S: IStore>(&self, store: &mut S, cmd: &RedisCommand) -> (r: String) {
        match self {
            Builtin::ConfigCmd(h) => h.exec(store, cmd),
            Builtin::SetCmd(h) => h.exec(store, cmd),
        }
    }
}

/// The registry of the built-in commands: `config` and `set`.
pub fn builtin_registry() -> (r: Registry<Builtin>)
    ensures
        r.well_formed(),
        r.table() == Map::<Seq<char>, Builtin>::empty().insert(
            "config"@,
            Builtin::ConfigCmd(ConfigHandler {}),
        ).insert("set"@, Builtin::SetCmd(SetHandler {})),
{
    let mut r: Registry<Builtin> = Registry::new();
    r.register(String::from_str("config"), Builtin::ConfigCmd(ConfigHandler {}));
    r.register(String::from_str("set"), Builtin::SetCmd(SetHandler {}));
    r
}

} // verus!
