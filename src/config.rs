use crate::cube::Move;
use vstd::prelude::*;

verus! {

/// One output action; `K` is the key symbol that the action sink knows.
#[derive(Debug, Clone, Copy, PartialEq, Eq)]
pub enum Action<K> {
    /// Press a key and hold it.
    Press(K),
    /// Release a held key.
    Release(K),
    /// Press and release a key.
    Click(K),
    /// Wait this many milliseconds before the next action.
    Delay(u64),
}

/// A trigger, a non-empty sequence of moves, and the actions that it fires,
/// in order.
pub struct Bind<K> {
    pub trigger: Vec<Move>,
    pub actions: Vec<Action<K>>,
}

/// The trigger table and the inactivity timeout in milliseconds.
pub struct Config<K> {
    pub timeout: u64,
    pub binds: Vec<Bind<K>>,
}

} // verus!
