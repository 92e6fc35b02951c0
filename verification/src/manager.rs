//! The transaction manager: one dedicated worker per environment.
//!
//! The engine ties write-transaction lifecycle calls to one thread, while
//! handles may live and die on any thread. Every write-side begin, commit
//! and abort is therefore phrased as a message; the worker takes one
//! message at a time, runs the engine call it asks for, and replies, so all
//! write-side lifecycle calls of an environment run serialized on the
//! worker's thread. `process_message` is one turn of that loop: what state
//! the environment is in after the worker has taken the message, acted and
//! replied. A caller that sends a message blocks until its reply arrives,
//! so to the caller the exchange is this one synchronous step.

use vstd::prelude::*;
use crate::environment::EnvState;
use crate::environment::Environment;
use crate::error::Error;

verus! {

/// A request to the manager. Each carries a single-use rendezvous for its
/// reply; the reply type below is what comes back over it.
pub enum TxnManagerMessage {
    /// Begin a child transaction under the parent with this id. The engine
    /// must run the begin call on the thread the parent is tied to, which
    /// is the worker's.
    Begin {
        /// The id of the parent transaction.
        parent_id: u64,
    },
    /// Commit: publish this state as the environment's committed state and
    /// finalize the native transaction.
    Commit {
        /// The committing transaction's state, handed over to the worker.
        work: EnvState,
    },
    /// Abort: finalize the native transaction; nothing is published.
    Abort {
        /// Whether the aborting transaction is nested. Aborting a nested
        /// transaction leaves the top-level writer open.
        nested: bool,
    },
}

/// The reply to one message.
pub enum TxnManagerReply {
    /// The child transaction began, with this id.
    Began {
        /// The new transaction's id.
        id: u64,
    },
    /// The commit finished; whether the engine reports a full durability
    /// flush.
    Committed {
        /// Whether a full sync occurred.
        full_sync: bool,
    },
    /// The abort finished.
    Aborted,
}

/// What must hold of a message before the worker takes it.
pub open spec fn message_wf(msg: TxnManagerMessage) -> bool {
    match msg {
        TxnManagerMessage::Commit { work } => work.wf(),
        _ => true,
    }
}

/// The id after `id`: the counter steps by one and wraps.
pub open spec fn next_id(id: u64) -> u64 {
    if id == u64::MAX {
        0
    } else {
        (id + 1) as u64
    }
}

fn bump_id(id: u64) -> (r: u64)
    ensures
        r == next_id(id),
{
    if id == u64::MAX {
        0
    } else {
        id + 1
    }
}

/// One turn of the worker loop: take one message, run the engine call it
/// asks for, reply, return to idle. A `Begin` allocates the child id and
/// touches nothing else; a `Commit` publishes the carried state and
/// releases the writer; an `Abort` releases the writer unless the aborting
/// transaction was nested, and never publishes anything. The model
/// engine's lifecycle calls do not fail, so every reply is `Ok`.
pub fn process_message(env: &mut Environment, msg: TxnManagerMessage) -> (r: Result<
    TxnManagerReply,
    Error,
>)
    requires
        old(env).wf(),
        old(env).manager_alive,
        message_wf(msg),
    ensures
        final(env).wf(),
        final(env).manager_alive,
        final(env).readers == old(env).readers,
        final(env).max_readers == old(env).max_readers,
        match msg {
            TxnManagerMessage::Begin { parent_id } => {
                &&& r == Ok::<TxnManagerReply, Error>(TxnManagerReply::Began {
                    id: old(env).next_txn_id,
                })
                &&& final(env).state == old(env).state
                &&& final(env).next_txn_id == next_id(old(env).next_txn_id)
                &&& final(env).writer_active == old(env).writer_active
            },
            TxnManagerMessage::Commit { work } => {
                &&& r == Ok::<TxnManagerReply, Error>(TxnManagerReply::Committed {
                    full_sync: false,
                })
                &&& final(env).state == work
                &&& final(env).next_txn_id == old(env).next_txn_id
                &&& !final(env).writer_active
            },
            TxnManagerMessage::Abort { nested } => {
                &&& r == Ok::<TxnManagerReply, Error>(TxnManagerReply::Aborted)
                &&& final(env).state == old(env).state
                &&& final(env).next_txn_id == old(env).next_txn_id
                &&& final(env).writer_active == (nested && old(env).writer_active)
            },
        },
{
    match msg {
        TxnManagerMessage::Begin { parent_id: _ } => {
            let id = env.next_txn_id;
            env.next_txn_id = bump_id(id);
            Ok(TxnManagerReply::Began { id })
        },
        TxnManagerMessage::Commit { work } => {
            env.state = work;
            env.writer_active = false;
            Ok(TxnManagerReply::Committed { full_sync: false })
        },
        TxnManagerMessage::Abort { nested } => {
            if !nested {
                env.writer_active = false;
            }
            Ok(TxnManagerReply::Aborted)
        },
    }
}

} // verus!
