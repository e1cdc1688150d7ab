//! Engine core for running sandboxed applet programs in two modes:
//! offchain (one applet, immediate durable effect) and onchain (a batch of
//! applets executed as one round with a synchronization phase before results
//! are released).
//!
//! The crate holds the round logic itself: the layered transaction log each
//! applet writes through, the cross-applet task dependency graph and its
//! resolution order, the completion barrier, the applet execution-context
//! lifecycle, and the request correlator that turns an asynchronous transport
//! into synchronous calls.  The sandbox runtime, the durable key-value engine
//! and the message transport are outside collaborators reached through a thin
//! layer of declared interfaces.

pub mod correlator;
pub mod graph;
pub mod hostmsg;
pub mod jsonio;
pub mod kv;
pub mod machine;
pub mod ops;
pub mod pool;
pub mod resolve;
pub mod sched;
pub mod strutil;
pub mod txlog;
