//! A small replicated key-value service built around the Raft log.
//!
//! The verified core lives here: the key-value store and its command
//! language, the traffic-light controller, the Raft logs and the consensus
//! state of leaders and followers. Networking, threads and JSON live in the
//! application crate beside this one.

pub mod kvstore;
pub mod text;
pub mod kvbasic;
pub mod kvcommand;
pub mod traffic;
pub mod raftlog;
pub mod termlog;
pub mod shared;
pub mod kvapp;
pub mod raftconsensus;
pub mod replication;
pub mod raftserver;
