//! Submission evaluation engine for a programming-contest site.
//!
//! The library judges a submitted solution by interpreting the message
//! stream of an external judging tool, persists the outcome into a
//! relational store, guards against concurrent evaluation of the same
//! submission, fans live status events out to subscribers, and recovers
//! queued submissions with a periodic sweep.  Process spawning, file and
//! network I/O and the actor plumbing live outside the library; every
//! decision the engine makes is verified here.

pub mod autodb;
pub mod decode;
pub mod evaluation;
pub mod events;
pub mod guard;
pub mod json;
pub mod messages;
pub mod num;
pub mod requests;
pub mod store;
