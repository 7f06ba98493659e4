//! Core of an RTSP streaming server: maps request paths to media
//! descriptors, decides whether a media pipeline is created fresh per
//! client or shared across clients, and manages the lifecycle of that
//! pipeline as client sessions attach and detach.
//!
//! The actual media engine (encoding, muxing, clocking) and the RTSP
//! wire protocol are external collaborators: the dispatcher consumes
//! their notifications as plain events and answers with plain actions
//! that the surrounding process carries out.

pub mod errors;
pub mod pipeline;
pub mod session;
pub mod descriptor;
pub mod counting;
pub mod entry;
pub mod registry;
pub mod dispatcher;
pub mod laws;
