//! Core logic of a command-and-imaging server: a catalog of devices (keys),
//! queued commands and image records, the command lifecycle state machine,
//! the upload finalizer, and the directory reconciler.
pub mod catalog;
pub mod commands;
pub mod diagnostics;
pub mod facade;
pub mod images;
pub mod keys;
pub mod password;
pub mod reconcile;
pub mod settings;
pub mod status;
pub mod text;
pub mod upload;
pub mod user;
