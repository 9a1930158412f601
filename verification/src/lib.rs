//! Core logic of the Liara personal assistant.
use vstd::prelude::*;

pub mod chars;
pub mod num;
pub mod scan;
pub mod gemma;
pub mod json;
pub mod toolcall;
pub mod stream;
pub mod format;
pub mod lower;
pub mod intent;
pub mod utf8;
pub mod docs;
pub mod speech;
pub mod contacts;
pub mod peer;
pub mod engine;
pub mod files;
pub mod calendar;
pub mod records;
pub mod sink;
pub mod crypto;
pub mod remote;
pub mod agent;
pub mod markers;
pub mod mcp;
pub mod memory;
pub mod turn;
pub mod cloud;
pub mod window;
pub mod mailtext;
pub mod mail;
pub mod download;
pub mod vision;
pub mod when;
pub mod device;
pub mod recall;
pub mod book;
pub mod mailbox;
pub mod keep;
pub mod memstore;

verus! {

} // verus!
