//! Protocol engine for the W25Q32JV serial NOR flash.
//!
//! The crate turns byte-range reads, page-chunked writes and sector, block
//! and chip erases into the chip's command grammar. It performs no bus
//! traffic itself: every operation of the [`W25q32jv`] handle is a [`Job`]
//! that asks for one bus exchange at a time and is moved on with what the
//! chip answered, so the same engine serves a blocking transport and one
//! that suspends.
//!
//! What a job does is stated over its [`plan::Plan`], the tasks it still
//! has to carry out. The module [`chip`] holds a model of the chip and the
//! theorems on what jobs leave in its memory.

pub mod chip;
pub mod command;
pub mod driver;
pub mod error;
pub mod geometry;
pub mod job;
pub mod plan;
pub mod tasks;

pub use command::{Command, Frame};
pub use driver::W25q32jv;
pub use error::{Error, ErrorKind, Fault};
pub use job::{Job, Request};
pub use plan::{PollPolicy, Stage};
