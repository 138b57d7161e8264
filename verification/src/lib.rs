//! Driver core and interrupt-dispatch protocol for a RISC-V Platform-Level
//! Interrupt Controller (PLIC).
//!
//! The controller multiplexes up to 1023 interrupt sources onto a number of
//! contexts (hart and privilege level pairs). Every source has a priority,
//! every context a priority threshold, and a claim/complete handshake makes
//! sure that a pending source is serviced once and then re-armed.
//!
//! - [`nr`] and [`priority`] hold the validated value types, [`Nr`] and
//!   [`Priority`].
//! - [`layout`] says where every register lies, and which bit of a bitmap
//!   word belongs to a source.
//! - [`plic`] holds the registers of a controller as plain values.
//! - [`model`] is the controller as a mathematical object, with the laws of
//!   the claim/complete handshake.
//! - [`controller`] is the controller in software, [`Plic`], with the
//!   register accesses and the operations of the driver.
//! - [`dispatch`] is the dispatch protocol: a state machine, and its run on a
//!   controller.
//! - [`registry`] binds handlers to sources and keeps the storage of each.

pub mod controller;
pub mod dispatch;
pub mod layout;
pub mod model;
pub mod nr;
pub mod plic;
pub mod priority;
pub mod registry;

pub use crate::controller::Plic;
pub use crate::nr::{Nr, NrError};
pub use crate::priority::Priority;
