//! Guest memory snapshots taken by an external memory backend.
//!
//! - [`layout`]: which pages of the guest memory file a snapshot consists of; [`layout_laws`] holds
//!   what is proved of every layout.
//! - [`base64_bytes`]: the text form of a layout's page bitmap.
//! - [`snapshot`]: the configuration of snapshot creation and loading.
//! - [`protocol`]: the messages between a microVM and its memory backend, and their errors.
//! - [`connection`]: the byte stream that carries them; [`connection_laws`] holds what is proved of
//!   every stream.
//! - [`vmm`]: the microVM's side of the exchange, as decisions on what to do and to ask next. They
//!   are those of the state machine in [`exchange`]; [`step_laws`] holds what is proved of each step,
//!   [`exchange_laws`] what is proved of every exchange, and [`view_laws`] that what goes in and out
//!   is shown whole.

pub mod base64_bytes;
pub mod connection;
pub mod connection_laws;
pub mod exchange;
pub mod exchange_laws;
pub mod layout;
pub mod layout_laws;
pub mod protocol;
pub mod snapshot;
pub mod step_laws;
pub mod view_laws;
pub mod vmm;
