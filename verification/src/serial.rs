//! Serial leaf: port discovery, cancellable byte I/O, and the Controller transport over it.

pub mod discovery;
pub mod error;
pub mod io;
pub mod text;
pub mod transport;
pub mod windows;
