//! Deterministic supervision for controller automation, and the serial leaf beneath it.
//!
//! Everything here is a value that its owner steps: a [`runtime::Runtime`] holds operations, tasks,
//! resources, deadlines, events and the cancellation hierarchy; [`serial`] holds port discovery,
//! byte I/O and the Controller transport. Threads, locks, clocks, callbacks and system calls stay
//! with the owner, who tells the core what happened and does what it asks for. Callbacks, hooks and
//! wakers are known here by number alone.

pub mod cancellation;
pub mod clock;
pub mod concurrency;
pub mod deadline;
pub mod event;
pub mod event_hub;
pub mod model;
pub mod operation;
pub mod runtime;
pub mod serial;
pub mod wait;
