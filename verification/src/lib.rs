//! A UART on two PIO state machines of an RP2040 or RP2350, without the
//! hardware.
//!
//! [`RpPioSerial`] keeps the software buffers, the settings and the counters,
//! and decides what is to be done to the hardware and when. It never touches
//! the hardware itself: an operation that needs it is a [`Job`], which a driver
//! resumes with what the hardware answered and which tells the driver what to
//! do next, or a reader, which works the same way.
//!
//! `model` says what a UART is and what each operation does to it; `laws` holds
//! what follows from that for whole runs, whatever the hardware answers.

pub mod clock;
pub mod config;
pub mod job;
pub mod laws;
pub mod model;
pub mod queue;
pub mod serial;
pub mod wire;

pub use config::{DataBits, InitError, Parity, ServiceMode, StopBits, UartConfig};
pub use job::Job;
pub use model::{Action, Event, Reception};
pub use serial::{Installation, MachineSetup, PinDirection, RpPioSerial, Startup};
pub use wire::ShiftDirection;
