//! Encoding of air-conditioner commands into an infrared remote-control
//! frame, and the pulse schedule that carries the frame over one output line.

pub mod command;
pub mod error;
pub mod frame;
pub mod transmit;
pub mod waveform;
