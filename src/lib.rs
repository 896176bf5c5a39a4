//! Speech segmentation, rate-limited dispatch and speculative/confirmed
//! meeting-intelligence state, with contracts checked by Verus.
//!
//! Audio is carried as signed 16-bit PCM; confidences and weights as
//! integer thousandths; time as milliseconds handed in by the caller.

pub mod audio;
pub mod assembler;
pub mod text;
pub mod dispatch;
pub mod intelligence;
pub mod session;
