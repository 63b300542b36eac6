//! Multi-zone time-of-flight results decoding and a coordinator that
//! delivers the results of several sensors sharing one interrupt line.
pub mod results_data;
pub mod ranging_flock;
