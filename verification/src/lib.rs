//! Verified core logic of a series of bare-metal firmware examples: a
//! millisecond tick counter, GPIO/UART register computations, LED state
//! tracking, decimal output, a flash-backed key-value store and a tiny
//! HTTP front end. Hardware access itself lives outside this library;
//! every function here computes on plain values.
pub mod clock;
pub mod storage;
pub mod leds;
pub mod http;
pub mod decimal;
pub mod regs;
pub mod demo;
