//! What holds of the library across its functions, stated of what goes in and what comes out.

pub mod calls;
pub mod completions;
pub mod extensions;
pub mod native_ops;
pub mod numbers;
pub mod programs;
pub mod realms;
pub mod runtimes;
pub mod texts;
pub mod turns;
pub mod values;
