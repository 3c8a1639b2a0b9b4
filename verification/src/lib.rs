pub mod clock;
pub mod digits;
pub mod message;
pub mod pipeline;
pub mod queue;
pub mod worker;
