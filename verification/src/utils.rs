//! The scheduler and the time model it works on.

pub mod counted;
pub mod instant;
pub mod lookahead;
pub mod rule;
pub mod task;

pub use counted::Counted;
pub use instant::Instant;
pub use instant::Zone;
pub use lookahead::Lookahead;
pub use rule::Rule;
pub use rule::ScheduleError;
pub use task::Cron;
pub use task::ExecutionError;
pub use task::Firing;
pub use task::Manager;
pub use task::Task;
