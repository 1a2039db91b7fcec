pub mod job;
pub mod task;
pub mod tick_info;
