pub mod edf_scheduler;
pub mod lst_scheduler;
pub mod ordering;
pub mod rm_scheduler;
pub mod scheduler;
pub mod utilization;
