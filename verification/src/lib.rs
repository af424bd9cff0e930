//! Deterministic simulation of sched_ext schedulers.

pub mod atomic_types;
pub mod backend;
pub mod calls;
pub mod cgroup;
pub mod cgroup_bw;
pub mod cgroup_events;
pub mod chaos;
pub mod clock_mode;
pub mod cpu_events;
pub mod debugger;
pub mod dispatch;
pub mod endings;
pub mod engine;
pub mod event_queue;
pub mod scenario;
pub mod layered;
pub mod layered_alloc;
pub mod layered_config;
pub mod layered_control;
pub mod layered_xnuma;
pub mod lifecycle;
pub mod perfetto;
pub mod progress;
pub mod replay;
pub mod run_options;
pub mod run_task;
pub mod sched_config;
pub mod scheduler_manifest;
pub mod scheduler_path;
pub mod served;
pub mod sim_state;
pub mod state;
pub mod steps;
pub mod stop_task;
pub mod summary;
pub mod text;
pub mod trace;
pub mod types;
pub mod wake;
