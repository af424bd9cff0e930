//! What a simulation is asked to run: tasks, control groups, timed events and
//! the knobs of the timing model.

use vstd::prelude::*;

use crate::types::{CpuId, Pid, TimeNs};

verus! {

/// One step of a task's behaviour.
#[derive(Clone, Copy, Debug, PartialEq, Eq, Structural)]
pub enum Phase {
    /// Compute for this long.
    Run(TimeNs),
    /// Sleep for this long.
    Sleep(TimeNs),
    /// Wake another task; takes no time.
    Wake(Pid),
}

/// What happens after the last phase.
#[derive(Clone, Copy, Debug, PartialEq, Eq, Structural)]
pub enum RepeatMode {
    /// The task exits.
    Once,
    /// The whole list runs this many times.
    Count(u32),
    /// The list runs until the simulation ends.
    Forever,
}

/// A task's phases and how often they run.
#[derive(Clone, Debug, PartialEq, Eq)]
pub struct TaskBehavior {
    pub phases: Vec<Phase>,
    pub repeat: RepeatMode,
}

/// One task of a scenario.
#[derive(Clone, Debug, PartialEq, Eq)]
pub struct TaskDef {
    pub pid: Pid,
    pub name: String,
    pub nice: i8,
    pub behavior: TaskBehavior,
    pub start_time_ns: TimeNs,
    /// CPUs the task may use; every CPU when absent.
    pub allowed_cpus: Option<Vec<CpuId>>,
    pub parent_pid: Option<Pid>,
    pub cgroup_name: Option<String>,
}

impl TaskDef {
    /// The CPU a task is first considered to have run on: the first CPU it is
    /// allowed on, or CPU 0 when it is unrestricted.
    pub open spec fn spec_initial_cpu(&self) -> CpuId {
        match self.allowed_cpus {
            Some(cpus) => if cpus@.len() > 0 {
                cpus@[0]
            } else {
                CpuId(0)
            },
            None => CpuId(0),
        }
    }

    /// The CPU a task is first considered to have run on.
    pub fn initial_cpu(&self) -> (r: CpuId)
        ensures
            r == self.spec_initial_cpu(),
    {
        match &self.allowed_cpus {
            Some(cpus) => if cpus.len() > 0 {
                cpus[0]
            } else {
                CpuId(0)
            },
            None => CpuId(0),
        }
    }
}

/// A `cpu.max` setting, in microseconds.
#[derive(Clone, Copy, Debug, PartialEq, Eq, Structural)]
pub struct BandwidthDef {
    pub period_us: u64,
    pub quota_us: u64,
    pub burst_us: u64,
}

/// One control group that exists before the scheduler is loaded.
#[derive(Clone, Debug, PartialEq, Eq)]
pub struct CgroupDef {
    pub name: String,
    pub parent_name: Option<String>,
    pub cpuset: Option<Vec<CpuId>>,
    pub bandwidth: Option<BandwidthDef>,
}

/// A CPU is plugged or unplugged.
#[derive(Clone, Copy, Debug, PartialEq, Eq, Structural)]
pub struct HotplugEvent {
    pub time_ns: TimeNs,
    pub cpu: CpuId,
    pub online: bool,
}

/// A higher-priority scheduler class borrows a CPU for a while.
#[derive(Clone, Copy, Debug, PartialEq, Eq, Structural)]
pub struct CpuPreemptEvent {
    pub cpu: CpuId,
    pub release_at_ns: TimeNs,
    pub acquire_at_ns: TimeNs,
}

/// A task moves between control groups.
#[derive(Clone, Debug, PartialEq, Eq)]
pub struct CgroupMigrateEvent {
    pub at_ns: TimeNs,
    pub pid: Pid,
    pub from_cgroup: String,
    pub to_cgroup: String,
}

/// A control group is created.
#[derive(Clone, Debug, PartialEq, Eq)]
pub struct CgroupCreateEvent {
    pub at_ns: TimeNs,
    pub name: String,
    pub parent_name: Option<String>,
    pub cpuset: Option<Vec<CpuId>>,
}

/// A control group is destroyed.
#[derive(Clone, Debug, PartialEq, Eq)]
pub struct CgroupDestroyEvent {
    pub at_ns: TimeNs,
    pub name: String,
}

/// A control group's CPU set changes.
#[derive(Clone, Debug, PartialEq, Eq)]
pub struct CgroupCpusetChangeEvent {
    pub at_ns: TimeNs,
    pub cgroup_name: String,
    pub new_cpuset: Vec<CpuId>,
}

/// Which kind of interrupt.
#[derive(Clone, Copy, Debug, PartialEq, Eq, Structural)]
pub enum IrqType {
    HardIrq,
    SoftIrq,
}

/// An interrupt on a CPU, which may wake tasks.
#[derive(Clone, Debug, PartialEq, Eq)]
pub struct IrqEvent {
    pub at_ns: TimeNs,
    pub cpu: CpuId,
    pub irq_type: IrqType,
    pub duration_ns: TimeNs,
    pub wake_pids: Vec<Pid>,
}

/// A futex transition as the scheduler's hook receives it.
#[derive(Clone, Copy, Debug, PartialEq, Eq, Structural)]
pub struct FutexOp {
    pub op: i32,
    pub ret: i64,
    /// The text that shows it stands at this index of the scenario's list.
    pub text: usize,
}

/// A futex transition of a task.
#[derive(Clone, Copy, Debug, PartialEq, Eq, Structural)]
pub struct FutexEvent {
    pub at_ns: TimeNs,
    pub pid: Pid,
    pub op: FutexOp,
}

/// Random variation of the timing model.
#[derive(Clone, Copy, Debug, PartialEq, Eq, Structural)]
pub struct NoiseConfig {
    pub enabled: bool,
    pub run_jitter: bool,
    /// Coefficient of variation of compute time, in parts per million.
    pub run_jitter_cv_ppm: u64,
    pub tick_jitter_stddev_ns: u64,
    pub initial_tick_skew_ns: u64,
}

/// Fixed costs of the timing model.
#[derive(Clone, Copy, Debug, PartialEq, Eq, Structural)]
pub struct OverheadConfig {
    pub enabled: bool,
    pub wakeup_latency_floor_ns: u64,
    pub migration_penalty_ns: u64,
    pub cross_llc_migration_penalty_ns: u64,
}

/// The hardware event that preemptive interleaving counts.
#[derive(Clone, Copy, Debug, PartialEq, Eq, Structural)]
pub enum PmuEvent {
    RetiredBranchConditional,
    InstructionsRetired,
}

/// How scheduler code is preempted.
#[derive(Clone, Copy, Debug, PartialEq, Eq, Structural)]
pub enum PreemptMode {
    Pmu,
    E9patch,
}

/// Preemptive interleaving of scheduler callbacks.
#[derive(Clone, Copy, Debug, PartialEq, Eq, Structural)]
pub struct PreemptiveConfig {
    pub timeslice_min: u64,
    pub timeslice_max: u64,
    pub cooperative_only: bool,
    pub break_on: PmuEvent,
    pub preempt_mode: PreemptMode,
}

/// Native concurrent dispatch.
#[derive(Clone, Copy, Debug, PartialEq, Eq, Structural)]
pub struct NativeConcurrentConfig {
    pub window_ns: u64,
}

/// Everything one simulation is asked to do.
#[derive(Clone, Debug, PartialEq, Eq)]
pub struct Scenario {
    pub nr_cpus: u32,
    pub smt_threads_per_core: u32,
    /// CPUs that share a last-level cache; zero puts all in one domain.
    pub cpus_per_llc: u32,
    pub tasks: Vec<TaskDef>,
    pub cgroups: Vec<CgroupDef>,
    pub max_cgroups: u32,
    pub seed: u32,
    pub fixed_priority: bool,
    pub duration_ns: TimeNs,
    pub warmup_ns: TimeNs,
    pub watchdog_timeout_ns: Option<TimeNs>,
    pub ignore_bpf_errors: bool,
    pub noise: NoiseConfig,
    pub overhead: OverheadConfig,
    pub sched_overhead_rbc_ns: Option<u64>,
    pub interleave: bool,
    pub stochastic_timer_interleave: bool,
    pub stochastic_timer_interleave_window_ns: TimeNs,
    pub stochastic_timer_interleave_one_in: u32,
    pub preemptive: Option<PreemptiveConfig>,
    pub native_concurrent: Option<NativeConcurrentConfig>,
    pub wait_debugger: bool,
    pub no_pmu_signal: bool,
    pub hotplug_events: Vec<HotplugEvent>,
    pub cpu_preempt_events: Vec<CpuPreemptEvent>,
    pub cgroup_migrate_events: Vec<CgroupMigrateEvent>,
    pub cgroup_create_events: Vec<CgroupCreateEvent>,
    pub cgroup_destroy_events: Vec<CgroupDestroyEvent>,
    pub cgroup_cpuset_change_events: Vec<CgroupCpusetChangeEvent>,
    pub irq_events: Vec<IrqEvent>,
    pub futex_events: Vec<FutexEvent>,
    /// The texts that show futex transitions.
    pub futex_texts: Vec<String>,
}

} // verus!
