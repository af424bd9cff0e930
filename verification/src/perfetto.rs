//! Traces in Perfetto's protobuf format, with the categories and annotations
//! that wprof uses, so that tools made for its traces read these too.
//!
//! There is one process, with a track for every CPU, named and numbered like
//! the CPU's idle thread, and a track for every task.

use perfetto_protos::debug_annotation::DebugAnnotation;
use perfetto_protos::process_descriptor::ProcessDescriptor;
use perfetto_protos::thread_descriptor::ThreadDescriptor;
use perfetto_protos::trace::Trace as TraceProto;
use perfetto_protos::trace_packet::TracePacket;
use perfetto_protos::track_descriptor::TrackDescriptor;
use perfetto_protos::track_event::{track_event, TrackEvent};
use protobuf::{Message, MessageField};
use vstd::prelude::*;

use crate::scenario::IrqType;
use crate::text::{dec, decimal, hex, prefixed_hex};
use crate::trace::{name_of, DispatchRejectReason, Trace, TraceEvent, TraceKind};
use crate::types::{CpuId, DsqId, Pid, DSQ_GLOBAL, DSQ_LOCAL};

verus! {

/// The track of the process.
pub const SCXSIM_PROCESS_UUID: u64 = 0x5C50_0000_0000_0001;

/// The number of the process.
pub const SCXSIM_PROCESS_PID: i32 = 0x5C51_5C51;

/// The sequence that every packet belongs to. Packets without one are ignored
/// by readers.
pub const SCXSIM_TRUSTED_SEQ_ID: u32 = 1;

/// Where the numbers of task tracks begin.
pub const TASK_TRACKS: u64 = 0x5C50_0100_0000_0000;

/// Where the numbers of CPU tracks begin.
pub const CPU_TRACKS: u64 = 0x5C50_0200_0000_0000;

/// Whether an event opens a slice, closes one, or is a moment.
#[derive(Clone, Copy, Debug, PartialEq, Eq, Structural)]
pub enum Slice {
    Begin,
    End,
    Instant,
}

/// What an annotation says.
pub enum AnnValue {
    Uint(u64),
    Int(i64),
    Flag(bool),
    Text(String),
}

/// A named annotation of an event.
pub struct Annotation {
    pub name: &'static str,
    pub value: AnnValue,
}

/// One event on a track.
pub struct Event {
    pub slice: Slice,
    pub track: u64,
    pub category: Option<&'static str>,
    pub name: Option<String>,
    pub annotations: Vec<Annotation>,
}

/// What an annotation says, as contracts see it.
pub enum ValueView {
    Uint(u64),
    Int(i64),
    Flag(bool),
    Text(Seq<char>),
}

/// An event as contracts see it.
#[verifier::ext_equal]
pub struct EventView {
    pub slice: Slice,
    pub track: u64,
    pub category: Option<Seq<char>>,
    pub name: Option<Seq<char>>,
    pub annotations: Seq<(Seq<char>, ValueView)>,
}

/// One packet of a trace, with the sequence that it belongs to, as contracts see
/// it.
pub enum PacketView {
    /// The track of a process.
    Process { seq_id: u32, uuid: u64, pid: i32, name: Seq<char> },
    /// The track of a thread of a process.
    Thread { seq_id: u32, uuid: u64, parent: u64, pid: i32, tid: i32, name: Seq<char> },
    /// An event at a time.
    Event { seq_id: u32, time_ns: u64, event: EventView },
}

impl View for AnnValue {
    type V = ValueView;

    open spec fn view(&self) -> ValueView {
        match self {
            AnnValue::Uint(v) => ValueView::Uint(*v),
            AnnValue::Int(v) => ValueView::Int(*v),
            AnnValue::Flag(v) => ValueView::Flag(*v),
            AnnValue::Text(t) => ValueView::Text(t@),
        }
    }
}

/// An annotation as contracts see it.
pub open spec fn ann_view(a: Annotation) -> (Seq<char>, ValueView) {
    (a.name@, a.value@)
}

impl View for Event {
    type V = EventView;

    open spec fn view(&self) -> EventView {
        EventView {
            slice: self.slice,
            track: self.track,
            category: match self.category {
                Some(c) => Some(c@),
                None => None,
            },
            name: match self.name {
                Some(n) => Some(n@),
                None => None,
            },
            annotations: self.annotations@.map_values(|a: Annotation| ann_view(a)),
        }
    }
}

/// An event with nothing but its track.
pub open spec fn opened(slice: Slice, track: u64) -> EventView {
    EventView { slice, track, category: None, name: None, annotations: Seq::empty() }
}

/// A number without a sign.
pub open spec fn uint(name: Seq<char>, v: u64) -> (Seq<char>, ValueView) {
    (name, ValueView::Uint(v))
}

/// A number with a sign.
pub open spec fn sint(name: Seq<char>, v: i64) -> (Seq<char>, ValueView) {
    (name, ValueView::Int(v))
}

/// A yes or no.
pub open spec fn flag(name: Seq<char>, v: bool) -> (Seq<char>, ValueView) {
    (name, ValueView::Flag(v))
}

/// A text.
pub open spec fn text(name: Seq<char>, v: Seq<char>) -> (Seq<char>, ValueView) {
    (name, ValueView::Text(v))
}

/// A yes or no as a number.
pub open spec fn bit(v: bool) -> u64 {
    if v {
        1
    } else {
        0
    }
}

fn bit_of(v: bool) -> (r: u64)
    ensures
        r == bit(v),
{
    if v {
        1
    } else {
        0
    }
}

impl EventView {
    pub open spec fn in_category(self, c: Seq<char>) -> EventView {
        EventView { category: Some(c), ..self }
    }

    pub open spec fn called(self, n: Seq<char>) -> EventView {
        EventView { name: Some(n), ..self }
    }

    pub open spec fn with(self, a: (Seq<char>, ValueView)) -> EventView {
        EventView { annotations: self.annotations.push(a), ..self }
    }

    /// With the task that it is about.
    pub open spec fn about(self, names: Seq<(Pid, String)>, pid: Pid) -> EventView {
        self.with(sint("pid"@, pid.0 as i64)).with(sint("tid"@, pid.0 as i64)).with(
            text("comm"@, name_of(names, pid)),
        )
    }
}

impl Event {
    fn open(slice: Slice, track: u64) -> (r: Event)
        ensures
            r@ == opened(slice, track),
    {
        let r = Event { slice, track, category: None, name: None, annotations: Vec::new() };
        proof {
            assert(r@ =~= opened(slice, track));
        }
        r
    }

    fn category(self, c: &'static str) -> (r: Event)
        ensures
            r@ == self@.in_category(c@),
    {
        let mut e = self;
        e.category = Some(c);
        e
    }

    fn name(self, n: String) -> (r: Event)
        ensures
            r@ == self@.called(n@),
    {
        let mut e = self;
        e.name = Some(n);
        e
    }

    fn with(self, name: &'static str, value: AnnValue) -> (r: Event)
        ensures
            r@ == self@.with((name@, value@)),
    {
        let mut e = self;
        let ghost before = e@.annotations;
        e.annotations.push(Annotation { name, value });
        proof {
            assert(e@.annotations =~= before.push((name@, value@)));
        }
        e
    }

    fn uint(self, name: &'static str, v: u64) -> (r: Event)
        ensures
            r@ == self@.with(uint(name@, v)),
    {
        self.with(name, AnnValue::Uint(v))
    }

    fn sint(self, name: &'static str, v: i64) -> (r: Event)
        ensures
            r@ == self@.with(sint(name@, v)),
    {
        self.with(name, AnnValue::Int(v))
    }

    fn flag(self, name: &'static str, v: bool) -> (r: Event)
        ensures
            r@ == self@.with(flag(name@, v)),
    {
        self.with(name, AnnValue::Flag(v))
    }

    fn text(self, name: &'static str, v: String) -> (r: Event)
        ensures
            r@ == self@.with(text(name@, v@)),
    {
        self.with(name, AnnValue::Text(v))
    }

    fn about(self, trace: &Trace, pid: Pid) -> (r: Event)
        ensures
            r@ == self@.about(trace.names@, pid),
    {
        self.sint("pid", pid.0 as i64).sint("tid", pid.0 as i64).text(
            "comm",
            trace.task_name(pid).to_string(),
        )
    }
}

/// The track of a task.
pub open spec fn task_uuid(pid: Pid) -> u64 {
    (TASK_TRACKS + pid.0 as u32) as u64
}

/// The track of a CPU.
pub open spec fn cpu_uuid(cpu: CpuId) -> u64 {
    (CPU_TRACKS + cpu.0) as u64
}

/// The track of a task.
pub fn task_track_uuid(pid: Pid) -> (r: u64)
    ensures
        r == task_uuid(pid),
{
    TASK_TRACKS + (pid.0 as u32) as u64
}

/// The track of a CPU.
pub fn cpu_track_uuid(cpu: CpuId) -> (r: u64)
    ensures
        r == cpu_uuid(cpu),
{
    CPU_TRACKS + cpu.0 as u64
}

/// The number of a CPU's idle thread.
pub fn cpu_swapper_tid(cpu: CpuId) -> (r: i32)
    requires
        cpu.0 < i32::MAX,
    ensures
        r == -(cpu.0 + 1),
{
    -(cpu.0 as i32 + 1)
}

/// Different tasks have different tracks, so have different CPUs, and no track
/// belongs to two of the process, a task and a CPU.
pub proof fn law_tracks_are_distinct(p: Pid, q: Pid, c: CpuId, d: CpuId)
    ensures
        p != q ==> task_uuid(p) != task_uuid(q),
        c != d ==> cpu_uuid(c) != cpu_uuid(d),
        task_uuid(p) != cpu_uuid(c),
        task_uuid(p) != SCXSIM_PROCESS_UUID,
        cpu_uuid(c) != SCXSIM_PROCESS_UUID,
{
    let (a, b) = (p.0, q.0);
    assert(a != b ==> a as u32 != b as u32) by (bit_vector);
}

/// The text of a queue's number.
pub open spec fn dsq_text(id: DsqId) -> Seq<char> {
    if id.0 == DSQ_GLOBAL {
        "GLOBAL"@
    } else if id.0 == DSQ_LOCAL {
        "LOCAL"@
    } else if id.spec_is_local_on() {
        "LOCAL_ON("@ + decimal((id.0 % 0x1_0000_0000) as nat) + ")"@
    } else {
        prefixed_hex(id.0 as nat)
    }
}

/// The text of a queue's number.
pub fn format_dsq_id(dsq_id: DsqId) -> (r: String)
    ensures
        r@ == dsq_text(dsq_id),
{
    if dsq_id.0 == DSQ_GLOBAL {
        "GLOBAL".to_string()
    } else if dsq_id.is_local() {
        "LOCAL".to_string()
    } else if dsq_id.is_local_on() {
        let mut s = "LOCAL_ON(".to_string();
        s.append(dec(dsq_id.local_on_cpu().0 as u64).as_str());
        s.append(")");
        s
    } else {
        hex(dsq_id.0)
    }
}

/// The text of a reason to refuse a dispatch.
pub open spec fn reason_text(reason: DispatchRejectReason) -> Seq<char> {
    match reason {
        DispatchRejectReason::CpumaskViolation => "cpumask_violation"@,
        DispatchRejectReason::MigrationDisabled => "migration_disabled"@,
    }
}

fn reason_name(reason: DispatchRejectReason) -> (r: &'static str)
    ensures
        r@ == reason_text(reason),
{
    match reason {
        DispatchRejectReason::CpumaskViolation => "cpumask_violation",
        DispatchRejectReason::MigrationDisabled => "migration_disabled",
    }
}

/// The category of an interrupt.
pub open spec fn irq_text(irq_type: IrqType) -> Seq<char> {
    match irq_type {
        IrqType::HardIrq => "HARDIRQ"@,
        IrqType::SoftIrq => "SOFTIRQ"@,
    }
}

fn irq_name(irq_type: IrqType) -> (r: &'static str)
    ensures
        r@ == irq_text(irq_type),
{
    match irq_type {
        IrqType::HardIrq => "HARDIRQ",
        IrqType::SoftIrq => "SOFTIRQ",
    }
}

/// The entry of a list of texts; nothing where there is none.
pub open spec fn entry(texts: Seq<String>, i: usize) -> Seq<char> {
    if i < texts.len() {
        texts[i as int]@
    } else {
        ""@
    }
}

fn entry_of(texts: &Vec<String>, i: usize) -> (r: String)
    ensures
        r@ == entry(texts@, i),
{
    if i < texts.len() {
        texts[i].clone()
    } else {
        "".to_string()
    }
}

/// What is shown of a recorded event: a slice on the task's track while it
/// runs, and moments on the tracks of tasks and CPUs.
pub open spec fn shown(
    names: Seq<(Pid, String)>,
    masks: Seq<String>,
    futex_texts: Seq<String>,
    ev: TraceEvent,
) -> EventView {
    let cpu = ev.cpu;
    match ev.kind {
        TraceKind::TaskScheduled { pid } => opened(Slice::Begin, task_uuid(pid))
            .in_category("ONCPU"@)
            .called(name_of(names, pid))
            .with(uint("cpu"@, cpu.0 as u64))
            .about(names, pid),
        TraceKind::TaskPreempted { pid } => opened(Slice::End, task_uuid(pid))
            .in_category("ONCPU"@)
            .with(uint("cpu"@, cpu.0 as u64))
            .with(sint("pid"@, pid.0 as i64))
            .with(sint("tid"@, pid.0 as i64))
            .with(text("offcpu_reason"@, "preempted"@)),
        TraceKind::TaskYielded { pid } => opened(Slice::End, task_uuid(pid))
            .in_category("ONCPU"@)
            .with(uint("cpu"@, cpu.0 as u64))
            .with(sint("pid"@, pid.0 as i64))
            .with(sint("tid"@, pid.0 as i64))
            .with(text("offcpu_reason"@, "yielded"@)),
        TraceKind::TaskSlept { pid } => opened(Slice::End, task_uuid(pid))
            .in_category("ONCPU"@)
            .with(uint("cpu"@, cpu.0 as u64))
            .with(sint("pid"@, pid.0 as i64))
            .with(sint("tid"@, pid.0 as i64))
            .with(text("offcpu_reason"@, "slept"@)),
        TraceKind::TaskCompleted { pid } => opened(Slice::End, task_uuid(pid))
            .in_category("ONCPU"@)
            .with(uint("cpu"@, cpu.0 as u64))
            .with(sint("pid"@, pid.0 as i64))
            .with(sint("tid"@, pid.0 as i64))
            .with(text("offcpu_reason"@, "completed"@)),
        TraceKind::SimulationEnd { pid } => opened(Slice::End, task_uuid(pid))
            .in_category("ONCPU"@)
            .with(uint("cpu"@, cpu.0 as u64))
            .with(sint("pid"@, pid.0 as i64))
            .with(sint("tid"@, pid.0 as i64))
            .with(text("offcpu_reason"@, "sim_end"@)),
        TraceKind::TaskWoke { pid } => opened(Slice::Instant, task_uuid(pid))
            .in_category("WAKEE"@)
            .called("WAKEE"@)
            .with(uint("target_cpu"@, cpu.0 as u64))
            .with(sint("wakee_pid"@, pid.0 as i64))
            .with(sint("wakee_tid"@, pid.0 as i64))
            .with(text("wakee_comm"@, name_of(names, pid))),
        TraceKind::CpuIdle => opened(Slice::Instant, cpu_uuid(cpu))
            .in_category("IDLE"@)
            .called("CPU_IDLE"@)
            .with(uint("cpu"@, cpu.0 as u64)),
        TraceKind::DsqInsert { pid, dsq_id, slice } => opened(Slice::Instant, task_uuid(pid))
            .in_category("SCX_DSQ"@)
            .called("dsq_insert"@)
            .with(uint("cpu"@, cpu.0 as u64))
            .with(uint("scx_dsq_id"@, dsq_id.0))
            .with(text("scx_dsq"@, dsq_text(dsq_id)))
            .with(uint("slice_ns"@, slice))
            .about(names, pid),
        TraceKind::DsqInsertVtime { pid, dsq_id, slice, vtime } => opened(Slice::Instant, task_uuid(pid))
            .in_category("SCX_DSQ"@)
            .called("dsq_insert_vtime"@)
            .with(uint("cpu"@, cpu.0 as u64))
            .with(uint("scx_dsq_id"@, dsq_id.0))
            .with(text("scx_dsq"@, dsq_text(dsq_id)))
            .with(uint("slice_ns"@, slice))
            .with(uint("vtime"@, vtime.0))
            .about(names, pid),
        TraceKind::KickCpu { target_cpu } => opened(Slice::Instant, cpu_uuid(cpu))
            .in_category("IPI_SEND"@)
            .called("IPI_SEND:single"@)
            .with(uint("sender_cpu"@, cpu.0 as u64))
            .with(uint("target_cpu"@, target_cpu.0 as u64)),
        TraceKind::Tick { pid } => opened(Slice::Instant, cpu_uuid(cpu))
            .in_category("SOFTIRQ"@)
            .called("SOFTIRQ:timer"@)
            .with(uint("cpu"@, cpu.0 as u64))
            .about(names, pid),
        TraceKind::IrqStart { cpu: irq_cpu, irq_type } => opened(Slice::Begin, cpu_uuid(irq_cpu))
            .in_category(irq_text(irq_type))
            .called(irq_text(irq_type))
            .with(uint("cpu"@, irq_cpu.0 as u64)),
        TraceKind::IrqEnd { cpu: irq_cpu } => opened(Slice::End, cpu_uuid(irq_cpu))
            .with(uint("cpu"@, irq_cpu.0 as u64)),
        TraceKind::PutPrevTask { pid, still_runnable } => opened(Slice::Instant, cpu_uuid(cpu))
            .in_category("SCXSIM_OPS"@)
            .called("put_prev_task"@)
            .with(flag("still_runnable"@, still_runnable))
            .about(names, pid),
        TraceKind::SelectTaskRq { pid, prev_cpu, selected_cpu } => opened(Slice::Instant, cpu_uuid(cpu))
            .in_category("SCXSIM_OPS"@)
            .called("select_task_rq"@)
            .with(uint("prev_cpu"@, prev_cpu.0 as u64))
            .with(uint("selected_cpu"@, selected_cpu.0 as u64))
            .about(names, pid),
        TraceKind::EnqueueTask { pid, enq_flags } => opened(Slice::Instant, cpu_uuid(cpu))
            .in_category("SCXSIM_OPS"@)
            .called("enqueue_task"@)
            .with(uint("enq_flags"@, enq_flags))
            .about(names, pid),
        TraceKind::Balance { prev_pid } => match prev_pid {
            Some(p) => opened(Slice::Instant, cpu_uuid(cpu)).in_category("SCXSIM_OPS"@).called("balance"@).with(sint("prev_pid"@, p.0 as i64)),
            None => opened(Slice::Instant, cpu_uuid(cpu)).in_category("SCXSIM_OPS"@).called("balance"@),
        },
        TraceKind::PickTask { pid } => opened(Slice::Instant, cpu_uuid(cpu))
            .in_category("SCXSIM_OPS"@)
            .called("pick_task"@)
            .about(names, pid),
        TraceKind::SetNextTask { pid } => opened(Slice::Instant, cpu_uuid(cpu))
            .in_category("SCXSIM_OPS"@)
            .called("set_next_task"@)
            .about(names, pid),
        TraceKind::DsqMoveToLocal { dsq_id, success } => opened(Slice::Instant, cpu_uuid(cpu))
            .in_category("SCXSIM_OPS"@)
            .called("dsq_move_to_local"@)
            .with(uint("scx_dsq_id"@, dsq_id.0))
            .with(text("scx_dsq"@, dsq_text(dsq_id)))
            .with(flag("success"@, success)),
        TraceKind::DispatchRejected { pid, target_cpu, reason } => opened(Slice::Instant, cpu_uuid(cpu))
            .in_category("SCXSIM_OPS"@)
            .called("dispatch_rejected"@)
            .with(uint("target_cpu"@, target_cpu.0 as u64))
            .with(text("reason"@, reason_text(reason)))
            .about(names, pid),
        TraceKind::CgroupBwCharge { pid, cgid, delta_ns } => opened(Slice::Instant, cpu_uuid(cpu))
            .in_category("SCXSIM_CGROUP_BW"@)
            .called("cgroup_bw_charge"@)
            .with(uint("cpu"@, cpu.0 as u64))
            .with(uint("cgid"@, cgid.0))
            .with(uint("delta_ns"@, delta_ns))
            .about(names, pid),
        TraceKind::CgroupBwDenied { pid, cgid } => opened(Slice::Instant, cpu_uuid(cpu))
            .in_category("SCXSIM_CGROUP_BW"@)
            .called("cgroup_bw_denied"@)
            .with(uint("cgid"@, cgid.0))
            .with(uint("cpu"@, cpu.0 as u64))
            .about(names, pid),
        TraceKind::CgroupBwDequeueOnThrottle { pid, cgid } => opened(Slice::Instant, cpu_uuid(cpu))
            .in_category("SCXSIM_CGROUP_BW"@)
            .called("cgroup_bw_dequeue_on_throttle"@)
            .with(uint("cgid"@, cgid.0))
            .with(uint("cpu"@, cpu.0 as u64))
            .about(names, pid),
        TraceKind::CgroupBwReenqueueOnReplenish { pid, cgid } => opened(Slice::Instant, cpu_uuid(cpu))
            .in_category("SCXSIM_CGROUP_BW"@)
            .called("cgroup_bw_reenqueue_on_replenish"@)
            .with(uint("cgid"@, cgid.0))
            .with(uint("cpu"@, cpu.0 as u64))
            .about(names, pid),
        TraceKind::LavdBailOnCgroupThrottle { pid, cgid } => opened(Slice::Instant, cpu_uuid(cpu))
            .in_category("SCXSIM_LAVD_BAIL_CGT"@)
            .called("lavd_bail_on_cgroup_throttle"@)
            .with(uint("cgid"@, cgid.0))
            .with(uint("cpu"@, cpu.0 as u64))
            .about(names, pid),
        TraceKind::LavdReenqueueViaBtqDrain { cgid } => opened(Slice::Instant, cpu_uuid(cpu))
            .in_category("SCXSIM_LAVD_REENQ_BTQ"@)
            .called("lavd_reenqueue_via_btq_drain"@)
            .with(uint("cgid"@, cgid.0))
            .with(uint("cpu"@, cpu.0 as u64)),
        TraceKind::CgroupBwConsumeNs { cgid, ns } => opened(Slice::Instant, cpu_uuid(cpu))
            .in_category("SCXSIM_CGROUP_BW"@)
            .called("cgroup_bw_consume"@)
            .with(uint("cgid"@, cgid.0))
            .with(uint("ns"@, ns))
            .with(uint("cpu"@, cpu.0 as u64)),
        TraceKind::CgroupBwReplenish { cgid, runtime_total_last, period_budget_in, debt, burst_credit, period_budget_out, keep_throttled } => opened(Slice::Instant, cpu_uuid(cpu))
            .in_category("SCXSIM_CGROUP_BW"@)
            .called("cgroup_bw_replenish"@)
            .with(uint("cgid"@, cgid.0))
            .with(sint("runtime_total_last"@, runtime_total_last))
            .with(sint("period_budget_in"@, period_budget_in))
            .with(sint("debt"@, debt))
            .with(sint("burst_credit"@, burst_credit))
            .with(sint("period_budget_out"@, period_budget_out))
            .with(uint("keep_throttled"@, bit(keep_throttled))),
        TraceKind::Runnable { pid, enq_flags } => opened(Slice::Instant, cpu_uuid(cpu))
            .in_category("SCXSIM_STRUCTOP"@)
            .called("ops.runnable"@)
            .with(sint("pid"@, pid.0 as i64))
            .with(uint("enq_flags"@, enq_flags)),
        TraceKind::Dequeue { pid, deq_flags } => opened(Slice::Instant, cpu_uuid(cpu))
            .in_category("SCXSIM_STRUCTOP"@)
            .called("ops.dequeue"@)
            .with(sint("pid"@, pid.0 as i64))
            .with(uint("deq_flags"@, deq_flags)),
        TraceKind::Quiescent { pid, deq_flags } => opened(Slice::Instant, cpu_uuid(cpu))
            .in_category("SCXSIM_STRUCTOP"@)
            .called("ops.quiescent"@)
            .with(sint("pid"@, pid.0 as i64))
            .with(uint("deq_flags"@, deq_flags)),
        TraceKind::UpdateIdle { cpu: idle_cpu, idle } => opened(Slice::Instant, cpu_uuid(cpu))
            .in_category("SCXSIM_STRUCTOP"@)
            .called("ops.update_idle"@)
            .with(uint("cpu"@, idle_cpu.0 as u64))
            .with(uint("idle"@, bit(idle))),
        TraceKind::CgroupInit { cgid, rc } => opened(Slice::Instant, cpu_uuid(cpu))
            .in_category("SCXSIM_STRUCTOP"@)
            .called("ops.cgroup_init"@)
            .with(uint("cgid"@, cgid.0))
            .with(sint("rc"@, rc as i64)),
        TraceKind::CgroupExit { cgid } => opened(Slice::Instant, cpu_uuid(cpu))
            .in_category("SCXSIM_STRUCTOP"@)
            .called("ops.cgroup_exit"@)
            .with(uint("cgid"@, cgid.0)),
        TraceKind::CgroupSetBandwidth { cgid, period_us, quota_us, burst_us } => opened(Slice::Instant, cpu_uuid(cpu))
            .in_category("SCXSIM_STRUCTOP"@)
            .called("ops.cgroup_set_bandwidth"@)
            .with(uint("cgid"@, cgid.0))
            .with(uint("period_us"@, period_us))
            .with(uint("quota_us"@, quota_us))
            .with(uint("burst_us"@, burst_us)),
        TraceKind::CgroupMove { pid, from_cgid, to_cgid } => opened(Slice::Instant, cpu_uuid(cpu))
            .in_category("SCXSIM_STRUCTOP"@)
            .called("ops.cgroup_move"@)
            .with(sint("pid"@, pid.0 as i64))
            .with(uint("from_cgid"@, from_cgid.0))
            .with(uint("to_cgid"@, to_cgid.0)),
        TraceKind::InitTask { pid, rc } => opened(Slice::Instant, cpu_uuid(cpu))
            .in_category("SCXSIM_STRUCTOP"@)
            .called("ops.init_task"@)
            .with(sint("pid"@, pid.0 as i64))
            .with(sint("rc"@, rc as i64)),
        TraceKind::ExitTask { pid } => opened(Slice::Instant, cpu_uuid(cpu))
            .in_category("SCXSIM_STRUCTOP"@)
            .called("ops.exit_task"@)
            .with(sint("pid"@, pid.0 as i64)),
        TraceKind::Enable { pid } => opened(Slice::Instant, cpu_uuid(cpu))
            .in_category("SCXSIM_STRUCTOP"@)
            .called("ops.enable"@)
            .with(sint("pid"@, pid.0 as i64)),
        TraceKind::SetCpumask { pid, mask } => opened(Slice::Instant, cpu_uuid(cpu))
            .in_category("SCXSIM_STRUCTOP"@)
            .called("ops.set_cpumask"@)
            .with(sint("pid"@, pid.0 as i64))
            .with(text("cpumask_hex"@, entry(masks, mask))),
        TraceKind::HelperNow { ret_ns } => opened(Slice::Instant, cpu_uuid(cpu))
            .in_category("SCXSIM_STRUCTOP"@)
            .called("scx_bpf_now"@)
            .with(uint("ret_ns"@, ret_ns)),
        TraceKind::HelperTaskCgroup { pid, cgid } => opened(Slice::Instant, cpu_uuid(cpu))
            .in_category("SCXSIM_STRUCTOP"@)
            .called("scx_bpf_task_cgroup"@)
            .with(sint("pid"@, pid.0 as i64))
            .with(uint("cgid"@, cgid.0)),
        TraceKind::HelperTaskCpu { pid, ret_cpu } => opened(Slice::Instant, cpu_uuid(cpu))
            .in_category("SCXSIM_STRUCTOP"@)
            .called("scx_bpf_task_cpu"@)
            .with(sint("pid"@, pid.0 as i64))
            .with(uint("ret_cpu"@, ret_cpu.0 as u64)),
        TraceKind::CreateDsq { dsq_id, node, rc } => opened(Slice::Instant, cpu_uuid(cpu))
            .in_category("SCXSIM_STRUCTOP"@)
            .called("scx_bpf_create_dsq"@)
            .with(uint("dsq_id"@, dsq_id.0))
            .with(sint("node"@, node as i64))
            .with(sint("rc"@, rc as i64)),
        TraceKind::DestroyDsq { dsq_id } => opened(Slice::Instant, cpu_uuid(cpu))
            .in_category("SCXSIM_STRUCTOP"@)
            .called("scx_bpf_destroy_dsq"@)
            .with(uint("dsq_id"@, dsq_id.0)),
        TraceKind::DsqNrQueued { dsq_id, ret } => opened(Slice::Instant, cpu_uuid(cpu))
            .in_category("SCXSIM_STRUCTOP"@)
            .called("scx_bpf_dsq_nr_queued"@)
            .with(uint("dsq_id"@, dsq_id.0))
            .with(sint("ret"@, ret as i64)),
        TraceKind::CbwPutAside { cgid, count, btq_len_after } => opened(Slice::Instant, cpu_uuid(cpu))
            .in_category("SCXSIM_STRUCTOP"@)
            .called("cbw_put_aside"@)
            .with(uint("cgid"@, cgid.0))
            .with(uint("count"@, count as u64))
            .with(uint("btq_len_after"@, btq_len_after as u64)),
        TraceKind::CbwDrainBtqBatch { cgid, count, btq_len_after } => opened(Slice::Instant, cpu_uuid(cpu))
            .in_category("SCXSIM_STRUCTOP"@)
            .called("cbw_drain_btq_batch"@)
            .with(uint("cgid"@, cgid.0))
            .with(uint("count"@, count as u64))
            .with(uint("btq_len_after"@, btq_len_after as u64)),
        TraceKind::CbwThrottleCgroups { cgid, throttled } => opened(Slice::Instant, cpu_uuid(cpu))
            .in_category("SCXSIM_STRUCTOP"@)
            .called("cbw_throttle_cgroups"@)
            .with(uint("cgid"@, cgid.0))
            .with(uint("throttled"@, bit(throttled))),
        TraceKind::FutexBoost { pid, op, boosted } => opened(Slice::Instant, cpu_uuid(cpu))
            .in_category("SCXSIM_STRUCTOP"@)
            .called("futex_boost"@)
            .with(sint("pid"@, pid.0 as i64))
            .with(text("op"@, entry(futex_texts, op.text)))
            .with(uint("boosted"@, bit(boosted))),
    }
}

/// What is shown of a recorded event.
pub fn event_of(trace: &Trace, ev: &TraceEvent) -> (r: Event)
    ensures
        r@ == shown(trace.names@, trace.masks@, trace.futex_texts@, *ev),
{
    let cpu = ev.cpu;
    match ev.kind {
        TraceKind::TaskScheduled { pid } => Event::open(Slice::Begin, task_track_uuid(pid))
            .category("ONCPU")
            .name(trace.task_name(pid).to_string())
            .uint("cpu", cpu.0 as u64)
            .about(trace, pid),
        TraceKind::TaskPreempted { pid } => Event::open(Slice::End, task_track_uuid(pid))
            .category("ONCPU")
            .uint("cpu", cpu.0 as u64)
            .sint("pid", pid.0 as i64)
            .sint("tid", pid.0 as i64)
            .text("offcpu_reason", "preempted".to_string()),
        TraceKind::TaskYielded { pid } => Event::open(Slice::End, task_track_uuid(pid))
            .category("ONCPU")
            .uint("cpu", cpu.0 as u64)
            .sint("pid", pid.0 as i64)
            .sint("tid", pid.0 as i64)
            .text("offcpu_reason", "yielded".to_string()),
        TraceKind::TaskSlept { pid } => Event::open(Slice::End, task_track_uuid(pid))
            .category("ONCPU")
            .uint("cpu", cpu.0 as u64)
            .sint("pid", pid.0 as i64)
            .sint("tid", pid.0 as i64)
            .text("offcpu_reason", "slept".to_string()),
        TraceKind::TaskCompleted { pid } => Event::open(Slice::End, task_track_uuid(pid))
            .category("ONCPU")
            .uint("cpu", cpu.0 as u64)
            .sint("pid", pid.0 as i64)
            .sint("tid", pid.0 as i64)
            .text("offcpu_reason", "completed".to_string()),
        TraceKind::SimulationEnd { pid } => Event::open(Slice::End, task_track_uuid(pid))
            .category("ONCPU")
            .uint("cpu", cpu.0 as u64)
            .sint("pid", pid.0 as i64)
            .sint("tid", pid.0 as i64)
            .text("offcpu_reason", "sim_end".to_string()),
        TraceKind::TaskWoke { pid } => Event::open(Slice::Instant, task_track_uuid(pid))
            .category("WAKEE")
            .name("WAKEE".to_string())
            .uint("target_cpu", cpu.0 as u64)
            .sint("wakee_pid", pid.0 as i64)
            .sint("wakee_tid", pid.0 as i64)
            .text("wakee_comm", trace.task_name(pid).to_string()),
        TraceKind::CpuIdle => Event::open(Slice::Instant, cpu_track_uuid(cpu))
            .category("IDLE")
            .name("CPU_IDLE".to_string())
            .uint("cpu", cpu.0 as u64),
        TraceKind::DsqInsert { pid, dsq_id, slice } => Event::open(Slice::Instant, task_track_uuid(pid))
            .category("SCX_DSQ")
            .name("dsq_insert".to_string())
            .uint("cpu", cpu.0 as u64)
            .uint("scx_dsq_id", dsq_id.0)
            .text("scx_dsq", format_dsq_id(dsq_id))
            .uint("slice_ns", slice)
            .about(trace, pid),
        TraceKind::DsqInsertVtime { pid, dsq_id, slice, vtime } => Event::open(Slice::Instant, task_track_uuid(pid))
            .category("SCX_DSQ")
            .name("dsq_insert_vtime".to_string())
            .uint("cpu", cpu.0 as u64)
            .uint("scx_dsq_id", dsq_id.0)
            .text("scx_dsq", format_dsq_id(dsq_id))
            .uint("slice_ns", slice)
            .uint("vtime", vtime.0)
            .about(trace, pid),
        TraceKind::KickCpu { target_cpu } => Event::open(Slice::Instant, cpu_track_uuid(cpu))
            .category("IPI_SEND")
            .name("IPI_SEND:single".to_string())
            .uint("sender_cpu", cpu.0 as u64)
            .uint("target_cpu", target_cpu.0 as u64),
        TraceKind::Tick { pid } => Event::open(Slice::Instant, cpu_track_uuid(cpu))
            .category("SOFTIRQ")
            .name("SOFTIRQ:timer".to_string())
            .uint("cpu", cpu.0 as u64)
            .about(trace, pid),
        TraceKind::IrqStart { cpu: irq_cpu, irq_type } => Event::open(Slice::Begin, cpu_track_uuid(irq_cpu))
            .category(irq_name(irq_type))
            .name(irq_name(irq_type).to_string())
            .uint("cpu", irq_cpu.0 as u64),
        TraceKind::IrqEnd { cpu: irq_cpu } => Event::open(Slice::End, cpu_track_uuid(irq_cpu))
            .uint("cpu", irq_cpu.0 as u64),
        TraceKind::PutPrevTask { pid, still_runnable } => Event::open(Slice::Instant, cpu_track_uuid(cpu))
            .category("SCXSIM_OPS")
            .name("put_prev_task".to_string())
            .flag("still_runnable", still_runnable)
            .about(trace, pid),
        TraceKind::SelectTaskRq { pid, prev_cpu, selected_cpu } => Event::open(Slice::Instant, cpu_track_uuid(cpu))
            .category("SCXSIM_OPS")
            .name("select_task_rq".to_string())
            .uint("prev_cpu", prev_cpu.0 as u64)
            .uint("selected_cpu", selected_cpu.0 as u64)
            .about(trace, pid),
        TraceKind::EnqueueTask { pid, enq_flags } => Event::open(Slice::Instant, cpu_track_uuid(cpu))
            .category("SCXSIM_OPS")
            .name("enqueue_task".to_string())
            .uint("enq_flags", enq_flags)
            .about(trace, pid),
        TraceKind::Balance { prev_pid } => {
            let ev = Event::open(Slice::Instant, cpu_track_uuid(cpu)).category("SCXSIM_OPS").name("balance".to_string());
            match prev_pid {
                Some(p) => ev.sint("prev_pid", p.0 as i64),
                None => ev,
            }
        },
        TraceKind::PickTask { pid } => Event::open(Slice::Instant, cpu_track_uuid(cpu))
            .category("SCXSIM_OPS")
            .name("pick_task".to_string())
            .about(trace, pid),
        TraceKind::SetNextTask { pid } => Event::open(Slice::Instant, cpu_track_uuid(cpu))
            .category("SCXSIM_OPS")
            .name("set_next_task".to_string())
            .about(trace, pid),
        TraceKind::DsqMoveToLocal { dsq_id, success } => Event::open(Slice::Instant, cpu_track_uuid(cpu))
            .category("SCXSIM_OPS")
            .name("dsq_move_to_local".to_string())
            .uint("scx_dsq_id", dsq_id.0)
            .text("scx_dsq", format_dsq_id(dsq_id))
            .flag("success", success),
        TraceKind::DispatchRejected { pid, target_cpu, reason } => Event::open(Slice::Instant, cpu_track_uuid(cpu))
            .category("SCXSIM_OPS")
            .name("dispatch_rejected".to_string())
            .uint("target_cpu", target_cpu.0 as u64)
            .text("reason", reason_name(reason).to_string())
            .about(trace, pid),
        TraceKind::CgroupBwCharge { pid, cgid, delta_ns } => Event::open(Slice::Instant, cpu_track_uuid(cpu))
            .category("SCXSIM_CGROUP_BW")
            .name("cgroup_bw_charge".to_string())
            .uint("cpu", cpu.0 as u64)
            .uint("cgid", cgid.0)
            .uint("delta_ns", delta_ns)
            .about(trace, pid),
        TraceKind::CgroupBwDenied { pid, cgid } => Event::open(Slice::Instant, cpu_track_uuid(cpu))
            .category("SCXSIM_CGROUP_BW")
            .name("cgroup_bw_denied".to_string())
            .uint("cgid", cgid.0)
            .uint("cpu", cpu.0 as u64)
            .about(trace, pid),
        TraceKind::CgroupBwDequeueOnThrottle { pid, cgid } => Event::open(Slice::Instant, cpu_track_uuid(cpu))
            .category("SCXSIM_CGROUP_BW")
            .name("cgroup_bw_dequeue_on_throttle".to_string())
            .uint("cgid", cgid.0)
            .uint("cpu", cpu.0 as u64)
            .about(trace, pid),
        TraceKind::CgroupBwReenqueueOnReplenish { pid, cgid } => Event::open(Slice::Instant, cpu_track_uuid(cpu))
            .category("SCXSIM_CGROUP_BW")
            .name("cgroup_bw_reenqueue_on_replenish".to_string())
            .uint("cgid", cgid.0)
            .uint("cpu", cpu.0 as u64)
            .about(trace, pid),
        TraceKind::LavdBailOnCgroupThrottle { pid, cgid } => Event::open(Slice::Instant, cpu_track_uuid(cpu))
            .category("SCXSIM_LAVD_BAIL_CGT")
            .name("lavd_bail_on_cgroup_throttle".to_string())
            .uint("cgid", cgid.0)
            .uint("cpu", cpu.0 as u64)
            .about(trace, pid),
        TraceKind::LavdReenqueueViaBtqDrain { cgid } => Event::open(Slice::Instant, cpu_track_uuid(cpu))
            .category("SCXSIM_LAVD_REENQ_BTQ")
            .name("lavd_reenqueue_via_btq_drain".to_string())
            .uint("cgid", cgid.0)
            .uint("cpu", cpu.0 as u64),
        TraceKind::CgroupBwConsumeNs { cgid, ns } => Event::open(Slice::Instant, cpu_track_uuid(cpu))
            .category("SCXSIM_CGROUP_BW")
            .name("cgroup_bw_consume".to_string())
            .uint("cgid", cgid.0)
            .uint("ns", ns)
            .uint("cpu", cpu.0 as u64),
        TraceKind::CgroupBwReplenish { cgid, runtime_total_last, period_budget_in, debt, burst_credit, period_budget_out, keep_throttled } => Event::open(Slice::Instant, cpu_track_uuid(cpu))
            .category("SCXSIM_CGROUP_BW")
            .name("cgroup_bw_replenish".to_string())
            .uint("cgid", cgid.0)
            .sint("runtime_total_last", runtime_total_last)
            .sint("period_budget_in", period_budget_in)
            .sint("debt", debt)
            .sint("burst_credit", burst_credit)
            .sint("period_budget_out", period_budget_out)
            .uint("keep_throttled", bit_of(keep_throttled)),
        TraceKind::Runnable { pid, enq_flags } => Event::open(Slice::Instant, cpu_track_uuid(cpu))
            .category("SCXSIM_STRUCTOP")
            .name("ops.runnable".to_string())
            .sint("pid", pid.0 as i64)
            .uint("enq_flags", enq_flags),
        TraceKind::Dequeue { pid, deq_flags } => Event::open(Slice::Instant, cpu_track_uuid(cpu))
            .category("SCXSIM_STRUCTOP")
            .name("ops.dequeue".to_string())
            .sint("pid", pid.0 as i64)
            .uint("deq_flags", deq_flags),
        TraceKind::Quiescent { pid, deq_flags } => Event::open(Slice::Instant, cpu_track_uuid(cpu))
            .category("SCXSIM_STRUCTOP")
            .name("ops.quiescent".to_string())
            .sint("pid", pid.0 as i64)
            .uint("deq_flags", deq_flags),
        TraceKind::UpdateIdle { cpu: idle_cpu, idle } => Event::open(Slice::Instant, cpu_track_uuid(cpu))
            .category("SCXSIM_STRUCTOP")
            .name("ops.update_idle".to_string())
            .uint("cpu", idle_cpu.0 as u64)
            .uint("idle", bit_of(idle)),
        TraceKind::CgroupInit { cgid, rc } => Event::open(Slice::Instant, cpu_track_uuid(cpu))
            .category("SCXSIM_STRUCTOP")
            .name("ops.cgroup_init".to_string())
            .uint("cgid", cgid.0)
            .sint("rc", rc as i64),
        TraceKind::CgroupExit { cgid } => Event::open(Slice::Instant, cpu_track_uuid(cpu))
            .category("SCXSIM_STRUCTOP")
            .name("ops.cgroup_exit".to_string())
            .uint("cgid", cgid.0),
        TraceKind::CgroupSetBandwidth { cgid, period_us, quota_us, burst_us } => Event::open(Slice::Instant, cpu_track_uuid(cpu))
            .category("SCXSIM_STRUCTOP")
            .name("ops.cgroup_set_bandwidth".to_string())
            .uint("cgid", cgid.0)
            .uint("period_us", period_us)
            .uint("quota_us", quota_us)
            .uint("burst_us", burst_us),
        TraceKind::CgroupMove { pid, from_cgid, to_cgid } => Event::open(Slice::Instant, cpu_track_uuid(cpu))
            .category("SCXSIM_STRUCTOP")
            .name("ops.cgroup_move".to_string())
            .sint("pid", pid.0 as i64)
            .uint("from_cgid", from_cgid.0)
            .uint("to_cgid", to_cgid.0),
        TraceKind::InitTask { pid, rc } => Event::open(Slice::Instant, cpu_track_uuid(cpu))
            .category("SCXSIM_STRUCTOP")
            .name("ops.init_task".to_string())
            .sint("pid", pid.0 as i64)
            .sint("rc", rc as i64),
        TraceKind::ExitTask { pid } => Event::open(Slice::Instant, cpu_track_uuid(cpu))
            .category("SCXSIM_STRUCTOP")
            .name("ops.exit_task".to_string())
            .sint("pid", pid.0 as i64),
        TraceKind::Enable { pid } => Event::open(Slice::Instant, cpu_track_uuid(cpu))
            .category("SCXSIM_STRUCTOP")
            .name("ops.enable".to_string())
            .sint("pid", pid.0 as i64),
        TraceKind::SetCpumask { pid, mask } => Event::open(Slice::Instant, cpu_track_uuid(cpu))
            .category("SCXSIM_STRUCTOP")
            .name("ops.set_cpumask".to_string())
            .sint("pid", pid.0 as i64)
            .text("cpumask_hex", entry_of(&trace.masks, mask)),
        TraceKind::HelperNow { ret_ns } => Event::open(Slice::Instant, cpu_track_uuid(cpu))
            .category("SCXSIM_STRUCTOP")
            .name("scx_bpf_now".to_string())
            .uint("ret_ns", ret_ns),
        TraceKind::HelperTaskCgroup { pid, cgid } => Event::open(Slice::Instant, cpu_track_uuid(cpu))
            .category("SCXSIM_STRUCTOP")
            .name("scx_bpf_task_cgroup".to_string())
            .sint("pid", pid.0 as i64)
            .uint("cgid", cgid.0),
        TraceKind::HelperTaskCpu { pid, ret_cpu } => Event::open(Slice::Instant, cpu_track_uuid(cpu))
            .category("SCXSIM_STRUCTOP")
            .name("scx_bpf_task_cpu".to_string())
            .sint("pid", pid.0 as i64)
            .uint("ret_cpu", ret_cpu.0 as u64),
        TraceKind::CreateDsq { dsq_id, node, rc } => Event::open(Slice::Instant, cpu_track_uuid(cpu))
            .category("SCXSIM_STRUCTOP")
            .name("scx_bpf_create_dsq".to_string())
            .uint("dsq_id", dsq_id.0)
            .sint("node", node as i64)
            .sint("rc", rc as i64),
        TraceKind::DestroyDsq { dsq_id } => Event::open(Slice::Instant, cpu_track_uuid(cpu))
            .category("SCXSIM_STRUCTOP")
            .name("scx_bpf_destroy_dsq".to_string())
            .uint("dsq_id", dsq_id.0),
        TraceKind::DsqNrQueued { dsq_id, ret } => Event::open(Slice::Instant, cpu_track_uuid(cpu))
            .category("SCXSIM_STRUCTOP")
            .name("scx_bpf_dsq_nr_queued".to_string())
            .uint("dsq_id", dsq_id.0)
            .sint("ret", ret as i64),
        TraceKind::CbwPutAside { cgid, count, btq_len_after } => Event::open(Slice::Instant, cpu_track_uuid(cpu))
            .category("SCXSIM_STRUCTOP")
            .name("cbw_put_aside".to_string())
            .uint("cgid", cgid.0)
            .uint("count", count as u64)
            .uint("btq_len_after", btq_len_after as u64),
        TraceKind::CbwDrainBtqBatch { cgid, count, btq_len_after } => Event::open(Slice::Instant, cpu_track_uuid(cpu))
            .category("SCXSIM_STRUCTOP")
            .name("cbw_drain_btq_batch".to_string())
            .uint("cgid", cgid.0)
            .uint("count", count as u64)
            .uint("btq_len_after", btq_len_after as u64),
        TraceKind::CbwThrottleCgroups { cgid, throttled } => Event::open(Slice::Instant, cpu_track_uuid(cpu))
            .category("SCXSIM_STRUCTOP")
            .name("cbw_throttle_cgroups".to_string())
            .uint("cgid", cgid.0)
            .uint("throttled", bit_of(throttled)),
        TraceKind::FutexBoost { pid, op, boosted } => Event::open(Slice::Instant, cpu_track_uuid(cpu))
            .category("SCXSIM_STRUCTOP")
            .name("futex_boost".to_string())
            .sint("pid", pid.0 as i64)
            .text("op", entry_of(&trace.futex_texts, op.text))
            .uint("boosted", bit_of(boosted)),
    }
}

/// The task that an event is about.
pub open spec fn spec_event_pid(kind: TraceKind) -> Option<Pid> {
    match kind {
        TraceKind::TaskScheduled { pid } => Some(pid),
        TraceKind::TaskPreempted { pid } => Some(pid),
        TraceKind::TaskYielded { pid } => Some(pid),
        TraceKind::TaskSlept { pid } => Some(pid),
        TraceKind::TaskWoke { pid } => Some(pid),
        TraceKind::TaskCompleted { pid } => Some(pid),
        TraceKind::SimulationEnd { pid } => Some(pid),
        TraceKind::PutPrevTask { pid, .. } => Some(pid),
        TraceKind::SelectTaskRq { pid, .. } => Some(pid),
        TraceKind::EnqueueTask { pid, .. } => Some(pid),
        TraceKind::PickTask { pid } => Some(pid),
        TraceKind::SetNextTask { pid } => Some(pid),
        TraceKind::DsqInsert { pid, .. } => Some(pid),
        TraceKind::DsqInsertVtime { pid, .. } => Some(pid),
        TraceKind::DispatchRejected { pid, .. } => Some(pid),
        TraceKind::Tick { pid } => Some(pid),
        TraceKind::CgroupBwCharge { pid, .. } => Some(pid),
        TraceKind::CgroupBwDenied { pid, .. } => Some(pid),
        TraceKind::Runnable { pid, .. } => Some(pid),
        TraceKind::Dequeue { pid, .. } => Some(pid),
        TraceKind::Quiescent { pid, .. } => Some(pid),
        TraceKind::CgroupMove { pid, .. } => Some(pid),
        TraceKind::CgroupBwDequeueOnThrottle { pid, .. } => Some(pid),
        TraceKind::CgroupBwReenqueueOnReplenish { pid, .. } => Some(pid),
        TraceKind::LavdBailOnCgroupThrottle { pid, .. } => Some(pid),
        TraceKind::InitTask { pid, .. } => Some(pid),
        TraceKind::ExitTask { pid } => Some(pid),
        TraceKind::Enable { pid } => Some(pid),
        TraceKind::SetCpumask { pid, .. } => Some(pid),
        TraceKind::HelperTaskCgroup { pid, .. } => Some(pid),
        TraceKind::HelperTaskCpu { pid, .. } => Some(pid),
        TraceKind::FutexBoost { pid, .. } => Some(pid),
        TraceKind::Balance { prev_pid } => prev_pid,
        _ => None,
    }
}

/// The task that an event is about.
pub fn event_pid(kind: &TraceKind) -> (r: Option<Pid>)
    ensures
        r == spec_event_pid(*kind),
{
    match *kind {
        TraceKind::TaskScheduled { pid } => Some(pid),
        TraceKind::TaskPreempted { pid } => Some(pid),
        TraceKind::TaskYielded { pid } => Some(pid),
        TraceKind::TaskSlept { pid } => Some(pid),
        TraceKind::TaskWoke { pid } => Some(pid),
        TraceKind::TaskCompleted { pid } => Some(pid),
        TraceKind::SimulationEnd { pid } => Some(pid),
        TraceKind::PutPrevTask { pid, .. } => Some(pid),
        TraceKind::SelectTaskRq { pid, .. } => Some(pid),
        TraceKind::EnqueueTask { pid, .. } => Some(pid),
        TraceKind::PickTask { pid } => Some(pid),
        TraceKind::SetNextTask { pid } => Some(pid),
        TraceKind::DsqInsert { pid, .. } => Some(pid),
        TraceKind::DsqInsertVtime { pid, .. } => Some(pid),
        TraceKind::DispatchRejected { pid, .. } => Some(pid),
        TraceKind::Tick { pid } => Some(pid),
        TraceKind::CgroupBwCharge { pid, .. } => Some(pid),
        TraceKind::CgroupBwDenied { pid, .. } => Some(pid),
        TraceKind::Runnable { pid, .. } => Some(pid),
        TraceKind::Dequeue { pid, .. } => Some(pid),
        TraceKind::Quiescent { pid, .. } => Some(pid),
        TraceKind::CgroupMove { pid, .. } => Some(pid),
        TraceKind::CgroupBwDequeueOnThrottle { pid, .. } => Some(pid),
        TraceKind::CgroupBwReenqueueOnReplenish { pid, .. } => Some(pid),
        TraceKind::LavdBailOnCgroupThrottle { pid, .. } => Some(pid),
        TraceKind::InitTask { pid, .. } => Some(pid),
        TraceKind::ExitTask { pid } => Some(pid),
        TraceKind::Enable { pid } => Some(pid),
        TraceKind::SetCpumask { pid, .. } => Some(pid),
        TraceKind::HelperTaskCgroup { pid, .. } => Some(pid),
        TraceKind::HelperTaskCpu { pid, .. } => Some(pid),
        TraceKind::FutexBoost { pid, .. } => Some(pid),
        TraceKind::Balance { prev_pid } => prev_pid,
        _ => None,
    }
}

/// Numbers in order with one more in its place, each once.
pub open spec fn with_pid(pids: Seq<Pid>, p: Pid) -> Seq<Pid>
    decreases pids.len(),
{
    if pids.len() == 0 || pids.last().0 < p.0 {
        pids.push(p)
    } else if pids.last() == p {
        pids
    } else {
        with_pid(pids.drop_last(), p).push(pids.last())
    }
}

/// The tasks that events are about, in order of their numbers, each once.
pub open spec fn pids_of(events: Seq<TraceEvent>) -> Seq<Pid>
    decreases events.len(),
{
    if events.len() == 0 {
        Seq::empty()
    } else {
        let before = pids_of(events.drop_last());
        match spec_event_pid(events.last().kind) {
            Some(p) => with_pid(before, p),
            None => before,
        }
    }
}

/// One more number is among those there were, and none is lost.
proof fn lemma_with_pid(pids: Seq<Pid>, p: Pid, q: Pid)
    ensures
        with_pid(pids, p).contains(q) <==> pids.contains(q) || q == p,
    decreases pids.len(),
{
    let w = with_pid(pids, p);
    if pids.len() == 0 || pids.last().0 < p.0 {
        assert(w[pids.len() as int] == p);
        if pids.contains(q) {
            let i = choose|i: int| 0 <= i < pids.len() && pids[i] == q;
            assert(w[i] == q);
        }
        if w.contains(q) {
            let i = choose|i: int| 0 <= i < w.len() && w[i] == q;
            if i < pids.len() {
                assert(pids[i] == q);
            }
        }
    } else if pids.last() == p {
        assert(pids[pids.len() - 1] == p);
    } else {
        let rest = pids.drop_last();
        let v = with_pid(rest, p);
        lemma_with_pid(rest, p, q);
        if pids.contains(q) {
            let i = choose|i: int| 0 <= i < pids.len() && pids[i] == q;
            if i < rest.len() {
                assert(rest[i] == q);
                let j = choose|j: int| 0 <= j < v.len() && v[j] == q;
                assert(w[j] == q);
            } else {
                assert(w[v.len() as int] == q);
            }
        }
        if q == p {
            let j = choose|j: int| 0 <= j < v.len() && v[j] == q;
            assert(w[j] == q);
        }
        if w.contains(q) {
            let i = choose|i: int| 0 <= i < w.len() && w[i] == q;
            if i < v.len() {
                assert(v[i] == q);
                if rest.contains(q) {
                    let j = choose|j: int| 0 <= j < rest.len() && rest[j] == q;
                    assert(pids[j] == q);
                }
            } else {
                assert(pids[pids.len() - 1] == q);
            }
        }
    }
}

/// A task that some event is about is collected.
proof fn lemma_pid_collected(events: Seq<TraceEvent>, i: int)
    requires
        0 <= i < events.len(),
        spec_event_pid(events[i].kind) is Some,
    ensures
        pids_of(events).contains(spec_event_pid(events[i].kind)->0),
    decreases events.len(),
{
    let p = spec_event_pid(events[i].kind)->0;
    if i < events.len() - 1 {
        assert(events.drop_last()[i] == events[i]);
        lemma_pid_collected(events.drop_last(), i);
    }
    match spec_event_pid(events.last().kind) {
        Some(x) => lemma_with_pid(pids_of(events.drop_last()), x, p),
        None => {},
    }
}

/// Numbers stay in order with one more in its place.
proof fn lemma_with_pid_ascends(pids: Seq<Pid>, p: Pid)
    requires
        ascending(pids),
    ensures
        ascending(with_pid(pids, p)),
    decreases pids.len(),
{
    let w = with_pid(pids, p);
    if pids.len() == 0 || pids.last().0 < p.0 {
        assert forall|i: int, j: int| 0 <= i < j < w.len() implies (#[trigger] w[i]).0 < (
        #[trigger] w[j]).0 by {
            if j == pids.len() {
                assert(pids[i].0 <= pids[pids.len() - 1].0);
            } else {
                assert(pids[i].0 < pids[j].0);
            }
        }
    } else if pids.last() != p {
        let rest = pids.drop_last();
        assert forall|i: int, j: int| 0 <= i < j < rest.len() implies (#[trigger] rest[i]).0 < (
        #[trigger] rest[j]).0 by {
            assert(pids[i].0 < pids[j].0);
        }
        lemma_with_pid_ascends(rest, p);
        let v = with_pid(rest, p);
        assert forall|i: int, j: int| 0 <= i < j < w.len() implies (#[trigger] w[i]).0 < (
        #[trigger] w[j]).0 by {
            if j == v.len() {
                lemma_with_pid(rest, p, v[i]);
                assert(v.contains(v[i]));
                if rest.contains(v[i]) {
                    let k = choose|k: int| 0 <= k < rest.len() && rest[k] == v[i];
                    assert(pids[k].0 < pids[pids.len() - 1].0);
                }
            } else {
                assert(v[i].0 < v[j].0);
            }
        }
    }
}

/// Whether numbers stand in order, each once.
pub open spec fn ascending(pids: Seq<Pid>) -> bool {
    forall|i: int, j: int| 0 <= i < j < pids.len() ==> (#[trigger] pids[i]).0 < (#[trigger] pids[j]).0
}

/// The tasks collected are exactly those that some event is about, in order of
/// their numbers, each once.
pub proof fn law_tasks_collected_are_those_of_events(events: Seq<TraceEvent>, p: Pid)
    ensures
        ascending(pids_of(events)),
        pids_of(events).contains(p) <==> exists|i: int|
            0 <= i < events.len() && spec_event_pid((#[trigger] events[i]).kind) == Some(p),
    decreases events.len(),
{
    if events.len() > 0 {
        let rest = events.drop_last();
        law_tasks_collected_are_those_of_events(rest, p);
        match spec_event_pid(events.last().kind) {
            Some(x) => {
                lemma_with_pid(pids_of(rest), x, p);
                lemma_with_pid_ascends(pids_of(rest), x);
            },
            None => {},
        }
        if pids_of(events).contains(p) {
            if pids_of(rest).contains(p) {
                let i = choose|i: int|
                    0 <= i < rest.len() && spec_event_pid((#[trigger] rest[i]).kind) == Some(p);
                assert(events[i] == rest[i]);
            } else {
                assert(spec_event_pid(events[events.len() - 1].kind) == Some(p));
            }
        }
        if exists|i: int|
            0 <= i < events.len() && spec_event_pid((#[trigger] events[i]).kind) == Some(p) {
            let i = choose|i: int|
                0 <= i < events.len() && spec_event_pid((#[trigger] events[i]).kind) == Some(p);
            lemma_pid_collected(events, i);
        }
    }
}

fn insert_pid(pids: &mut Vec<Pid>, p: Pid)
    ensures
        final(pids)@ == with_pid(old(pids)@, p),
{
    let mut at: usize = pids.len();
    let ghost all = pids@;
    proof {
        assert(all.take(at as int) =~= all);
        assert(with_pid(all, p) =~= with_pid(all.take(at as int), p) + all.skip(at as int));
    }
    while at > 0 && pids[at - 1].0 > p.0
        invariant
            pids@ == all,
            at <= all.len(),
            with_pid(all, p) == with_pid(all.take(at as int), p) + all.skip(at as int),
        decreases at,
    {
        at = at - 1;
        proof {
            assert(all.take(at + 1).drop_last() =~= all.take(at as int));
            assert(with_pid(all.take(at + 1), p) + all.skip(at + 1) =~= with_pid(
                all.take(at as int),
                p,
            ) + all.skip(at as int));
        }
    }
    if at > 0 && pids[at - 1] == p {
        proof {
            assert(pids@ =~= with_pid(all.take(at as int), p) + all.skip(at as int));
        }
    } else {
        pids.insert(at, p);
        proof {
            assert(pids@ =~= with_pid(all.take(at as int), p) + all.skip(at as int));
        }
    }
}

/// The tasks that a trace's events are about, in order of their numbers.
pub fn collect_task_pids(trace: &Trace) -> (r: Vec<Pid>)
    ensures
        r@ == pids_of(trace.events@),
{
    let mut pids: Vec<Pid> = Vec::new();
    let mut i: usize = 0;
    proof {
        assert(trace.events@.take(0) =~= Seq::empty());
    }
    while i < trace.events.len()
        invariant
            i <= trace.events@.len(),
            pids@ == pids_of(trace.events@.take(i as int)),
        decreases trace.events@.len() - i,
    {
        proof {
            assert(trace.events@.take(i + 1).drop_last() =~= trace.events@.take(i as int));
        }
        if let Some(p) = event_pid(&trace.events[i].kind) {
            insert_pid(&mut pids, p);
        }
        i = i + 1;
    }
    proof {
        assert(trace.events@.take(i as int) =~= trace.events@);
    }
    pids
}

/// The packet that announces the process.
pub open spec fn process_packet() -> PacketView {
    PacketView::Process {
        seq_id: SCXSIM_TRUSTED_SEQ_ID,
        uuid: SCXSIM_PROCESS_UUID,
        pid: SCXSIM_PROCESS_PID,
        name: "scxsim"@,
    }
}

/// The packet that announces a CPU's track.
pub open spec fn cpu_packet(c: int) -> PacketView {
    PacketView::Thread {
        seq_id: SCXSIM_TRUSTED_SEQ_ID,
        uuid: cpu_uuid(CpuId(c as u32)),
        parent: SCXSIM_PROCESS_UUID,
        pid: SCXSIM_PROCESS_PID,
        tid: (-(c + 1)) as i32,
        name: "swapper/"@ + decimal(c as nat),
    }
}

/// The packet that announces a task's track.
pub open spec fn task_packet(names: Seq<(Pid, String)>, pid: Pid) -> PacketView {
    PacketView::Thread {
        seq_id: SCXSIM_TRUSTED_SEQ_ID,
        uuid: task_uuid(pid),
        parent: SCXSIM_PROCESS_UUID,
        pid: SCXSIM_PROCESS_PID,
        tid: pid.0,
        name: name_of(names, pid),
    }
}

/// The packet of a recorded event.
pub open spec fn event_packet(t: Trace, i: int) -> PacketView {
    PacketView::Event {
        seq_id: SCXSIM_TRUSTED_SEQ_ID,
        time_ns: t.events@[i].time_ns,
        event: shown(t.names@, t.masks@, t.futex_texts@, t.events@[i]),
    }
}

/// The packets of a trace: the process, the CPUs, the tasks, then the events
/// in the order in which they were recorded.
pub open spec fn packets_of(t: Trace) -> Seq<PacketView> {
    seq![process_packet()] + Seq::new(t.nr_cpus as nat, |c: int| cpu_packet(c)) + Seq::new(
        pids_of(t.events@).len(),
        |i: int| task_packet(t.names@, pids_of(t.events@)[i]),
    ) + Seq::new(t.events@.len(), |i: int| event_packet(t, i))
}

/// Whether a packet announces a track.
pub open spec fn announces(p: PacketView, track: u64) -> bool {
    match p {
        PacketView::Process { uuid, .. } => uuid == track,
        PacketView::Thread { uuid, .. } => uuid == track,
        PacketView::Event { .. } => false,
    }
}

/// Every event stands on the track of a CPU or of a task that it is about.
proof fn lemma_shown_track(
    names: Seq<(Pid, String)>,
    masks: Seq<String>,
    futex_texts: Seq<String>,
    ev: TraceEvent,
)
    ensures
        ({
            let track = shown(names, masks, futex_texts, ev).track;
            ||| track == cpu_uuid(ev.cpu)
            ||| spec_event_pid(ev.kind) is Some && track == task_uuid(
                spec_event_pid(ev.kind)->0,
            )
            ||| ev.kind matches TraceKind::IrqStart { cpu, irq_type } && track == cpu_uuid(cpu)
            ||| ev.kind matches TraceKind::IrqEnd { cpu } && track == cpu_uuid(cpu)
        }),
{
}

/// The CPU on whose track an event that is not a task's stands.
pub open spec fn shown_cpu(ev: TraceEvent) -> CpuId {
    match ev.kind {
        TraceKind::IrqStart { cpu, irq_type } => cpu,
        TraceKind::IrqEnd { cpu } => cpu,
        _ => ev.cpu,
    }
}

/// Every track that an event stands on is announced before it, if the event's
/// CPU is one of the trace's.
pub proof fn law_tracks_are_announced(t: Trace, i: int)
    requires
        0 <= i < t.events@.len(),
        shown_cpu(t.events@[i]).0 < t.nr_cpus,
    ensures
        ({
            let track = shown(t.names@, t.masks@, t.futex_texts@, t.events@[i]).track;
            let at = 1 + t.nr_cpus + pids_of(t.events@).len() + i;
            &&& packets_of(t)[at] == event_packet(t, i)
            &&& exists|k: int| 0 <= k < at && #[trigger] announces(packets_of(t)[k], track)
        }),
{
    let ev = t.events@[i];
    let track = shown(t.names@, t.masks@, t.futex_texts@, ev).track;
    let pids = pids_of(t.events@);
    let packets = packets_of(t);
    lemma_shown_track(t.names@, t.masks@, t.futex_texts@, ev);
    let c = shown_cpu(ev);
    if track == cpu_uuid(c) {
        let k = 1 + c.0 as int;
        assert(packets[k] == cpu_packet(c.0 as int));
        assert(announces(packets[k], track));
    } else {
        let p = spec_event_pid(ev.kind)->0;
        lemma_pid_collected(t.events@, i);
        let j = choose|j: int| 0 <= j < pids.len() && pids[j] == p;
        let k = 1 + t.nr_cpus + j;
        assert(packets[k] == task_packet(t.names@, p));
        assert(announces(packets[k], track));
    }
}

/// Whether an event has an annotation with a name and a value.
pub open spec fn says(e: EventView, name: Seq<char>, value: ValueView) -> bool {
    exists|i: int| 0 <= i < e.annotations.len() && #[trigger] e.annotations[i] == (name, value)
}

/// Whether an event puts a task on a CPU.
pub open spec fn puts_on(kind: TraceKind, p: Pid) -> bool {
    kind == (TraceKind::TaskScheduled { pid: p })
}

/// Whether an event takes a task off its CPU: it is preempted, yields, sleeps,
/// completes or is cut off by the end.
pub open spec fn takes_off(kind: TraceKind, p: Pid) -> bool {
    ||| kind == (TraceKind::TaskPreempted { pid: p })
    ||| kind == (TraceKind::TaskYielded { pid: p })
    ||| kind == (TraceKind::TaskSlept { pid: p })
    ||| kind == (TraceKind::TaskCompleted { pid: p })
    ||| kind == (TraceKind::SimulationEnd { pid: p })
}

/// A task's track has a slice for each time that it runs: an event opens one there
/// exactly when the task is put on a CPU, and closes one exactly when it is taken off.
/// What else is about a task is a moment. On a CPU's track slices are interrupts, and
/// a task's slices never are there.
pub proof fn law_slices_are_runs_and_interrupts(
    names: Seq<(Pid, String)>,
    masks: Seq<String>,
    futex_texts: Seq<String>,
    ev: TraceEvent,
    p: Pid,
    c: CpuId,
)
    ensures
        ({
            let e = shown(names, masks, futex_texts, ev);
            &&& e.slice is Begin && e.track == task_uuid(p) <==> puts_on(ev.kind, p)
            &&& e.slice is End && e.track == task_uuid(p) <==> takes_off(ev.kind, p)
            &&& e.slice is Begin && e.track == cpu_uuid(c) <==> ev.kind is IrqStart
                && ev.kind->IrqStart_cpu == c
            &&& e.slice is End && e.track == cpu_uuid(c) <==> ev.kind is IrqEnd
                && ev.kind->IrqEnd_cpu == c
            &&& e.track == task_uuid(p) ==> spec_event_pid(ev.kind) == Some(p)
        }),
{
    assert forall|q: Pid| #[trigger] task_uuid(q) == task_uuid(p) implies q == p by {
        law_tracks_are_distinct(p, q, c, c);
    }
    assert forall|q: Pid, d: CpuId| #[trigger] task_uuid(q) != #[trigger] cpu_uuid(d) by {
        law_tracks_are_distinct(q, q, d, d);
    }
    assert forall|d: CpuId| #[trigger] cpu_uuid(d) == cpu_uuid(c) implies d == c by {
        law_tracks_are_distinct(p, p, c, d);
    }
}

/// The slices that the first `n` packets open and close on a track, with their times.
pub open spec fn slices_on(packets: Seq<PacketView>, track: u64, n: nat) -> Seq<(u64, bool)>
    decreases n,
{
    if n == 0 {
        Seq::empty()
    } else {
        let before = slices_on(packets, track, (n - 1) as nat);
        match packets[n - 1] {
            PacketView::Event { seq_id, time_ns, event } => if event.track == track
                && event.slice is Begin {
                before.push((time_ns, true))
            } else if event.track == track && event.slice is End {
                before.push((time_ns, false))
            } else {
                before
            },
            _ => before,
        }
    }
}

/// When a task is put on a CPU and taken off in the first `n` events.
pub open spec fn runs_of(events: Seq<TraceEvent>, p: Pid, n: nat) -> Seq<(u64, bool)>
    decreases n,
{
    if n == 0 {
        Seq::empty()
    } else {
        let before = runs_of(events, p, (n - 1) as nat);
        let e = events[n - 1];
        if puts_on(e.kind, p) {
            before.push((e.time_ns, true))
        } else if takes_off(e.kind, p) {
            before.push((e.time_ns, false))
        } else {
            before
        }
    }
}

proof fn lemma_no_slices_before_events(t: Trace, track: u64, n: nat)
    requires
        n <= 1 + t.nr_cpus + pids_of(t.events@).len(),
    ensures
        slices_on(packets_of(t), track, n) == Seq::<(u64, bool)>::empty(),
    decreases n,
{
    if n > 0 {
        lemma_no_slices_before_events(t, track, (n - 1) as nat);
        let k = n - 1;
        if k == 0 {
            assert(packets_of(t)[0] == process_packet());
        } else if k <= t.nr_cpus {
            assert(packets_of(t)[k] == cpu_packet(k - 1));
        } else {
            assert(packets_of(t)[k] == task_packet(
                t.names@,
                pids_of(t.events@)[k - 1 - t.nr_cpus],
            ));
        }
    }
}

proof fn lemma_slices_are_runs(t: Trace, p: Pid, n: nat)
    requires
        n <= t.events@.len(),
    ensures
        slices_on(
            packets_of(t),
            task_uuid(p),
            1 + t.nr_cpus as nat + pids_of(t.events@).len() + n,
        ) == runs_of(t.events@, p, n),
    decreases n,
{
    let h = 1 + t.nr_cpus as nat + pids_of(t.events@).len();
    if n == 0 {
        lemma_no_slices_before_events(t, task_uuid(p), h);
    } else {
        lemma_slices_are_runs(t, p, (n - 1) as nat);
        let i = n - 1;
        assert(packets_of(t)[h + n - 1] == event_packet(t, i));
        law_slices_are_runs_and_interrupts(
            t.names@,
            t.masks@,
            t.futex_texts@,
            t.events@[i],
            p,
            CpuId(0),
        );
    }
}

/// A trace file shows a task running exactly when it ran: the slices that it opens and
/// closes on the task's track are, in order and with their times, the events that put
/// the task on a CPU and took it off.
pub proof fn law_a_task_is_shown_running_when_it_ran(t: Trace, p: Pid)
    ensures
        slices_on(packets_of(t), task_uuid(p), packets_of(t).len()) == runs_of(
            t.events@,
            p,
            t.events@.len(),
        ),
{
    lemma_slices_are_runs(t, p, t.events@.len());
}

/// Events keep their order and their times, and nothing is left out or added: after
/// the packets that announce tracks comes one for each event.
pub proof fn law_every_event_has_its_packet(t: Trace, i: int)
    requires
        0 <= i < t.events@.len(),
    ensures
        ({
            let n = packets_of(t).len();
            let p = packets_of(t)[n - t.events@.len() + i];
            &&& p is Event
            &&& p->time_ns == t.events@[i].time_ns
            &&& n == 1 + t.nr_cpus + pids_of(t.events@).len() + t.events@.len()
        }),
{
}

/// The tracks that are announced: one process, a thread for each CPU with a negative
/// number of its own and the name of the CPU's idle thread, and a thread for each task
/// with the task's number and name. All belong to the process, and every packet to one
/// sequence.
pub proof fn law_tracks_are_named_for_what_they_show(t: Trace, k: int)
    requires
        t.nr_cpus <= i32::MAX,
        0 <= k < packets_of(t).len(),
    ensures
        match packets_of(t)[k] {
            PacketView::Process { seq_id, uuid, pid, name } => {
                &&& k == 0
                &&& seq_id == 1
                &&& uuid == SCXSIM_PROCESS_UUID
                &&& pid == SCXSIM_PROCESS_PID
                &&& name == "scxsim"@
            },
            PacketView::Thread { seq_id, uuid, parent, pid, tid, name } => {
                &&& 1 <= k < 1 + t.nr_cpus + pids_of(t.events@).len()
                &&& seq_id == 1
                &&& parent == SCXSIM_PROCESS_UUID
                &&& pid == SCXSIM_PROCESS_PID
                &&& k <= t.nr_cpus ==> {
                    &&& tid == -k
                    &&& uuid == cpu_uuid(CpuId((k - 1) as u32))
                    &&& name == "swapper/"@ + decimal((k - 1) as nat)
                }
                &&& k > t.nr_cpus ==> {
                    &&& uuid == task_uuid(Pid(tid))
                    &&& name == name_of(t.names@, Pid(tid))
                    &&& pids_of(t.events@).contains(Pid(tid))
                }
            },
            PacketView::Event { seq_id, .. } => seq_id == 1 && k >= 1 + t.nr_cpus + pids_of(
                t.events@,
            ).len(),
        },
{
    let pids = pids_of(t.events@);
    if k == 0 {
        assert(packets_of(t)[0] == process_packet());
    } else if k <= t.nr_cpus {
        assert(packets_of(t)[k] == cpu_packet(k - 1));
    } else if k < 1 + t.nr_cpus + pids.len() {
        let p = pids[k - 1 - t.nr_cpus];
        assert(packets_of(t)[k] == task_packet(t.names@, p));
        assert(p == Pid(p.0));
    } else {
        assert(packets_of(t)[k] == event_packet(t, k - 1 - t.nr_cpus - pids.len()));
    }
}

/// Everything recorded of an event is annotated, under the name that readers know it
/// by.
#[verifier::rlimit(60)]
pub proof fn law_nothing_recorded_is_left_out(
    names: Seq<(Pid, String)>,
    masks: Seq<String>,
    futex_texts: Seq<String>,
    ev: TraceEvent,
)
    ensures
        ({
            let e = shown(names, masks, futex_texts, ev);
            let cpu = ev.cpu;
            match ev.kind {
                TraceKind::TaskScheduled { pid } => {
                    &&& says(e, "cpu"@, ValueView::Uint(cpu.0 as u64))
                    &&& says(e, "pid"@, ValueView::Int(pid.0 as i64))
                    &&& says(e, "tid"@, ValueView::Int(pid.0 as i64))
                    &&& says(e, "comm"@, ValueView::Text(name_of(names, pid)))
                },
                TraceKind::TaskPreempted { pid } => {
                    &&& says(e, "cpu"@, ValueView::Uint(cpu.0 as u64))
                    &&& says(e, "pid"@, ValueView::Int(pid.0 as i64))
                    &&& says(e, "tid"@, ValueView::Int(pid.0 as i64))
                    &&& says(e, "offcpu_reason"@, ValueView::Text("preempted"@))
                },
                TraceKind::TaskYielded { pid } => {
                    &&& says(e, "cpu"@, ValueView::Uint(cpu.0 as u64))
                    &&& says(e, "pid"@, ValueView::Int(pid.0 as i64))
                    &&& says(e, "tid"@, ValueView::Int(pid.0 as i64))
                    &&& says(e, "offcpu_reason"@, ValueView::Text("yielded"@))
                },
                TraceKind::TaskSlept { pid } => {
                    &&& says(e, "cpu"@, ValueView::Uint(cpu.0 as u64))
                    &&& says(e, "pid"@, ValueView::Int(pid.0 as i64))
                    &&& says(e, "tid"@, ValueView::Int(pid.0 as i64))
                    &&& says(e, "offcpu_reason"@, ValueView::Text("slept"@))
                },
                TraceKind::TaskCompleted { pid } => {
                    &&& says(e, "cpu"@, ValueView::Uint(cpu.0 as u64))
                    &&& says(e, "pid"@, ValueView::Int(pid.0 as i64))
                    &&& says(e, "tid"@, ValueView::Int(pid.0 as i64))
                    &&& says(e, "offcpu_reason"@, ValueView::Text("completed"@))
                },
                TraceKind::SimulationEnd { pid } => {
                    &&& says(e, "cpu"@, ValueView::Uint(cpu.0 as u64))
                    &&& says(e, "pid"@, ValueView::Int(pid.0 as i64))
                    &&& says(e, "tid"@, ValueView::Int(pid.0 as i64))
                    &&& says(e, "offcpu_reason"@, ValueView::Text("sim_end"@))
                },
                TraceKind::TaskWoke { pid } => {
                    &&& says(e, "target_cpu"@, ValueView::Uint(cpu.0 as u64))
                    &&& says(e, "wakee_pid"@, ValueView::Int(pid.0 as i64))
                    &&& says(e, "wakee_tid"@, ValueView::Int(pid.0 as i64))
                    &&& says(e, "wakee_comm"@, ValueView::Text(name_of(names, pid)))
                },
                TraceKind::CpuIdle => {
                    &&& says(e, "cpu"@, ValueView::Uint(cpu.0 as u64))
                },
                TraceKind::DsqInsert { pid, dsq_id, slice } => {
                    &&& says(e, "cpu"@, ValueView::Uint(cpu.0 as u64))
                    &&& says(e, "scx_dsq_id"@, ValueView::Uint(dsq_id.0))
                    &&& says(e, "scx_dsq"@, ValueView::Text(dsq_text(dsq_id)))
                    &&& says(e, "slice_ns"@, ValueView::Uint(slice))
                    &&& says(e, "pid"@, ValueView::Int(pid.0 as i64))
                    &&& says(e, "tid"@, ValueView::Int(pid.0 as i64))
                    &&& says(e, "comm"@, ValueView::Text(name_of(names, pid)))
                },
                TraceKind::DsqInsertVtime { pid, dsq_id, slice, vtime } => {
                    &&& says(e, "cpu"@, ValueView::Uint(cpu.0 as u64))
                    &&& says(e, "scx_dsq_id"@, ValueView::Uint(dsq_id.0))
                    &&& says(e, "scx_dsq"@, ValueView::Text(dsq_text(dsq_id)))
                    &&& says(e, "slice_ns"@, ValueView::Uint(slice))
                    &&& says(e, "vtime"@, ValueView::Uint(vtime.0))
                    &&& says(e, "pid"@, ValueView::Int(pid.0 as i64))
                    &&& says(e, "tid"@, ValueView::Int(pid.0 as i64))
                    &&& says(e, "comm"@, ValueView::Text(name_of(names, pid)))
                },
                TraceKind::KickCpu { target_cpu } => {
                    &&& says(e, "sender_cpu"@, ValueView::Uint(cpu.0 as u64))
                    &&& says(e, "target_cpu"@, ValueView::Uint(target_cpu.0 as u64))
                },
                TraceKind::Tick { pid } => {
                    &&& says(e, "cpu"@, ValueView::Uint(cpu.0 as u64))
                    &&& says(e, "pid"@, ValueView::Int(pid.0 as i64))
                    &&& says(e, "tid"@, ValueView::Int(pid.0 as i64))
                    &&& says(e, "comm"@, ValueView::Text(name_of(names, pid)))
                },
                TraceKind::IrqStart { cpu: irq_cpu, irq_type } => {
                    &&& says(e, "cpu"@, ValueView::Uint(irq_cpu.0 as u64))
                },
                TraceKind::IrqEnd { cpu: irq_cpu } => {
                    &&& says(e, "cpu"@, ValueView::Uint(irq_cpu.0 as u64))
                },
                TraceKind::PutPrevTask { pid, still_runnable } => {
                    &&& says(e, "still_runnable"@, ValueView::Flag(still_runnable))
                    &&& says(e, "pid"@, ValueView::Int(pid.0 as i64))
                    &&& says(e, "tid"@, ValueView::Int(pid.0 as i64))
                    &&& says(e, "comm"@, ValueView::Text(name_of(names, pid)))
                },
                TraceKind::SelectTaskRq { pid, prev_cpu, selected_cpu } => {
                    &&& says(e, "prev_cpu"@, ValueView::Uint(prev_cpu.0 as u64))
                    &&& says(e, "selected_cpu"@, ValueView::Uint(selected_cpu.0 as u64))
                    &&& says(e, "pid"@, ValueView::Int(pid.0 as i64))
                    &&& says(e, "tid"@, ValueView::Int(pid.0 as i64))
                    &&& says(e, "comm"@, ValueView::Text(name_of(names, pid)))
                },
                TraceKind::EnqueueTask { pid, enq_flags } => {
                    &&& says(e, "enq_flags"@, ValueView::Uint(enq_flags))
                    &&& says(e, "pid"@, ValueView::Int(pid.0 as i64))
                    &&& says(e, "tid"@, ValueView::Int(pid.0 as i64))
                    &&& says(e, "comm"@, ValueView::Text(name_of(names, pid)))
                },
                TraceKind::PickTask { pid } => {
                    &&& says(e, "pid"@, ValueView::Int(pid.0 as i64))
                    &&& says(e, "tid"@, ValueView::Int(pid.0 as i64))
                    &&& says(e, "comm"@, ValueView::Text(name_of(names, pid)))
                },
                TraceKind::SetNextTask { pid } => {
                    &&& says(e, "pid"@, ValueView::Int(pid.0 as i64))
                    &&& says(e, "tid"@, ValueView::Int(pid.0 as i64))
                    &&& says(e, "comm"@, ValueView::Text(name_of(names, pid)))
                },
                TraceKind::DsqMoveToLocal { dsq_id, success } => {
                    &&& says(e, "scx_dsq_id"@, ValueView::Uint(dsq_id.0))
                    &&& says(e, "scx_dsq"@, ValueView::Text(dsq_text(dsq_id)))
                    &&& says(e, "success"@, ValueView::Flag(success))
                },
                TraceKind::DispatchRejected { pid, target_cpu, reason } => {
                    &&& says(e, "target_cpu"@, ValueView::Uint(target_cpu.0 as u64))
                    &&& says(e, "reason"@, ValueView::Text(reason_text(reason)))
                    &&& says(e, "pid"@, ValueView::Int(pid.0 as i64))
                    &&& says(e, "tid"@, ValueView::Int(pid.0 as i64))
                    &&& says(e, "comm"@, ValueView::Text(name_of(names, pid)))
                },
                TraceKind::CgroupBwCharge { pid, cgid, delta_ns } => {
                    &&& says(e, "cpu"@, ValueView::Uint(cpu.0 as u64))
                    &&& says(e, "cgid"@, ValueView::Uint(cgid.0))
                    &&& says(e, "delta_ns"@, ValueView::Uint(delta_ns))
                    &&& says(e, "pid"@, ValueView::Int(pid.0 as i64))
                    &&& says(e, "tid"@, ValueView::Int(pid.0 as i64))
                    &&& says(e, "comm"@, ValueView::Text(name_of(names, pid)))
                },
                TraceKind::CgroupBwDenied { pid, cgid } => {
                    &&& says(e, "cgid"@, ValueView::Uint(cgid.0))
                    &&& says(e, "cpu"@, ValueView::Uint(cpu.0 as u64))
                    &&& says(e, "pid"@, ValueView::Int(pid.0 as i64))
                    &&& says(e, "tid"@, ValueView::Int(pid.0 as i64))
                    &&& says(e, "comm"@, ValueView::Text(name_of(names, pid)))
                },
                TraceKind::CgroupBwDequeueOnThrottle { pid, cgid } => {
                    &&& says(e, "cgid"@, ValueView::Uint(cgid.0))
                    &&& says(e, "cpu"@, ValueView::Uint(cpu.0 as u64))
                    &&& says(e, "pid"@, ValueView::Int(pid.0 as i64))
                    &&& says(e, "tid"@, ValueView::Int(pid.0 as i64))
                    &&& says(e, "comm"@, ValueView::Text(name_of(names, pid)))
                },
                TraceKind::CgroupBwReenqueueOnReplenish { pid, cgid } => {
                    &&& says(e, "cgid"@, ValueView::Uint(cgid.0))
                    &&& says(e, "cpu"@, ValueView::Uint(cpu.0 as u64))
                    &&& says(e, "pid"@, ValueView::Int(pid.0 as i64))
                    &&& says(e, "tid"@, ValueView::Int(pid.0 as i64))
                    &&& says(e, "comm"@, ValueView::Text(name_of(names, pid)))
                },
                TraceKind::LavdBailOnCgroupThrottle { pid, cgid } => {
                    &&& says(e, "cgid"@, ValueView::Uint(cgid.0))
                    &&& says(e, "cpu"@, ValueView::Uint(cpu.0 as u64))
                    &&& says(e, "pid"@, ValueView::Int(pid.0 as i64))
                    &&& says(e, "tid"@, ValueView::Int(pid.0 as i64))
                    &&& says(e, "comm"@, ValueView::Text(name_of(names, pid)))
                },
                TraceKind::LavdReenqueueViaBtqDrain { cgid } => {
                    &&& says(e, "cgid"@, ValueView::Uint(cgid.0))
                    &&& says(e, "cpu"@, ValueView::Uint(cpu.0 as u64))
                },
                TraceKind::CgroupBwConsumeNs { cgid, ns } => {
                    &&& says(e, "cgid"@, ValueView::Uint(cgid.0))
                    &&& says(e, "ns"@, ValueView::Uint(ns))
                    &&& says(e, "cpu"@, ValueView::Uint(cpu.0 as u64))
                },
                TraceKind::CgroupBwReplenish { cgid, runtime_total_last, period_budget_in, debt, burst_credit, period_budget_out, keep_throttled } => {
                    &&& says(e, "cgid"@, ValueView::Uint(cgid.0))
                    &&& says(e, "runtime_total_last"@, ValueView::Int(runtime_total_last))
                    &&& says(e, "period_budget_in"@, ValueView::Int(period_budget_in))
                    &&& says(e, "debt"@, ValueView::Int(debt))
                    &&& says(e, "burst_credit"@, ValueView::Int(burst_credit))
                    &&& says(e, "period_budget_out"@, ValueView::Int(period_budget_out))
                    &&& says(e, "keep_throttled"@, ValueView::Uint(bit(keep_throttled)))
                },
                TraceKind::Runnable { pid, enq_flags } => {
                    &&& says(e, "pid"@, ValueView::Int(pid.0 as i64))
                    &&& says(e, "enq_flags"@, ValueView::Uint(enq_flags))
                },
                TraceKind::Dequeue { pid, deq_flags } => {
                    &&& says(e, "pid"@, ValueView::Int(pid.0 as i64))
                    &&& says(e, "deq_flags"@, ValueView::Uint(deq_flags))
                },
                TraceKind::Quiescent { pid, deq_flags } => {
                    &&& says(e, "pid"@, ValueView::Int(pid.0 as i64))
                    &&& says(e, "deq_flags"@, ValueView::Uint(deq_flags))
                },
                TraceKind::UpdateIdle { cpu: idle_cpu, idle } => {
                    &&& says(e, "cpu"@, ValueView::Uint(idle_cpu.0 as u64))
                    &&& says(e, "idle"@, ValueView::Uint(bit(idle)))
                },
                TraceKind::CgroupInit { cgid, rc } => {
                    &&& says(e, "cgid"@, ValueView::Uint(cgid.0))
                    &&& says(e, "rc"@, ValueView::Int(rc as i64))
                },
                TraceKind::CgroupExit { cgid } => {
                    &&& says(e, "cgid"@, ValueView::Uint(cgid.0))
                },
                TraceKind::CgroupSetBandwidth { cgid, period_us, quota_us, burst_us } => {
                    &&& says(e, "cgid"@, ValueView::Uint(cgid.0))
                    &&& says(e, "period_us"@, ValueView::Uint(period_us))
                    &&& says(e, "quota_us"@, ValueView::Uint(quota_us))
                    &&& says(e, "burst_us"@, ValueView::Uint(burst_us))
                },
                TraceKind::CgroupMove { pid, from_cgid, to_cgid } => {
                    &&& says(e, "pid"@, ValueView::Int(pid.0 as i64))
                    &&& says(e, "from_cgid"@, ValueView::Uint(from_cgid.0))
                    &&& says(e, "to_cgid"@, ValueView::Uint(to_cgid.0))
                },
                TraceKind::InitTask { pid, rc } => {
                    &&& says(e, "pid"@, ValueView::Int(pid.0 as i64))
                    &&& says(e, "rc"@, ValueView::Int(rc as i64))
                },
                TraceKind::ExitTask { pid } => {
                    &&& says(e, "pid"@, ValueView::Int(pid.0 as i64))
                },
                TraceKind::Enable { pid } => {
                    &&& says(e, "pid"@, ValueView::Int(pid.0 as i64))
                },
                TraceKind::SetCpumask { pid, mask } => {
                    &&& says(e, "pid"@, ValueView::Int(pid.0 as i64))
                    &&& says(e, "cpumask_hex"@, ValueView::Text(entry(masks, mask)))
                },
                TraceKind::HelperNow { ret_ns } => {
                    &&& says(e, "ret_ns"@, ValueView::Uint(ret_ns))
                },
                TraceKind::HelperTaskCgroup { pid, cgid } => {
                    &&& says(e, "pid"@, ValueView::Int(pid.0 as i64))
                    &&& says(e, "cgid"@, ValueView::Uint(cgid.0))
                },
                TraceKind::HelperTaskCpu { pid, ret_cpu } => {
                    &&& says(e, "pid"@, ValueView::Int(pid.0 as i64))
                    &&& says(e, "ret_cpu"@, ValueView::Uint(ret_cpu.0 as u64))
                },
                TraceKind::CreateDsq { dsq_id, node, rc } => {
                    &&& says(e, "dsq_id"@, ValueView::Uint(dsq_id.0))
                    &&& says(e, "node"@, ValueView::Int(node as i64))
                    &&& says(e, "rc"@, ValueView::Int(rc as i64))
                },
                TraceKind::DestroyDsq { dsq_id } => {
                    &&& says(e, "dsq_id"@, ValueView::Uint(dsq_id.0))
                },
                TraceKind::DsqNrQueued { dsq_id, ret } => {
                    &&& says(e, "dsq_id"@, ValueView::Uint(dsq_id.0))
                    &&& says(e, "ret"@, ValueView::Int(ret as i64))
                },
                TraceKind::CbwPutAside { cgid, count, btq_len_after } => {
                    &&& says(e, "cgid"@, ValueView::Uint(cgid.0))
                    &&& says(e, "count"@, ValueView::Uint(count as u64))
                    &&& says(e, "btq_len_after"@, ValueView::Uint(btq_len_after as u64))
                },
                TraceKind::CbwDrainBtqBatch { cgid, count, btq_len_after } => {
                    &&& says(e, "cgid"@, ValueView::Uint(cgid.0))
                    &&& says(e, "count"@, ValueView::Uint(count as u64))
                    &&& says(e, "btq_len_after"@, ValueView::Uint(btq_len_after as u64))
                },
                TraceKind::CbwThrottleCgroups { cgid, throttled } => {
                    &&& says(e, "cgid"@, ValueView::Uint(cgid.0))
                    &&& says(e, "throttled"@, ValueView::Uint(bit(throttled)))
                },
                TraceKind::FutexBoost { pid, op, boosted } => {
                    &&& says(e, "pid"@, ValueView::Int(pid.0 as i64))
                    &&& says(e, "op"@, ValueView::Text(entry(futex_texts, op.text)))
                    &&& says(e, "boosted"@, ValueView::Uint(bit(boosted)))
                },
                TraceKind::Balance { prev_pid } => {
                    &&& prev_pid is Some ==> says(
                        e,
                        "prev_pid"@,
                        ValueView::Int((prev_pid->0).0 as i64),
                    )
                    &&& prev_pid is None ==> e.annotations.len() == 0
                },
            }
        }),
{
    let a = shown(names, masks, futex_texts, ev).annotations;
    assert(a.len() <= 8);
    let seen = seq![a[0], a[1], a[2], a[3], a[4], a[5], a[6], a[7]];
    assert(seen.len() == 8);
}

/// Events are called what readers look for.
pub proof fn law_events_are_called_what_readers_look_for(
    names: Seq<(Pid, String)>,
    masks: Seq<String>,
    futex_texts: Seq<String>,
    ev: TraceEvent,
)
    ensures
        ({
            let e = shown(names, masks, futex_texts, ev);
            match ev.kind {
                TraceKind::TaskScheduled { pid } => e.name == Some(name_of(names, pid)),
                TraceKind::TaskWoke { .. } => e.name == Some("WAKEE"@),
                TraceKind::CpuIdle => e.name == Some("CPU_IDLE"@),
                TraceKind::DsqInsert { .. } => e.name == Some("dsq_insert"@),
                TraceKind::DsqInsertVtime { .. } => e.name == Some("dsq_insert_vtime"@),
                TraceKind::KickCpu { .. } => e.name == Some("IPI_SEND:single"@),
                TraceKind::Tick { .. } => e.name == Some("SOFTIRQ:timer"@),
                TraceKind::IrqStart { cpu: irq_cpu, irq_type } => e.name == Some(irq_text(irq_type)),
                TraceKind::PutPrevTask { .. } => e.name == Some("put_prev_task"@),
                TraceKind::SelectTaskRq { .. } => e.name == Some("select_task_rq"@),
                TraceKind::EnqueueTask { .. } => e.name == Some("enqueue_task"@),
                TraceKind::PickTask { .. } => e.name == Some("pick_task"@),
                TraceKind::SetNextTask { .. } => e.name == Some("set_next_task"@),
                TraceKind::DsqMoveToLocal { .. } => e.name == Some("dsq_move_to_local"@),
                TraceKind::DispatchRejected { .. } => e.name == Some("dispatch_rejected"@),
                TraceKind::CgroupBwCharge { .. } => e.name == Some("cgroup_bw_charge"@),
                TraceKind::CgroupBwDenied { .. } => e.name == Some("cgroup_bw_denied"@),
                TraceKind::CgroupBwDequeueOnThrottle { .. } => e.name == Some("cgroup_bw_dequeue_on_throttle"@),
                TraceKind::CgroupBwReenqueueOnReplenish { .. } => e.name == Some("cgroup_bw_reenqueue_on_replenish"@),
                TraceKind::LavdBailOnCgroupThrottle { .. } => e.name == Some("lavd_bail_on_cgroup_throttle"@),
                TraceKind::LavdReenqueueViaBtqDrain { .. } => e.name == Some("lavd_reenqueue_via_btq_drain"@),
                TraceKind::CgroupBwConsumeNs { .. } => e.name == Some("cgroup_bw_consume"@),
                TraceKind::CgroupBwReplenish { .. } => e.name == Some("cgroup_bw_replenish"@),
                TraceKind::Runnable { .. } => e.name == Some("ops.runnable"@),
                TraceKind::Dequeue { .. } => e.name == Some("ops.dequeue"@),
                TraceKind::Quiescent { .. } => e.name == Some("ops.quiescent"@),
                TraceKind::UpdateIdle { .. } => e.name == Some("ops.update_idle"@),
                TraceKind::CgroupInit { .. } => e.name == Some("ops.cgroup_init"@),
                TraceKind::CgroupExit { .. } => e.name == Some("ops.cgroup_exit"@),
                TraceKind::CgroupSetBandwidth { .. } => e.name == Some("ops.cgroup_set_bandwidth"@),
                TraceKind::CgroupMove { .. } => e.name == Some("ops.cgroup_move"@),
                TraceKind::InitTask { .. } => e.name == Some("ops.init_task"@),
                TraceKind::ExitTask { .. } => e.name == Some("ops.exit_task"@),
                TraceKind::Enable { .. } => e.name == Some("ops.enable"@),
                TraceKind::SetCpumask { .. } => e.name == Some("ops.set_cpumask"@),
                TraceKind::HelperNow { .. } => e.name == Some("scx_bpf_now"@),
                TraceKind::HelperTaskCgroup { .. } => e.name == Some("scx_bpf_task_cgroup"@),
                TraceKind::HelperTaskCpu { .. } => e.name == Some("scx_bpf_task_cpu"@),
                TraceKind::CreateDsq { .. } => e.name == Some("scx_bpf_create_dsq"@),
                TraceKind::DestroyDsq { .. } => e.name == Some("scx_bpf_destroy_dsq"@),
                TraceKind::DsqNrQueued { .. } => e.name == Some("scx_bpf_dsq_nr_queued"@),
                TraceKind::CbwPutAside { .. } => e.name == Some("cbw_put_aside"@),
                TraceKind::CbwDrainBtqBatch { .. } => e.name == Some("cbw_drain_btq_batch"@),
                TraceKind::CbwThrottleCgroups { .. } => e.name == Some("cbw_throttle_cgroups"@),
                TraceKind::FutexBoost { .. } => e.name == Some("futex_boost"@),
                TraceKind::Balance { .. } => e.name == Some("balance"@),
                _ => e.name is None,
            }
        }),
{
}

/// Events of one sort are in one category: runs, wakeups, kicks, queues, the
/// simulator's own moves, bandwidth, callbacks and helpers, and interrupts by what
/// they are.
pub proof fn law_events_of_a_sort_share_a_category(
    names: Seq<(Pid, String)>,
    masks: Seq<String>,
    futex_texts: Seq<String>,
    ev: TraceEvent,
)
    ensures
        ({
            let e = shown(names, masks, futex_texts, ev);
            &&& ev.kind is TaskScheduled || ev.kind is TaskPreempted || ev.kind is TaskYielded || ev.kind is TaskSlept || ev.kind is TaskCompleted || ev.kind is SimulationEnd ==> e.category == Some("ONCPU"@)
            &&& ev.kind is TaskWoke ==> e.category == Some("WAKEE"@)
            &&& ev.kind is CpuIdle ==> e.category == Some("IDLE"@)
            &&& ev.kind is DsqInsert || ev.kind is DsqInsertVtime ==> e.category == Some("SCX_DSQ"@)
            &&& ev.kind is KickCpu ==> e.category == Some("IPI_SEND"@)
            &&& ev.kind is Tick ==> e.category == Some("SOFTIRQ"@)
            &&& ev.kind is PutPrevTask || ev.kind is SelectTaskRq || ev.kind is EnqueueTask || ev.kind is PickTask || ev.kind is SetNextTask || ev.kind is DsqMoveToLocal || ev.kind is DispatchRejected ==> e.category == Some("SCXSIM_OPS"@)
            &&& ev.kind is CgroupBwCharge || ev.kind is CgroupBwDenied || ev.kind is CgroupBwDequeueOnThrottle || ev.kind is CgroupBwReenqueueOnReplenish || ev.kind is CgroupBwConsumeNs || ev.kind is CgroupBwReplenish ==> e.category == Some("SCXSIM_CGROUP_BW"@)
            &&& ev.kind is LavdBailOnCgroupThrottle ==> e.category == Some("SCXSIM_LAVD_BAIL_CGT"@)
            &&& ev.kind is LavdReenqueueViaBtqDrain ==> e.category == Some("SCXSIM_LAVD_REENQ_BTQ"@)
            &&& ev.kind is Runnable || ev.kind is Dequeue || ev.kind is Quiescent || ev.kind is UpdateIdle || ev.kind is CgroupInit || ev.kind is CgroupExit || ev.kind is CgroupSetBandwidth || ev.kind is CgroupMove || ev.kind is InitTask || ev.kind is ExitTask || ev.kind is Enable || ev.kind is SetCpumask || ev.kind is HelperNow || ev.kind is HelperTaskCgroup || ev.kind is HelperTaskCpu || ev.kind is CreateDsq || ev.kind is DestroyDsq || ev.kind is DsqNrQueued || ev.kind is CbwPutAside || ev.kind is CbwDrainBtqBatch || ev.kind is CbwThrottleCgroups || ev.kind is FutexBoost ==> e.category == Some("SCXSIM_STRUCTOP"@)
            &&& ev.kind is Balance ==> e.category == Some("SCXSIM_OPS"@)
            &&& ev.kind is IrqStart ==> e.category == Some(
                if ev.kind->IrqStart_irq_type is HardIrq {
                    "HARDIRQ"@
                } else {
                    "SOFTIRQ"@
                },
            )
        }),
{
}

/// The events that are about no task are those that name a CPU, a queue or a control
/// group only.
pub proof fn law_only_events_without_a_task_are_about_none(kind: TraceKind)
    ensures
        spec_event_pid(kind) is None <==> {
            ||| kind is CpuIdle
            ||| kind is KickCpu
            ||| kind is IrqStart
            ||| kind is IrqEnd
            ||| kind == (TraceKind::Balance { prev_pid: None })
            ||| kind is DsqMoveToLocal
            ||| kind is LavdReenqueueViaBtqDrain
            ||| kind is CgroupBwConsumeNs
            ||| kind is CgroupBwReplenish
            ||| kind is UpdateIdle
            ||| kind is CgroupInit
            ||| kind is CgroupExit
            ||| kind is CgroupSetBandwidth
            ||| kind is HelperNow
            ||| kind is CreateDsq
            ||| kind is DestroyDsq
            ||| kind is DsqNrQueued
            ||| kind is CbwPutAside
            ||| kind is CbwDrainBtqBatch
            ||| kind is CbwThrottleCgroups
        },
{
}

/// `perfetto_protos::trace::Trace`: a list of packets.
#[verifier::external_type_specification]
#[verifier::external_body]
pub struct ExTraceProto(TraceProto);

/// `protobuf::Error`.
#[verifier::external_type_specification]
#[verifier::external_body]
pub struct ExProtobufError(protobuf::Error);

/// The packets of a protobuf trace, in order.
pub uninterp spec fn packets_in(p: TraceProto) -> Seq<PacketView>;

/// Whether a protobuf trace holds nothing but what `packets_in` says of it.
pub uninterp spec fn holds_nothing_else(p: TraceProto) -> bool;

/// The bytes that packets are serialised to; none where they cannot be.
pub uninterp spec fn encoded(packets: Seq<PacketView>) -> Option<Seq<u8>>;

/// Calls `perfetto_protos::trace::Trace::new`, which gives a trace without packets and with
/// nothing else in it.
#[verifier::external_body]
fn new_trace() -> (r: TraceProto)
    ensures
        packets_in(r) == Seq::<PacketView>::empty(),
        holds_nothing_else(r),
{
    TraceProto::new()
}

/// Appends a `TracePacket` of a sequence with a `TrackDescriptor` of a process to
/// the list of packets.
#[verifier::external_body]
fn push_process(proto: &mut TraceProto, seq_id: u32, uuid: u64, pid: i32, name: &str)
    ensures
        packets_in(*final(proto)) == packets_in(*old(proto)).push(
            PacketView::Process { seq_id, uuid, pid, name: name@ },
        ),
        holds_nothing_else(*final(proto)) == holds_nothing_else(*old(proto)),
{
    let mut process = ProcessDescriptor::new();
    process.pid = Some(pid);
    process.process_name = Some(name.to_string());
    let mut track = TrackDescriptor::new();
    track.uuid = Some(uuid);
    track.process = MessageField::some(process);
    let mut packet = TracePacket::new();
    packet.set_trusted_packet_sequence_id(seq_id);
    packet.set_track_descriptor(track);
    proto.packet.push(packet);
}

/// Appends a `TracePacket` of a sequence with a `TrackDescriptor` of a thread to
/// the list of packets.
#[verifier::external_body]
fn push_thread(
    proto: &mut TraceProto,
    seq_id: u32,
    uuid: u64,
    parent: u64,
    pid: i32,
    tid: i32,
    name: String,
)
    ensures
        packets_in(*final(proto)) == packets_in(*old(proto)).push(
            PacketView::Thread { seq_id, uuid, parent, pid, tid, name: name@ },
        ),
        holds_nothing_else(*final(proto)) == holds_nothing_else(*old(proto)),
{
    let mut thread = ThreadDescriptor::new();
    thread.pid = Some(pid);
    thread.tid = Some(tid);
    thread.thread_name = Some(name);
    let mut track = TrackDescriptor::new();
    track.uuid = Some(uuid);
    track.parent_uuid = Some(parent);
    track.thread = MessageField::some(thread);
    let mut packet = TracePacket::new();
    packet.set_trusted_packet_sequence_id(seq_id);
    packet.set_track_descriptor(track);
    proto.packet.push(packet);
}

/// Appends a `TracePacket` of a sequence with a `TrackEvent` to the list of
/// packets.
#[verifier::external_body]
fn push_event(proto: &mut TraceProto, seq_id: u32, time_ns: u64, slice: Slice, track: u64)
    ensures
        packets_in(*final(proto)) == packets_in(*old(proto)).push(
            PacketView::Event { seq_id, time_ns, event: opened(slice, track) },
        ),
        holds_nothing_else(*final(proto)) == holds_nothing_else(*old(proto)),
{
    let mut event = TrackEvent::new();
    event.set_type(
        match slice {
            Slice::Begin => track_event::Type::TYPE_SLICE_BEGIN,
            Slice::End => track_event::Type::TYPE_SLICE_END,
            Slice::Instant => track_event::Type::TYPE_INSTANT,
        },
    );
    event.track_uuid = Some(track);
    let mut packet = TracePacket::new();
    packet.timestamp = Some(time_ns);
    packet.set_trusted_packet_sequence_id(seq_id);
    packet.set_track_event(event);
    proto.packet.push(packet);
}

/// The packets with the last event changed.
pub open spec fn with_last(packets: Seq<PacketView>, event: EventView) -> Seq<PacketView> {
    packets.drop_last().push(
        PacketView::Event {
            seq_id: packets.last()->Event_seq_id,
            time_ns: packets.last()->Event_time_ns,
            event,
        },
    )
}

/// Whether the last packet is an event.
pub open spec fn ends_in_event(packets: Seq<PacketView>) -> bool {
    packets.len() > 0 && packets.last() is Event
}

/// Adds a category to the `TrackEvent` of the last packet, which has none yet.
#[verifier::external_body]
fn set_category(proto: &mut TraceProto, category: &str)
    requires
        ends_in_event(packets_in(*old(proto))),
        packets_in(*old(proto)).last()->event.category is None,
    ensures
        packets_in(*final(proto)) == with_last(
            packets_in(*old(proto)),
            packets_in(*old(proto)).last()->event.in_category(category@),
        ),
        holds_nothing_else(*final(proto)) == holds_nothing_else(*old(proto)),
{
    let event = proto.packet.last_mut().unwrap().mut_track_event();
    event.categories.push(category.to_string());
}

/// Sets the name of the `TrackEvent` of the last packet.
#[verifier::external_body]
fn set_name(proto: &mut TraceProto, name: &str)
    requires
        ends_in_event(packets_in(*old(proto))),
    ensures
        packets_in(*final(proto)) == with_last(
            packets_in(*old(proto)),
            packets_in(*old(proto)).last()->event.called(name@),
        ),
        holds_nothing_else(*final(proto)) == holds_nothing_else(*old(proto)),
{
    let event = proto.packet.last_mut().unwrap().mut_track_event();
    event.set_name(name.to_string());
}

/// Appends a `DebugAnnotation` to the `TrackEvent` of the last packet.
#[verifier::external_body]
fn annotate(proto: &mut TraceProto, name: &str, value: &AnnValue)
    requires
        ends_in_event(packets_in(*old(proto))),
    ensures
        packets_in(*final(proto)) == with_last(
            packets_in(*old(proto)),
            packets_in(*old(proto)).last()->event.with((name@, value@)),
        ),
        holds_nothing_else(*final(proto)) == holds_nothing_else(*old(proto)),
{
    let mut note = DebugAnnotation::new();
    note.set_name(name.to_string());
    match value {
        AnnValue::Uint(v) => note.set_uint_value(*v),
        AnnValue::Int(v) => note.set_int_value(*v),
        AnnValue::Flag(v) => note.set_bool_value(*v),
        AnnValue::Text(t) => note.set_string_value(t.clone()),
    }
    proto.packet.last_mut().unwrap().mut_track_event().debug_annotations.push(note);
}

/// Calls `protobuf::Message::write_to_bytes`. Whether it succeeds, and with which
/// bytes, depends on the packets alone. Which packets can be serialised is left to
/// the name: the code of the messages decides, and that is made when their crate is
/// built.
#[verifier::external_body]
fn write_to_bytes(proto: &TraceProto) -> (r: Result<Vec<u8>, protobuf::Error>)
    requires
        holds_nothing_else(*proto),
    ensures
        match r {
            Ok(bytes) => encoded(packets_in(*proto)) == Some(bytes@),
            Err(_) => encoded(packets_in(*proto)) is None,
        },
{
    proto.write_to_bytes()
}

/// Appends an event.
fn push(proto: &mut TraceProto, seq_id: u32, time_ns: u64, e: &Event)
    ensures
        packets_in(*final(proto)) == packets_in(*old(proto)).push(
            PacketView::Event { seq_id, time_ns, event: e@ },
        ),
        holds_nothing_else(*final(proto)) == holds_nothing_else(*old(proto)),
{
    let ghost before = packets_in(*proto);
    push_event(proto, seq_id, time_ns, e.slice, e.track);
    let ghost mut built = opened(e.slice, e.track);
    if let Some(c) = e.category {
        set_category(proto, c);
        proof {
            built = built.in_category(c@);
            assert(packets_in(*proto) =~= before.push(
                PacketView::Event { seq_id, time_ns, event: built },
            ));
        }
    }
    if let Some(n) = &e.name {
        set_name(proto, n.as_str());
        proof {
            built = built.called(n@);
            assert(packets_in(*proto) =~= before.push(
                PacketView::Event { seq_id, time_ns, event: built },
            ));
        }
    }
    let ghost base = built;
    let ghost notes = e@.annotations;
    let mut i: usize = 0;
    proof {
        assert(built.annotations =~= notes.take(0));
    }
    while i < e.annotations.len()
        invariant
            i <= e.annotations@.len(),
            notes == e.annotations@.map_values(|a: Annotation| ann_view(a)),
            built == (EventView { annotations: notes.take(i as int), ..base }),
            packets_in(*proto) == before.push(PacketView::Event { seq_id, time_ns, event: built }),
            holds_nothing_else(*proto) == holds_nothing_else(*old(proto)),
        decreases e.annotations@.len() - i,
    {
        let a = &e.annotations[i];
        annotate(proto, a.name, &a.value);
        proof {
            built = built.with((a.name@, a.value@));
            assert(notes[i as int] == (a.name@, a.value@));
            assert(notes.take(i + 1) =~= notes.take(i as int).push(notes[i as int]));
            assert(packets_in(*proto) =~= before.push(
                PacketView::Event { seq_id, time_ns, event: built },
            ));
        }
        i = i + 1;
    }
    proof {
        assert(notes.take(i as int) =~= notes);
        assert(built =~= e@);
    }
}

/// Appends a recorded event.
fn emit_event(trace: &Trace, ev: &TraceEvent, proto: &mut TraceProto)
    ensures
        packets_in(*final(proto)) == packets_in(*old(proto)).push(
            PacketView::Event {
                seq_id: SCXSIM_TRUSTED_SEQ_ID,
                time_ns: ev.time_ns,
                event: shown(trace.names@, trace.masks@, trace.futex_texts@, *ev),
            },
        ),
        holds_nothing_else(*final(proto)) == holds_nothing_else(*old(proto)),
{
    push(proto, SCXSIM_TRUSTED_SEQ_ID, ev.time_ns, &event_of(trace, ev));
}

/// Builds the protobuf trace.
fn build_proto(trace: &Trace) -> (proto: TraceProto)
    requires
        trace.nr_cpus <= i32::MAX,
    ensures
        packets_in(proto) == packets_of(*trace),
        holds_nothing_else(proto),
{
    let mut proto = new_trace();
    push_process(
        &mut proto,
        SCXSIM_TRUSTED_SEQ_ID,
        SCXSIM_PROCESS_UUID,
        SCXSIM_PROCESS_PID,
        "scxsim",
    );
    let ghost head = seq![process_packet()];
    proof {
        assert(packets_in(proto) =~= head + Seq::new(0, |c: int| cpu_packet(c)));
    }
    let mut c: u32 = 0;
    while c < trace.nr_cpus
        invariant
            c <= trace.nr_cpus <= i32::MAX,
            head == seq![process_packet()],
            packets_in(proto) == head + Seq::new(c as nat, |c: int| cpu_packet(c)),
            holds_nothing_else(proto),
        decreases trace.nr_cpus - c,
    {
        let cpu = CpuId(c);
        let mut name = "swapper/".to_string();
        name.append(dec(c as u64).as_str());
        push_thread(
            &mut proto,
            SCXSIM_TRUSTED_SEQ_ID,
            cpu_track_uuid(cpu),
            SCXSIM_PROCESS_UUID,
            SCXSIM_PROCESS_PID,
            cpu_swapper_tid(cpu),
            name,
        );
        proof {
            assert(Seq::new((c + 1) as nat, |c: int| cpu_packet(c)) =~= Seq::new(
                c as nat,
                |c: int| cpu_packet(c),
            ).push(cpu_packet(c as int)));
            assert(packets_in(proto) =~= head + Seq::new((c + 1) as nat, |c: int| cpu_packet(c)));
        }
        c = c + 1;
    }
    let ghost cpus = packets_in(proto);
    let pids = collect_task_pids(trace);
    let ghost task = |i: int| task_packet(trace.names@, pids_of(trace.events@)[i]);
    let mut i: usize = 0;
    proof {
        assert(packets_in(proto) =~= cpus + Seq::new(0, task));
    }
    while i < pids.len()
        invariant
            i <= pids@.len(),
            pids@ == pids_of(trace.events@),
            task == (|i: int| task_packet(trace.names@, pids_of(trace.events@)[i])),
            packets_in(proto) == cpus + Seq::new(i as nat, task),
            holds_nothing_else(proto),
        decreases pids@.len() - i,
    {
        let pid = pids[i];
        push_thread(
            &mut proto,
            SCXSIM_TRUSTED_SEQ_ID,
            task_track_uuid(pid),
            SCXSIM_PROCESS_UUID,
            SCXSIM_PROCESS_PID,
            pid.0,
            trace.task_name(pid).to_string(),
        );
        proof {
            assert(packets_in(proto) =~= cpus + Seq::new((i + 1) as nat, task));
        }
        i = i + 1;
    }
    let ghost tracks = packets_in(proto);
    let ghost event = |i: int| event_packet(*trace, i);
    i = 0;
    proof {
        assert(packets_in(proto) =~= tracks + Seq::new(0, event));
    }
    while i < trace.events.len()
        invariant
            i <= trace.events@.len(),
            event == (|i: int| event_packet(*trace, i)),
            packets_in(proto) == tracks + Seq::new(i as nat, event),
            holds_nothing_else(proto),
        decreases trace.events@.len() - i,
    {
        emit_event(trace, &trace.events[i], &mut proto);
        proof {
            assert(packets_in(proto) =~= tracks + Seq::new((i + 1) as nat, event));
        }
        i = i + 1;
    }
    proof {
        assert(packets_in(proto) =~= packets_of(*trace));
    }
    proto
}

/// Why a trace could not be written.
#[derive(Clone, Copy, Debug, PartialEq, Eq, Structural)]
pub enum WriteError {
    /// The packets could not be serialised.
    Encode,
}

/// What the outcome of serialising says of a trace: its bytes, or that there are
/// none.
pub fn written(outcome: Result<Vec<u8>, protobuf::Error>) -> (r: Result<Vec<u8>, WriteError>)
    ensures
        r == match outcome {
            Ok(bytes) => Ok::<Vec<u8>, WriteError>(bytes),
            Err(_) => Err(WriteError::Encode),
        },
{
    match outcome {
        Ok(bytes) => Ok(bytes),
        Err(_) => Err(WriteError::Encode),
    }
}

/// The bytes of a trace. It fails exactly where the trace's packets cannot be
/// serialised.
pub fn write_pb(trace: &Trace) -> (r: Result<Vec<u8>, WriteError>)
    requires
        trace.nr_cpus <= i32::MAX,
    ensures
        match r {
            Ok(bytes) => encoded(packets_of(*trace)) == Some(bytes@),
            Err(e) => e == WriteError::Encode && encoded(packets_of(*trace)) is None,
        },
{
    let proto = build_proto(trace);
    written(write_to_bytes(&proto))
}

/// The texts by which queues, refusals and interrupts are shown: the two built-in queues by
/// name, the queue of a CPU by its number, another by its number in hexadecimal.
pub proof fn law_queues_are_shown_by_name(cpu: u32, id: DsqId)
    ensures
        dsq_text(DsqId(0x8000_0000_0000_0001)) == "GLOBAL"@,
        dsq_text(DsqId(0x8000_0000_0000_0002)) == "LOCAL"@,
        dsq_text(DsqId((0xC000_0000_0000_0000 + cpu) as u64)) == "LOCAL_ON("@ + decimal(cpu as nat)
            + ")"@,
        id.0 < 0x8000_0000_0000_0000 ==> dsq_text(id) == prefixed_hex(id.0 as nat),
        reason_text(DispatchRejectReason::CpumaskViolation) == "cpumask_violation"@,
        reason_text(DispatchRejectReason::MigrationDisabled) == "migration_disabled"@,
        irq_text(IrqType::HardIrq) == "HARDIRQ"@,
        irq_text(IrqType::SoftIrq) == "SOFTIRQ"@,
        bit(true) == 1 && bit(false) == 0,
{
}

/// The entry of a list of texts is the one at its place; past the end there is none.
pub proof fn law_entries_stand_at_their_places(texts: Seq<String>, i: usize)
    ensures
        i < texts.len() ==> entry(texts, i) == texts[i as int]@,
        i >= texts.len() ==> entry(texts, i) == ""@,
{
}

/// The numbers by which readers know the process, the tasks and the CPUs of a trace.
pub proof fn law_tracks_have_their_numbers(pid: Pid, cpu: CpuId)
    requires
        pid.0 >= 0,
    ensures
        SCXSIM_PROCESS_UUID == 0x5C50_0000_0000_0001,
        SCXSIM_PROCESS_PID == 0x5C51_5C51,
        SCXSIM_TRUSTED_SEQ_ID == 1,
        task_uuid(pid) == 0x5C50_0100_0000_0000 + pid.0,
        cpu_uuid(cpu) == 0x5C50_0200_0000_0000 + cpu.0,
{
}

} // verus!
