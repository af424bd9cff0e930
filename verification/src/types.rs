//! Identifiers shared by every part of the simulator.

use vstd::prelude::*;

verus! {

/// Simulated time in nanoseconds since the start of the run.
pub type TimeNs = u64;

/// A task identifier.
#[derive(Clone, Copy, Debug, PartialEq, Eq, Structural, PartialOrd, Ord, Hash)]
pub struct Pid(pub i32);

/// A CPU index.
#[derive(Clone, Copy, Debug, PartialEq, Eq, Structural, PartialOrd, Ord, Hash)]
pub struct CpuId(pub u32);

/// A task's virtual time, as carried by ordered queue insertions.
#[derive(Clone, Copy, Debug, PartialEq, Eq, Structural, PartialOrd, Ord, Hash)]
pub struct Vtime(pub u64);

/// The global queue.
pub const DSQ_GLOBAL: u64 = 0x8000_0000_0000_0001;

/// The local queue of the CPU in context.
pub const DSQ_LOCAL: u64 = 0x8000_0000_0000_0002;

/// A dispatch queue identifier.
///
/// Built-in queues carry the top bit: the global queue, the local queue of
/// whichever CPU is being filled, and the local queue of a named CPU, whose
/// index sits in the low 32 bits.
#[derive(Clone, Copy, Debug, PartialEq, Eq, Structural, PartialOrd, Ord, Hash)]
pub struct DsqId(pub u64);

impl DsqId {
    /// The global queue.
    pub fn global() -> (r: DsqId)
        ensures
            r.0 == DSQ_GLOBAL,
    {
        DsqId(DSQ_GLOBAL)
    }

    /// Whether both marker bits of a CPU-addressed queue are set.
    pub open spec fn spec_is_local_on(self) -> bool {
        self.0 >= 0xC000_0000_0000_0000
    }

    /// Whether this is the local queue of the CPU in context.
    pub fn is_local(self) -> (r: bool)
        ensures
            r == (self.0 == DSQ_LOCAL),
    {
        self.0 == DSQ_LOCAL
    }

    /// Whether this addresses the local queue of a named CPU.
    pub fn is_local_on(self) -> (r: bool)
        ensures
            r == self.spec_is_local_on(),
    {
        let id: u64 = self.0;
        assert((id & 0xC000_0000_0000_0000 == 0xC000_0000_0000_0000) == (id
            >= 0xC000_0000_0000_0000)) by (bit_vector);
        id & 0xC000_0000_0000_0000 == 0xC000_0000_0000_0000
    }

    /// The CPU that a CPU-addressed queue names: its low 32 bits.
    pub fn local_on_cpu(self) -> (r: CpuId)
        ensures
            r.0 == self.0 % 0x1_0000_0000,
    {
        let id: u64 = self.0;
        assert(id & 0xFFFF_FFFF == id % 0x1_0000_0000) by (bit_vector);
        CpuId((id & 0xFFFF_FFFF) as u32)
    }
}

/// Kick only if the CPU is idle.
pub const KICK_IDLE: u64 = 1;

/// Preempt whatever the CPU runs.
pub const KICK_PREEMPT: u64 = 2;

/// Flags of a kick sent to a CPU.
#[derive(Clone, Copy, Debug, PartialEq, Eq, Structural, PartialOrd, Ord, Hash)]
pub struct KickFlags(pub u64);

impl KickFlags {
    /// Whether the idle bit is set.
    pub open spec fn spec_idle(self) -> bool {
        self.0 % 2 == 1
    }

    /// Whether the preempt bit is set.
    pub open spec fn spec_preempt(self) -> bool {
        (self.0 / 2) % 2 == 1
    }

    /// Whether the idle bit is set.
    pub fn idle(self) -> (r: bool)
        ensures
            r == self.spec_idle(),
    {
        let flags: u64 = self.0;
        assert((flags & 1 == 1) == (flags % 2 == 1)) by (bit_vector);
        flags & KICK_IDLE == KICK_IDLE
    }

    /// Whether the preempt bit is set.
    pub fn preempt(self) -> (r: bool)
        ensures
            r == self.spec_preempt(),
    {
        let flags: u64 = self.0;
        assert((flags & 2 == 2) == ((flags / 2) % 2 == 1)) by (bit_vector);
        flags & KICK_PREEMPT == KICK_PREEMPT
    }
}

/// The number of the root control group.
pub const ROOT_CGID: u64 = 1;

/// A control group identifier.
#[derive(Clone, Copy, Debug, PartialEq, Eq, Structural, PartialOrd, Ord, Hash)]
pub struct CgroupId(pub u64);

impl CgroupId {
    /// The root control group.
    pub fn root() -> (r: CgroupId)
        ensures
            r.0 == ROOT_CGID,
    {
        CgroupId(ROOT_CGID)
    }
}

/// The lowest bit of a kick's flags says that it is for an idle CPU, the one above it that
/// it preempts; they are told apart from each other and from the other bits.
pub proof fn law_kick_flags_are_bits(flags: u64)
    ensures
        KickFlags(flags).spec_idle() <==> flags & 1 == 1,
        KickFlags(flags).spec_preempt() <==> flags & 2 == 2,
        KickFlags(1).spec_idle() && !KickFlags(1).spec_preempt(),
        KickFlags(2).spec_preempt() && !KickFlags(2).spec_idle(),
{
    assert((flags & 1 == 1) == (flags % 2 == 1)) by (bit_vector);
    assert((flags & 2 == 2) == ((flags / 2) % 2 == 1)) by (bit_vector);
}

/// The queue of a CPU is one with both of its topmost bits set; the built-in queues and
/// those that a scheduler makes are not.
pub proof fn law_queues_of_cpus_have_both_bits(id: u64)
    ensures
        DsqId(id).spec_is_local_on() <==> id & 0xC000_0000_0000_0000 == 0xC000_0000_0000_0000,
        !DsqId(DSQ_GLOBAL).spec_is_local_on() && !DsqId(DSQ_LOCAL).spec_is_local_on(),
        id < 0x8000_0000_0000_0000 ==> !DsqId(id).spec_is_local_on(),
{
    assert((id & 0xC000_0000_0000_0000 == 0xC000_0000_0000_0000) == (id >= 0xC000_0000_0000_0000))
        by (bit_vector);
}

} // verus!
