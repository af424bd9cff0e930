//! Control groups that come, go and change while a simulation runs.

use vstd::prelude::*;

use crate::cgroup::{cpuset_view, named, RegistryView};
use crate::run_task::Step;
use crate::sim_state::{sat32, SimState, SimView};
use crate::state::{
    ExitView, HaltReason, OpsTaskState, Reply, ReplyView, Request, TaskState, Work,
};
use crate::trace::{ExitKind, TraceKind};
use crate::types::{CgroupId, CpuId, Pid, TimeNs, ROOT_CGID};

verus! {

/// A callback's return code.
pub open spec fn rc_of(value: i64) -> i32 {
    value as i32
}

/// The first place of a task in a queue.
pub open spec fn place(q: Seq<Pid>, pid: Pid) -> Option<int>
    decreases q.len(),
{
    if q.len() == 0 {
        None
    } else {
        match place(q.drop_last(), pid) {
            Some(i) => Some(i),
            None => if q.last() == pid {
                Some(q.len() - 1)
            } else {
                None
            },
        }
    }
}

/// What the first place of a task is.
pub proof fn lemma_place(q: Seq<Pid>, pid: Pid)
    ensures
        match place(q, pid) {
            Some(i) => 0 <= i < q.len() && q[i] == pid && forall|j: int|
                0 <= j < i ==> q[j] != pid,
            None => !q.contains(pid),
        },
    decreases q.len(),
{
    if q.len() > 0 {
        let rest = q.drop_last();
        lemma_place(rest, pid);
        match place(rest, pid) {
            Some(i) => {
                assert forall|j: int| 0 <= j < i implies q[j] != pid by {
                    assert(rest[j] != pid);
                }
            },
            None => {
                assert forall|j: int| 0 <= j < rest.len() implies q[j] != pid by {
                    assert(rest[j] == q[j]);
                    assert(rest.contains(rest[j]));
                }
            },
        }
    }
}

/// The queues from `from` on without the first occurrence of a task.
pub open spec fn taken_out(local: Seq<Seq<Pid>>, pid: Pid, from: nat) -> Seq<Seq<Pid>>
    decreases local.len() - from,
{
    if from >= local.len() {
        local
    } else {
        match place(local[from as int], pid) {
            Some(i) => local.update(from as int, local[from as int].remove(i)),
            None => taken_out(local, pid, from + 1),
        }
    }
}

/// The control group under which another is created: the one named, or the
/// root.
pub open spec fn parent_of(r: RegistryView, name: Option<Seq<char>>) -> Option<u64> {
    match name {
        Some(n) => match r.get_by_name(n) {
            Some(g) => Some(g.id),
            None => None,
        },
        None => Some(ROOT_CGID),
    }
}

impl SimView {
    /// The simulation ends at once, with what is left to do dropped.
    pub open spec fn ended(self, exit: ExitView) -> SimView {
        SimView { work: seq![Work::Finish], exit, ..self }
    }

    /// A task moves to another control group: if it waits, it leaves its
    /// queues first and goes back to the scheduler afterwards.
    pub open spec fn cgroup_migrate(self, event: int) -> Step {
        let e = self.scenario.cgroup_migrate_events@[event];
        match self.find(e.pid) {
            None => (self, Request::Continue),
            Some(i) => {
                let from = self.registry.get_by_name(e.from_cgroup@);
                let to = self.registry.get_by_name(e.to_cgroup@);
                if from is Some && to is Some {
                    let pid = e.pid;
                    let cpu = self.current_cpu;
                    let waits = self.tasks[i].state is Runnable;
                    let (a, b) = (CgroupId(from->0.id), CgroupId(to->0.id));
                    (
                        self.then_do(Work::FlushStaged).then_if(
                            waits,
                            Work::Call {
                                request: Request::Enqueue { cpu, pid, flags: 0 },
                                cpu,
                                charge: Some(cpu),
                                note: None,
                            },
                        ).then_if(
                            waits,
                            Work::SetOps { pid, ops_state: OpsTaskState::Queued },
                        ).then_call(
                            cpu,
                            Request::CgroupMove { pid, from: a, to: b },
                            Some(TraceKind::CgroupMove { pid, from_cgid: a, to_cgid: b }),
                        ).then_if(waits, Work::MigrateDequeue { pid, cpu }),
                        Request::Continue,
                    )
                } else {
                    (
                        self,
                        Request::Halt(HaltReason::MigrateCgroupMissing { event: event as usize }),
                    )
                }
            },
        }
    }

    /// A waiting task leaves every queue, and the scheduler if it holds it.
    pub open spec fn migrate_dequeue(self, pid: Pid, cpu: CpuId) -> Step {
        let s1 = SimView { local: taken_out(self.local, pid, 0), ..self };
        match self.find(pid) {
            Some(i) if self.tasks[i].ops_state is Queued => (
                s1.set_ops(pid, OpsTaskState::Free).then_call(
                    cpu,
                    Request::Dequeue { cpu, pid, flags: 0 },
                    Some(TraceKind::Dequeue { pid, deq_flags: 0 }),
                ),
                Request::RemoveFromQueues { pid },
            ),
            _ => (s1, Request::RemoveFromQueues { pid }),
        }
    }

    /// A control group is created, unless there are as many as there may be.
    pub open spec fn cgroup_create(self, event: int) -> Step {
        let e = self.scenario.cgroup_create_events@[event];
        let count = sat32(self.registry.groups.len() as int);
        let max = self.scenario.max_cgroups;
        let parent = parent_of(self.registry, crate::state::text_view(e.parent_name));
        if count >= max {
            (
                self.ended(
                    ExitView::ErrorCgroupExhausted {
                        cgroup_name: e.name@,
                        active_count: count,
                        max_cgroups: max,
                    },
                ),
                Request::Continue,
            )
        } else if parent is None {
            (self, Request::Halt(HaltReason::ParentCgroupMissing { event: event as usize }))
        } else if self.registry.next == u64::MAX || self.registry.get(parent->0) is None
            || self.registry.get(parent->0)->0.level == u32::MAX {
            (self, Request::Halt(HaltReason::OutOfRange))
        } else {
            let cgid = CgroupId(self.registry.next);
            let cpu = self.current_cpu;
            (
                SimView {
                    registry: self.registry.create(e.name@, parent->0, cpuset_view(e.cpuset)),
                    ..self
                }.then_do(
                    Work::CgroupCreated {
                        event: event as usize,
                        cgid,
                        cpu,
                        at: self.cpu(cpu).local_clock,
                        count,
                    },
                ),
                Request::CgroupInit { cgid },
            )
        }
    }

    /// The scheduler accepted the control group, or the simulation ends.
    pub open spec fn cgroup_created(
        self,
        r: ReplyView,
        event: int,
        cgid: CgroupId,
        cpu: CpuId,
        at: TimeNs,
        count: u32,
    ) -> Step {
        let s1 = self.absorb(r).record(
            at,
            cpu,
            TraceKind::CgroupInit { cgid, rc: rc_of(r.value) },
        ).charge(cpu, r.cost);
        (
            if rc_of(r.value) != 0 {
                s1.ended(
                    ExitView::ErrorCgroupExhausted {
                        cgroup_name: self.scenario.cgroup_create_events@[event].name@,
                        active_count: count,
                        max_cgroups: self.scenario.max_cgroups,
                    },
                )
            } else {
                s1
            },
            Request::Continue,
        )
    }

    /// A control group is destroyed, if it exists.
    pub open spec fn cgroup_destroy(self, event: int) -> Step {
        let name = self.scenario.cgroup_destroy_events@[event].name@;
        match named(self.registry.names, name) {
            None => (self, Request::Continue),
            Some(id) => (
                SimView { registry: self.registry.destroy(name), ..self }.then_call(
                    self.current_cpu,
                    Request::CgroupExit { cgid: CgroupId(id) },
                    Some(TraceKind::CgroupExit { cgid: CgroupId(id) }),
                ),
                Request::Continue,
            ),
        }
    }

    /// A control group gets another CPU set, if it exists, and the scheduler
    /// is told.
    pub open spec fn cgroup_cpuset_change(self, event: int) -> Step {
        let e = self.scenario.cgroup_cpuset_change_events@[event];
        let after = self.registry.with_cpuset(e.cgroup_name@, e.new_cpuset@);
        let g = self.registry.get_by_name(e.cgroup_name@);
        let cpu = self.current_cpu;
        let s1 = SimView { registry: after, ..self };
        match g {
            None => (s1, Request::Continue),
            Some(g) => (
                s1.then_do(
                    Work::CpusetInited {
                        cgid: CgroupId(g.id),
                        cpu,
                        at: self.cpu(cpu).local_clock,
                    },
                ),
                Request::CgroupInit { cgid: CgroupId(g.id) },
            ),
        }
    }

    /// The scheduler heard of the CPU set.
    pub open spec fn cpuset_inited(
        self,
        r: ReplyView,
        cgid: CgroupId,
        cpu: CpuId,
        at: TimeNs,
    ) -> Step {
        (
            self.absorb(r).record(
                at,
                cpu,
                TraceKind::CgroupInit { cgid, rc: rc_of(r.value) },
            ).charge(cpu, r.cost),
            Request::Continue,
        )
    }
}

/// A group too many is refused: nothing is created and the simulation ends
/// with an error that names it.
pub proof fn law_cgroup_limit_is_enforced(s: SimView, event: int)
    requires
        s.registry.groups.len() >= s.scenario.max_cgroups,
    ensures
        s.cgroup_create(event).0.registry == s.registry,
        s.cgroup_create(event).0.exit == (ExitView::ErrorCgroupExhausted {
            cgroup_name: s.scenario.cgroup_create_events@[event].name@,
            active_count: sat32(s.registry.groups.len() as int),
            max_cgroups: s.scenario.max_cgroups,
        }),
        s.cgroup_create(event).0.work == seq![Work::Finish],
{
}

/// A copy of a list of CPUs.
pub(crate) fn copy_cpus(cpus: &Vec<CpuId>) -> (r: Vec<CpuId>)
    ensures
        r@ == cpus@,
{
    let mut r: Vec<CpuId> = Vec::new();
    let mut i: usize = 0;
    while i < cpus.len()
        invariant
            i <= cpus@.len(),
            r@ == cpus@.take(i as int),
        decreases cpus@.len() - i,
    {
        r.push(cpus[i]);
        proof {
            assert(cpus@.take(i + 1) =~= cpus@.take(i as int).push(cpus@[i as int]));
        }
        i = i + 1;
    }
    proof {
        assert(cpus@.take(i as int) =~= cpus@);
    }
    r
}

/// A copy of a CPU set.
pub(crate) fn copy_cpuset(cpuset: &Option<Vec<CpuId>>) -> (r: Option<Vec<CpuId>>)
    ensures
        cpuset_view(r) == cpuset_view(*cpuset),
{
    match cpuset {
        Some(cpus) => Some(copy_cpus(cpus)),
        None => None,
    }
}

impl SimState {
    /// Ends the simulation.
    pub(crate) fn end(&mut self, exit: ExitKind)
        requires
            old(self).wf(),
        ensures
            final(self).wf(),
            final(self)@ == old(self)@.ended(exit@),
    {
        self.clear_work();
        self.set_exit(exit);
        self.then_do(Work::Finish);
        proof {
            assert(self@.work =~= seq![Work::Finish]);
        }
    }

    pub(crate) fn cgroup_migrate(&mut self, event: usize) -> (r: Request)
        requires
            old(self).wf(),
            event < old(self)@.scenario.cgroup_migrate_events@.len(),
        ensures
            final(self).wf(),
            (final(self)@, r) == old(self)@.cgroup_migrate(event as int),
    {
        proof {
            self.lemma_wf();
        }
        let e = &self.scenario().cgroup_migrate_events[event];
        let pid = e.pid;
        let i = match self.find_task(pid) {
            Some(i) => i,
            None => {
                return Request::Continue;
            },
        };
        let from = match self.registry().get_by_name(e.from_cgroup.as_str()) {
            Some(g) => g.cgid,
            None => {
                return Request::Halt(HaltReason::MigrateCgroupMissing { event });
            },
        };
        let to = match self.registry().get_by_name(e.to_cgroup.as_str()) {
            Some(g) => g.cgid,
            None => {
                return Request::Halt(HaltReason::MigrateCgroupMissing { event });
            },
        };
        let waits = match self.task(i).state {
            TaskState::Runnable => true,
            _ => false,
        };
        let cpu = self.current_cpu();
        self.then_do(Work::FlushStaged);
        self.then_if(
            waits,
            Work::Call {
                request: Request::Enqueue { cpu, pid, flags: 0 },
                cpu,
                charge: Some(cpu),
                note: None,
            },
        );
        self.then_if(waits, Work::SetOps { pid, ops_state: OpsTaskState::Queued });
        self.then_call(
            cpu,
            Request::CgroupMove { pid, from, to },
            Some(TraceKind::CgroupMove { pid, from_cgid: from, to_cgid: to }),
        );
        self.then_if(waits, Work::MigrateDequeue { pid, cpu });
        Request::Continue
    }

    fn take_out(&mut self, pid: Pid)
        requires
            old(self).wf(),
        ensures
            final(self).wf(),
            final(self)@ == (SimView { local: taken_out(old(self)@.local, pid, 0), ..old(self)@ }),
    {
        proof {
            self.lemma_wf();
        }
        let n = self.nr_cpus();
        let mut i: usize = 0;
        while i < n
            invariant
                self.wf(),
                self@ == old(self)@,
                n == self@.cpus.len(),
                n == self@.local.len(),
                n <= u32::MAX,
                i <= n,
                taken_out(self@.local, pid, 0) == taken_out(self@.local, pid, i as nat),
            decreases n - i,
        {
            let c = CpuId(i as u32);
            proof {
                lemma_place(self@.local[i as int], pid);
            }
            if let Some(at) = self.local_position(c, pid) {
                proof {
                    let q = self@.local[i as int];
                    assert(q.contains(q[at as int]));
                    assert(place(q, pid) == Some(at as int)) by {
                        let p = place(q, pid)->0;
                        if p < at {
                            assert(q[p] == pid);
                        } else if at < p {
                            assert(q[at as int] == pid);
                        }
                    }
                }
                self.remove_local(c, at);
                return;
            }
            i = i + 1;
        }
    }

    pub(crate) fn migrate_dequeue(&mut self, pid: Pid, cpu: CpuId) -> (r: Request)
        requires
            old(self).wf(),
            cpu.0 < old(self)@.cpus.len(),
        ensures
            final(self).wf(),
            (final(self)@, r) == old(self)@.migrate_dequeue(pid, cpu),
    {
        self.take_out(pid);
        if let Some(i) = self.find_task(pid) {
            if let OpsTaskState::Queued = self.task(i).ops_state {
                self.set_ops(pid, OpsTaskState::Free);
                self.then_call(
                    cpu,
                    Request::Dequeue { cpu, pid, flags: 0 },
                    Some(TraceKind::Dequeue { pid, deq_flags: 0 }),
                );
            }
        }
        Request::RemoveFromQueues { pid }
    }

    pub(crate) fn cgroup_create(&mut self, event: usize) -> (r: Request)
        requires
            old(self).wf(),
            event < old(self)@.scenario.cgroup_create_events@.len(),
        ensures
            final(self).wf(),
            (final(self)@, r) == old(self)@.cgroup_create(event as int),
    {
        proof {
            self.lemma_wf();
        }
        let groups = self.registry().len();
        let count: u32 = if groups > u32::MAX as usize {
            u32::MAX
        } else {
            groups as u32
        };
        let max_cgroups = self.scenario().max_cgroups;
        let e = &self.scenario().cgroup_create_events[event];
        let name = e.name.clone();
        if count >= max_cgroups {
            self.end(
                ExitKind::ErrorCgroupExhausted {
                    cgroup_name: name,
                    active_count: count,
                    max_cgroups,
                },
            );
            return Request::Continue;
        }
        let parent = match &e.parent_name {
            Some(p) => match self.registry().get_by_name(p.as_str()) {
                Some(g) => g.cgid,
                None => {
                    return Request::Halt(HaltReason::ParentCgroupMissing { event });
                },
            },
            None => CgroupId(ROOT_CGID),
        };
        let room = match self.registry().get(parent) {
            Some(g) => g.level < u32::MAX && self.registry().has_numbers(),
            None => false,
        };
        if !room {
            return Request::Halt(HaltReason::OutOfRange);
        }
        let cpuset = copy_cpuset(&e.cpuset);
        let cpu = self.current_cpu();
        let at = self.cpu(cpu).local_clock;
        let cgid = self.create_cgroup(name.as_str(), parent, cpuset);
        self.then_do(Work::CgroupCreated { event, cgid, cpu, at, count });
        Request::CgroupInit { cgid }
    }

    pub(crate) fn cgroup_created(
        &mut self,
        reply: &Reply,
        event: usize,
        cgid: CgroupId,
        cpu: CpuId,
        at: TimeNs,
        count: u32,
    ) -> (r: Request)
        requires
            old(self).wf(),
            reply@.ok(old(self)@.cpus.len()),
            cpu.0 < old(self)@.cpus.len(),
            event < old(self)@.scenario.cgroup_create_events@.len(),
        ensures
            final(self).wf(),
            (final(self)@, r) == old(self)@.cgroup_created(
                reply@,
                event as int,
                cgid,
                cpu,
                at,
                count,
            ),
    {
        self.absorb(reply);
        let rc = reply.value as i32;
        self.record(at, cpu, TraceKind::CgroupInit { cgid, rc });
        self.charge_sched_time(cpu, reply.cost);
        if rc != 0 {
            let cgroup_name = self.scenario().cgroup_create_events[event].name.clone();
            let max_cgroups = self.scenario().max_cgroups;
            self.end(
                ExitKind::ErrorCgroupExhausted { cgroup_name, active_count: count, max_cgroups },
            );
        }
        Request::Continue
    }

    pub(crate) fn cgroup_destroy(&mut self, event: usize) -> (r: Request)
        requires
            old(self).wf(),
            event < old(self)@.scenario.cgroup_destroy_events@.len(),
        ensures
            final(self).wf(),
            (final(self)@, r) == old(self)@.cgroup_destroy(event as int),
    {
        proof {
            self.lemma_wf();
        }
        let name = self.scenario().cgroup_destroy_events[event].name.clone();
        let cpu = self.current_cpu();
        if let Some(cgid) = self.destroy_cgroup(name.as_str()) {
            self.then_call(
                cpu,
                Request::CgroupExit { cgid },
                Some(TraceKind::CgroupExit { cgid }),
            );
        }
        Request::Continue
    }

    pub(crate) fn cgroup_cpuset_change(&mut self, event: usize) -> (r: Request)
        requires
            old(self).wf(),
            event < old(self)@.scenario.cgroup_cpuset_change_events@.len(),
        ensures
            final(self).wf(),
            (final(self)@, r) == old(self)@.cgroup_cpuset_change(event as int),
    {
        proof {
            self.lemma_wf();
        }
        let e = &self.scenario().cgroup_cpuset_change_events[event];
        let name = e.cgroup_name.clone();
        let cpus = copy_cpus(&e.new_cpuset);
        let cpu = self.current_cpu();
        let at = self.cpu(cpu).local_clock;
        let known: Option<CgroupId> = match self.registry().get_by_name(name.as_str()) {
            Some(g) => Some(g.cgid),
            None => None,
        };
        self.change_cpuset(name.as_str(), cpus);
        match known {
            Some(cgid) => {
                self.then_do(Work::CpusetInited { cgid, cpu, at });
                Request::CgroupInit { cgid }
            },
            None => Request::Continue,
        }
    }

    pub(crate) fn cpuset_inited(
        &mut self,
        reply: &Reply,
        cgid: CgroupId,
        cpu: CpuId,
        at: TimeNs,
    ) -> (r: Request)
        requires
            old(self).wf(),
            reply@.ok(old(self)@.cpus.len()),
            cpu.0 < old(self)@.cpus.len(),
        ensures
            final(self).wf(),
            (final(self)@, r) == old(self)@.cpuset_inited(reply@, cgid, cpu, at),
    {
        self.absorb(reply);
        self.record(at, cpu, TraceKind::CgroupInit { cgid, rc: reply.value as i32 });
        self.charge_sched_time(cpu, reply.cost);
        Request::Continue
    }
}

} // verus!
