//! Preemption of scheduler code by a counter of branches.

use vstd::prelude::*;

use crate::text::{
    contains_char, contains_text, find_char, first_at, hex_number, holds_text, lemma_first_at,
    parse_hex, word, word_at,
};
use crate::types::CpuId;

verus! {

/// Branches from where the counter stands.
#[derive(Clone, Copy, Debug, PartialEq, Eq, Structural)]
pub struct RelativeRbc(pub u64);

/// Branches from where the callback started.
#[derive(Clone, Copy, Debug, PartialEq, Eq, Structural)]
pub struct AbsoluteRbc(pub u64);

/// A number of branches.
#[derive(Clone, Copy, Debug, PartialEq, Eq, Structural)]
pub enum RbcTarget {
    Relative(RelativeRbc),
    Absolute(AbsoluteRbc),
}

/// Where a worker is to be preempted.
#[derive(Clone, Copy, Debug, PartialEq, Eq, Structural)]
pub struct PreemptTarget {
    pub count_rbc: RbcTarget,
    /// The instruction, where it is known.
    pub target_rip: Option<u64>,
}

/// What a worker's callback cost.
#[derive(Clone, Copy, Debug, PartialEq, Eq, Structural)]
pub struct StructopDelta {
    pub rbc_total: u64,
    /// How often control was given back.
    pub interleave_count: u64,
}

/// The sum of two costs.
pub open spec fn joined_delta(a: StructopDelta, b: StructopDelta) -> StructopDelta {
    StructopDelta {
        rbc_total: (a.rbc_total + b.rbc_total) as u64,
        interleave_count: (a.interleave_count + b.interleave_count) as u64,
    }
}

/// Whether a cost can be added to another.
pub open spec fn can_join(a: StructopDelta, b: StructopDelta) -> bool {
    a.rbc_total + b.rbc_total <= u64::MAX && a.interleave_count + b.interleave_count <= u64::MAX
}

/// Adds what a worker's callback cost to the account of its CPU; a CPU without
/// an account is passed over.
pub fn drain_structop_accum(accounts: &mut Vec<StructopDelta>, cpu: CpuId, delta: &StructopDelta)
    requires
        cpu.0 < old(accounts)@.len() ==> can_join(old(accounts)@[cpu.0 as int], *delta),
    ensures
        final(accounts)@ == if cpu.0 < old(accounts)@.len() {
            old(accounts)@.update(
                cpu.0 as int,
                joined_delta(old(accounts)@[cpu.0 as int], *delta),
            )
        } else {
            old(accounts)@
        },
{
    let i = cpu.0 as usize;
    if i < accounts.len() {
        let before = accounts[i];
        accounts.set(
            i,
            StructopDelta {
                rbc_total: before.rbc_total + delta.rbc_total,
                interleave_count: before.interleave_count + delta.interleave_count,
            },
        );
    }
}

/// What a worker does next.
#[derive(Clone, Copy, Debug, PartialEq, Eq, Structural)]
pub enum WorkerStage {
    /// Prepare its instrumentation.
    Setup,
    /// Wait until it may run.
    WaitForToken,
    /// Enter the simulation.
    Enter,
    /// Set where it is preempted.
    Arm,
    /// Run its callback.
    Run,
    /// Switch its instrumentation off.
    Disarm,
    /// Account for what the callback cost.
    Drain,
    /// Forget which callback ran.
    ClearOps,
    /// Let the next worker run.
    Finish,
    /// Leave the simulation.
    Leave,
    /// Give its instrumentation up.
    Teardown,
    Done,
}

/// What a worker does next. `has_target` says whether there is a place to
/// preempt it at.
pub open spec fn stage_after(stage: WorkerStage, has_target: bool) -> WorkerStage {
    match stage {
        WorkerStage::Setup => WorkerStage::WaitForToken,
        WorkerStage::WaitForToken => WorkerStage::Enter,
        WorkerStage::Enter => if has_target {
            WorkerStage::Arm
        } else {
            WorkerStage::Run
        },
        WorkerStage::Arm => WorkerStage::Run,
        WorkerStage::Run => WorkerStage::Disarm,
        WorkerStage::Disarm => WorkerStage::Drain,
        WorkerStage::Drain => WorkerStage::ClearOps,
        WorkerStage::ClearOps => WorkerStage::Finish,
        WorkerStage::Finish => WorkerStage::Leave,
        WorkerStage::Leave => WorkerStage::Teardown,
        WorkerStage::Teardown => WorkerStage::Done,
        WorkerStage::Done => WorkerStage::Done,
    }
}

impl WorkerStage {
    /// What a worker does next.
    pub fn next(self, has_target: bool) -> (r: WorkerStage)
        ensures
            r == stage_after(self, has_target),
    {
        match self {
            WorkerStage::Setup => WorkerStage::WaitForToken,
            WorkerStage::WaitForToken => WorkerStage::Enter,
            WorkerStage::Enter => if has_target {
                WorkerStage::Arm
            } else {
                WorkerStage::Run
            },
            WorkerStage::Arm => WorkerStage::Run,
            WorkerStage::Run => WorkerStage::Disarm,
            WorkerStage::Disarm => WorkerStage::Drain,
            WorkerStage::Drain => WorkerStage::ClearOps,
            WorkerStage::ClearOps => WorkerStage::Finish,
            WorkerStage::Finish => WorkerStage::Leave,
            WorkerStage::Leave => WorkerStage::Teardown,
            WorkerStage::Teardown => WorkerStage::Done,
            WorkerStage::Done => WorkerStage::Done,
        }
    }

    /// Whether a worker alone may touch the simulation here.
    pub open spec fn holds_token(self) -> bool {
        match self {
            WorkerStage::Enter => true,
            WorkerStage::Arm => true,
            WorkerStage::Run => true,
            WorkerStage::Disarm => true,
            WorkerStage::Drain => true,
            WorkerStage::ClearOps => true,
            WorkerStage::Finish => true,
            _ => false,
        }
    }
}

/// What touches the simulation happens between getting the token and giving it
/// back, and the callback is forgotten with the instrumentation off and before
/// the token goes on.
pub proof fn law_the_token_guards_the_simulation(stage: WorkerStage, has_target: bool)
    ensures
        stage_after(stage, has_target).holds_token() && !stage.holds_token() ==> stage
            == WorkerStage::WaitForToken,
        stage.holds_token() && !stage_after(stage, has_target).holds_token() ==> stage
            == WorkerStage::Finish,
        stage_after(stage, has_target) == WorkerStage::Finish ==> stage == WorkerStage::ClearOps,
        stage_after(stage, has_target) == WorkerStage::ClearOps ==> stage == WorkerStage::Drain,
        stage_after(stage, has_target) == WorkerStage::Drain ==> stage == WorkerStage::Disarm,
        stage_after(stage, has_target) == WorkerStage::Arm ==> has_target,
{
}

/// The number that marks the mailbox of an instrumented scheduler.
pub const E9_MAILBOX_MAGIC: u64 = 0x00E9_0A7C_00C0_FFEE;

/// The fewest bytes in which a mailbox fits.
pub const MAILBOX_BYTES: u64 = 32;

/// The range of addresses in which a mailbox may stand, by a line of the
/// process's memory map: a writable part of an instrumented scheduler in which
/// one fits.
pub open spec fn mailbox_range(line: Seq<char>) -> Option<(u64, u64)> {
    let perms = word_at(line, 1);
    let dash = first_at(line, '-');
    let space = first_at(line, ' ');
    let start = hex_number(line.take(dash as int));
    let end = hex_number(line.subrange(dash as int + 1, space as int));
    if holds_text(line, "_e9.so"@) && perms is Some && (perms->0).contains('w') && dash < line.len()
        && dash < space && start is Some && end is Some && end->0 <= u64::MAX && start->0
        + MAILBOX_BYTES <= end->0 {
        Some((start->0 as u64, end->0 as u64))
    } else {
        None
    }
}

/// The range of addresses in which a mailbox may stand, by a line of the
/// process's memory map.
pub fn parse_mailbox_range(line: &str) -> (r: Option<(u64, u64)>)
    ensures
        r == mailbox_range(line@),
{
    if !contains_text(line, "_e9.so") {
        return None;
    }
    match word(line, 1) {
        Some(perms) => {
            if !contains_char(perms, 'w') {
                return None;
            }
        },
        None => {
            return None;
        },
    }
    let dash = match find_char(line, '-') {
        Some(i) => i,
        None => {
            proof {
                assert forall|j: int| 0 <= j < line@.len() implies line@[j] != '-' by {
                    assert(line@.contains(line@[j]));
                }
                lemma_first_at(line@, '-', line@.len() as int);
            }
            return None;
        },
    };
    let space = match find_char(line, ' ') {
        Some(i) => {
            proof {
                lemma_first_at(line@, ' ', i as int);
            }
            i
        },
        None => {
            proof {
                assert forall|j: int| 0 <= j < line@.len() implies line@[j] != ' ' by {
                    assert(line@.contains(line@[j]));
                }
                lemma_first_at(line@, ' ', line@.len() as int);
            }
            line.unicode_len()
        },
    };
    proof {
        lemma_first_at(line@, '-', dash as int);
    }
    if space <= dash {
        return None;
    }
    let head = line.substring_char(0, dash);
    proof {
        assert(head@ =~= line@.take(dash as int));
    }
    let start = match parse_hex(head) {
        Some(v) => v,
        None => {
            return None;
        },
    };
    let end = match parse_hex(line.substring_char(dash + 1, space)) {
        Some(v) => v,
        None => {
            return None;
        },
    };
    if end < start || end - start < MAILBOX_BYTES {
        return None;
    }
    Some((start, end))
}

/// Where the mailbox stands among the words of a range.
pub fn find_mailbox(words: &Vec<u64>) -> (r: Option<usize>)
    ensures
        match r {
            Some(i) => i < words@.len() && words@[i as int] == E9_MAILBOX_MAGIC && forall|j: int|
                0 <= j < i ==> words@[j] != E9_MAILBOX_MAGIC,
            None => !words@.contains(E9_MAILBOX_MAGIC),
        },
{
    let mut i: usize = 0;
    while i < words.len()
        invariant
            i <= words@.len(),
            forall|j: int| 0 <= j < i ==> words@[j] != E9_MAILBOX_MAGIC,
        decreases words@.len() - i,
    {
        if words[i] == E9_MAILBOX_MAGIC {
            return Some(i);
        }
        i = i + 1;
    }
    None
}

/// A worker sets itself up, waits for its turn, enters, is armed where there is a place to
/// preempt it at, runs, is disarmed, accounts for its cost, forgets its callback, lets the
/// next one run, leaves, gives its instrumentation up, and is done for good.
pub proof fn law_workers_go_through_their_stages(has_target: bool)
    ensures
        stage_after(WorkerStage::Setup, has_target) is WaitForToken,
        stage_after(WorkerStage::WaitForToken, has_target) is Enter,
        has_target ==> stage_after(WorkerStage::Enter, has_target) is Arm,
        !has_target ==> stage_after(WorkerStage::Enter, has_target) is Run,
        stage_after(WorkerStage::Arm, has_target) is Run,
        stage_after(WorkerStage::Run, has_target) is Disarm,
        stage_after(WorkerStage::Disarm, has_target) is Drain,
        stage_after(WorkerStage::Drain, has_target) is ClearOps,
        stage_after(WorkerStage::ClearOps, has_target) is Finish,
        stage_after(WorkerStage::Finish, has_target) is Leave,
        stage_after(WorkerStage::Leave, has_target) is Teardown,
        stage_after(WorkerStage::Teardown, has_target) is Done,
        stage_after(WorkerStage::Done, has_target) is Done,
{
}

/// Costs are added number by number, in any order.
pub proof fn law_costs_add_up(a: StructopDelta, b: StructopDelta)
    requires
        a.rbc_total + b.rbc_total <= u64::MAX,
        a.interleave_count + b.interleave_count <= u64::MAX,
    ensures
        can_join(a, b),
        joined_delta(a, b).rbc_total == a.rbc_total + b.rbc_total,
        joined_delta(a, b).interleave_count == a.interleave_count + b.interleave_count,
        joined_delta(a, b) == joined_delta(b, a),
{
}

/// A mailbox may stand in the range that a line of the memory map begins with, exactly if
/// the line is of a writable part of an instrumented scheduler and the mailbox fits.
pub proof fn law_mailboxes_stand_in_writable_ranges(start: u64, end: u64, rest: Seq<char>)
    ensures
        ({
            let line = crate::text::digits(start as nat, 16) + seq!['-'] + crate::text::digits(
                end as nat,
                16,
            ) + seq![' '] + rest;
            let perms = word_at(line, 1);
            &&& holds_text(line, "_e9.so"@) && perms is Some && (perms->0).contains('w') && start
                + 32 <= end ==> mailbox_range(line) == Some((start, end))
            &&& !holds_text(line, "_e9.so"@) ==> mailbox_range(line) is None
            &&& perms is None || !(perms->0).contains('w') ==> mailbox_range(line) is None
            &&& start + 32 > end ==> mailbox_range(line) is None
        }),
{
    let a = crate::text::digits(start as nat, 16);
    let b = crate::text::digits(end as nat, 16);
    let line = a + seq!['-'] + b + seq![' '] + rest;
    crate::text::law_numbers_survive_being_written(start as nat);
    crate::text::law_numbers_survive_being_written(end as nat);
    crate::text::lemma_hex_chars(a);
    crate::text::lemma_hex_chars(b);
    crate::text::lemma_some_digits(start as nat, 16);
    crate::text::lemma_some_digits(end as nat, 16);
    let dash = a.len() as int;
    let space = (a.len() + 1 + b.len()) as int;
    assert forall|j: int| 0 <= j < dash implies line[j] != '-' by {
        assert(line[j] == a[j]);
    }
    assert(line[dash] == '-');
    lemma_first_at(line, '-', dash);
    assert forall|j: int| 0 <= j < space implies line[j] != ' ' by {
        if j < dash {
            assert(line[j] == a[j]);
        } else if j > dash {
            assert(line[j] == b[j - dash - 1]);
        }
    }
    assert(line[space] == ' ');
    lemma_first_at(line, ' ', space);
    assert(line.take(dash) =~= a);
    assert(line.subrange(dash + 1, space) =~= b);
}

/// The number by which a mailbox is known, and the room that it takes.
pub proof fn law_mailboxes_are_known_by_their_number()
    ensures
        E9_MAILBOX_MAGIC == 0x00E9_0A7C_00C0_FFEE,
        MAILBOX_BYTES == 32,
{
}

} // verus!
