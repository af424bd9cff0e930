//! Configuration of a scheduler's global variables.

use vstd::prelude::*;

verus! {

/// A configuration file.
pub struct SchedulerConfigFile {
    pub scheduler: SchedulerSection,
}

/// The global variables to set, by type, each table in the order of its names.
pub struct SchedulerSection {
    pub bool_globals: Vec<(String, bool)>,
    pub u8_globals: Vec<(String, u8)>,
    pub u32_globals: Vec<(String, u32)>,
    pub u64_globals: Vec<(String, u64)>,
}

/// A value for a global variable.
#[derive(Clone, Copy, Debug, PartialEq, Eq, Structural)]
pub enum GlobalValue {
    Bool(bool),
    U8(u8),
    U32(u32),
    U64(u64),
}

/// A write to a global variable as contracts see it.
pub type WriteView = (Seq<char>, GlobalValue);

/// Writes as contracts see them.
pub open spec fn write_views(v: Seq<(String, GlobalValue)>) -> Seq<WriteView> {
    v.map_values(|w: (String, GlobalValue)| (w.0@, w.1))
}

/// The writes that a configuration asks for: truth values first, then bytes,
/// then words of 32 and of 64 bits.
pub open spec fn writes_of(s: SchedulerSection) -> Seq<WriteView> {
    s.bool_globals@.map_values(|g: (String, bool)| (g.0@, GlobalValue::Bool(g.1)))
        + s.u8_globals@.map_values(|g: (String, u8)| (g.0@, GlobalValue::U8(g.1)))
        + s.u32_globals@.map_values(|g: (String, u32)| (g.0@, GlobalValue::U32(g.1)))
        + s.u64_globals@.map_values(|g: (String, u64)| (g.0@, GlobalValue::U64(g.1)))
}

/// What a global variable can be set to.
trait Settable: Copy {
    spec fn setting(self) -> GlobalValue;

    fn to_setting(self) -> (r: GlobalValue)
        ensures
            r == self.setting(),
    ;
}

impl Settable for bool {
    spec fn setting(self) -> GlobalValue {
        GlobalValue::Bool(self)
    }

    fn to_setting(self) -> GlobalValue {
        GlobalValue::Bool(self)
    }
}

impl Settable for u8 {
    spec fn setting(self) -> GlobalValue {
        GlobalValue::U8(self)
    }

    fn to_setting(self) -> GlobalValue {
        GlobalValue::U8(self)
    }
}

impl Settable for u32 {
    spec fn setting(self) -> GlobalValue {
        GlobalValue::U32(self)
    }

    fn to_setting(self) -> GlobalValue {
        GlobalValue::U32(self)
    }
}

impl Settable for u64 {
    spec fn setting(self) -> GlobalValue {
        GlobalValue::U64(self)
    }

    fn to_setting(self) -> GlobalValue {
        GlobalValue::U64(self)
    }
}

/// The writes of one table.
spec fn table_writes<T: Settable>(v: Seq<(String, T)>) -> Seq<WriteView> {
    v.map_values(|g: (String, T)| (g.0@, g.1.setting()))
}

/// Adds the writes of one table.
fn add_table<T: Settable>(out: &mut Vec<(String, GlobalValue)>, v: &Vec<(String, T)>)
    ensures
        write_views(final(out)@) == write_views(old(out)@) + table_writes(v@),
{
    let ghost start = write_views(out@);
    let ghost goal = table_writes(v@);
    let mut i: usize = 0;
    while i < v.len()
        invariant
            i <= v@.len(),
            goal == table_writes(v@),
            write_views(out@) == start + goal.take(i as int),
        decreases v@.len() - i,
    {
        let ghost before = out@;
        let w = (v[i].0.clone(), v[i].1.to_setting());
        out.push(w);
        i = i + 1;
        proof {
            assert(write_views(out@) =~= write_views(before).push((w.0@, w.1)));
            assert(write_views(out@) =~= start + goal.take(i as int));
        }
    }
    proof {
        assert(goal.take(i as int) =~= goal);
    }
}

/// The writes that a configuration asks for, in order.
pub fn global_writes(config: &SchedulerConfigFile) -> (r: Vec<(String, GlobalValue)>)
    ensures
        write_views(r@) == writes_of(config.scheduler),
{
    let mut out: Vec<(String, GlobalValue)> = Vec::new();
    proof {
        assert(write_views(out@) =~= Seq::<WriteView>::empty());
    }
    add_table(&mut out, &config.scheduler.bool_globals);
    add_table(&mut out, &config.scheduler.u8_globals);
    add_table(&mut out, &config.scheduler.u32_globals);
    add_table(&mut out, &config.scheduler.u64_globals);
    proof {
        assert(write_views(out@) =~= writes_of(config.scheduler));
    }
    out
}

/// Every variable of every table is written once, with its own value and type: truth
/// values first, then bytes, then words of 32 and of 64 bits, each table in its order.
pub proof fn law_every_variable_is_written_with_its_type(s: SchedulerSection, i: int)
    ensures
        ({
            let all = writes_of(s);
            let (a, b, c, d) = (
                s.bool_globals@.len() as int,
                s.u8_globals@.len() as int,
                s.u32_globals@.len() as int,
                s.u64_globals@.len() as int,
            );
            &&& all.len() == a + b + c + d
            &&& 0 <= i < a ==> all[i] == (
                s.bool_globals@[i].0@,
                GlobalValue::Bool(s.bool_globals@[i].1),
            )
            &&& 0 <= i < b ==> all[a + i] == (
                s.u8_globals@[i].0@,
                GlobalValue::U8(s.u8_globals@[i].1),
            )
            &&& 0 <= i < c ==> all[a + b + i] == (
                s.u32_globals@[i].0@,
                GlobalValue::U32(s.u32_globals@[i].1),
            )
            &&& 0 <= i < d ==> all[a + b + c + i] == (
                s.u64_globals@[i].0@,
                GlobalValue::U64(s.u64_globals@[i].1),
            )
        }),
{
}

/// A write is seen as the variable that it names and the value that it puts there.
pub proof fn law_writes_are_seen_as_they_are(v: Seq<(String, GlobalValue)>, i: int)
    requires
        0 <= i < v.len(),
    ensures
        write_views(v).len() == v.len(),
        write_views(v)[i] == (v[i].0@, v[i].1),
{
}

} // verus!
