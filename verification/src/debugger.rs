//! Scripts and messages that help to attach a debugger to a run.

use vstd::prelude::*;

use crate::text::{
    comes_before, dec, decimal, ends_with, find_char, first_at, join, joined,
    lemma_before_is_total, lemma_before_is_transitive, lemma_first_at, lemma_not_before_itself,
    holds_text, parse_u32, plus, same_text, stands_at, starts_with, text_before, trim, trimmed,
    unsigned_value, word,
    word_at,
};

verus! {

/// Whether a source file holds helpers.
pub open spec fn is_helper_source(file: Seq<char>) -> bool {
    "wrapper.c"@.is_suffix_of(file) || "util.bpf.c"@.is_suffix_of(file)
}

/// The function that a line of `nm -l` names, if it stands in a file of helpers:
/// an address, `T` or `t` and a name, then a tab, the source file and mostly a
/// colon and a line number. Names that begin with `_` or `.` are the compiler's.
pub open spec fn helper_of(line: Seq<char>) -> Option<Seq<char>> {
    let tab = first_at(line, '\t');
    if tab >= line.len() {
        None
    } else {
        let symbol = line.take(tab as int);
        let source = line.skip(tab as int + 1);
        let file = source.take(first_at(source, ':') as int);
        let kind = word_at(symbol, 1);
        let name = word_at(symbol, 2);
        if is_helper_source(file) && name is Some && (kind == Some("T"@) || kind == Some("t"@)) && !(
        "_"@.is_prefix_of(name->0)) && !("."@.is_prefix_of(name->0)) {
            name
        } else {
            None
        }
    }
}

proof fn lemma_earlier_words(s: Seq<char>, n: nat)
    requires
        n > 0,
        word_at(s, n) is Some,
    ensures
        word_at(s, (n - 1) as nat) is Some,
    decreases n,
{
    let t = crate::text::without_space(s);
    if n > 1 {
        lemma_earlier_words(t.skip(crate::text::word_len(t) as int), (n - 1) as nat);
    }
}

/// The function that a line of `nm -l` names, if it stands in a file of helpers.
pub fn parse_nm_helper_symbol(line: &str) -> (r: Option<String>)
    ensures
        match r {
            Some(name) => helper_of(line@) == Some(name@),
            None => helper_of(line@) is None,
        },
{
    let len = line.unicode_len();
    let tab = match find_char(line, '\t') {
        Some(i) => i,
        None => {
            proof {
                assert forall|j: int| 0 <= j < line@.len() implies line@[j] != '\t' by {
                    assert(line@.contains(line@[j]));
                }
                lemma_first_at(line@, '\t', line@.len() as int);
            }
            return None;
        },
    };
    proof {
        lemma_first_at(line@, '\t', tab as int);
    }
    let symbol = line.substring_char(0, tab);
    let source = line.substring_char(tab + 1, len);
    proof {
        assert(symbol@ =~= line@.take(tab as int));
        assert(source@ =~= line@.skip(tab + 1));
    }
    let colon = match find_char(source, ':') {
        Some(i) => {
            proof {
                lemma_first_at(source@, ':', i as int);
            }
            i
        },
        None => {
            proof {
                assert forall|j: int| 0 <= j < source@.len() implies source@[j] != ':' by {
                    assert(source@.contains(source@[j]));
                }
                lemma_first_at(source@, ':', source@.len() as int);
            }
            source.unicode_len()
        },
    };
    let file = source.substring_char(0, colon);
    proof {
        assert(file@ =~= source@.take(colon as int));
    }
    if !ends_with(file, "wrapper.c") && !ends_with(file, "util.bpf.c") {
        return None;
    }
    let kind = match word(symbol, 1) {
        Some(k) => k,
        None => {
            proof {
                if word_at(symbol@, 2) is Some {
                    lemma_earlier_words(symbol@, 2);
                }
            }
            return None;
        },
    };
    let name = match word(symbol, 2) {
        Some(n) => n,
        None => {
            return None;
        },
    };
    if !same_text(kind, "T") && !same_text(kind, "t") {
        return None;
    }
    if starts_with(name, "_") || starts_with(name, ".") {
        return None;
    }
    Some(name.to_string())
}

/// Whether texts are in order and none occurs twice.
pub open spec fn is_ordered(names: Seq<String>) -> bool {
    forall|i: int, j: int|
        0 <= i < j < names.len() ==> text_before((#[trigger] names[i])@, (#[trigger] names[j])@)
}

/// Whether a text is among others.
pub open spec fn has_text(names: Seq<String>, name: Seq<char>) -> bool {
    exists|i: int| 0 <= i < names.len() && (#[trigger] names[i])@ == name
}

/// Whether one of the first `n` lines names a helper.
pub open spec fn names_helper(lines: Seq<String>, n: int, name: Seq<char>) -> bool {
    exists|i: int| 0 <= i < n && helper_of((#[trigger] lines[i])@) == Some(name)
}

fn add_name(names: &mut Vec<String>, name: String)
    requires
        is_ordered(old(names)@),
    ensures
        is_ordered(final(names)@),
        forall|x: Seq<char>| #[trigger]
            has_text(final(names)@, x) <==> has_text(old(names)@, x) || x == name@,
{
    let ghost before = names@;
    let mut at: usize = 0;
    while at < names.len() && comes_before(names[at].as_str(), name.as_str())
        invariant
            names@ == before,
            at <= names@.len(),
            forall|i: int| 0 <= i < at ==> text_before((#[trigger] names@[i])@, name@),
        decreases names@.len() - at,
    {
        at = at + 1;
    }
    if at < names.len() && same_text(names[at].as_str(), name.as_str()) {
        proof {
            assert(before[at as int]@ == name@);
        }
        return;
    }
    let ghost wanted = name@;
    names.insert(at, name);
    proof {
        let after = names@;
        assert(after =~= before.insert(at as int, name));
        assert(forall|i: int| 0 <= i < at ==> after[i] == before[i]);
        assert(forall|i: int| at < i < after.len() ==> after[i] == before[i - 1]);
        if at < before.len() {
            lemma_before_is_total(before[at as int]@, wanted);
        }
        assert forall|i: int, j: int| 0 <= i < j < after.len() implies text_before(
            (#[trigger] after[i])@,
            (#[trigger] after[j])@,
        ) by {
            if j < at {
                assert(text_before(before[i]@, before[j]@));
            } else if j == at {
                assert(text_before(before[i]@, wanted));
            } else {
                if i > at {
                    assert(text_before(before[i - 1]@, before[j - 1]@));
                } else {
                    if j - 1 > at {
                        assert(text_before(before[at as int]@, before[j - 1]@));
                        lemma_before_is_transitive(
                            wanted,
                            before[at as int]@,
                            before[j - 1]@,
                        );
                    }
                    if i < at {
                        assert(text_before(before[i]@, before[j - 1]@));
                    }
                }
            }
        }
        assert forall|x: Seq<char>| #[trigger]
            has_text(after, x) <==> has_text(before, x) || x == wanted by {
            if has_text(after, x) {
                let i = choose|i: int| 0 <= i < after.len() && (#[trigger] after[i])@ == x;
                if i < at {
                    assert(before[i]@ == x);
                } else if i > at {
                    assert(before[i - 1]@ == x);
                }
            }
            if has_text(before, x) {
                let i = choose|i: int| 0 <= i < before.len() && (#[trigger] before[i])@ == x;
                if i < at {
                    assert(after[i]@ == x);
                } else {
                    assert(after[i + 1]@ == x);
                }
            }
            if x == wanted {
                assert(after[at as int]@ == x);
            }
        }
    }
}

/// The helpers that the lines of `nm -l` name, in order and each once.
pub fn discover_helper_functions(lines: &Vec<String>) -> (r: Vec<String>)
    ensures
        is_ordered(r@),
        forall|x: Seq<char>| #[trigger]
            has_text(r@, x) <==> names_helper(lines@, lines@.len() as int, x),
{
    let mut names: Vec<String> = Vec::new();
    let mut i: usize = 0;
    while i < lines.len()
        invariant
            i <= lines@.len(),
            is_ordered(names@),
            forall|x: Seq<char>| #[trigger]
                has_text(names@, x) <==> names_helper(lines@, i as int, x),
        decreases lines@.len() - i,
    {
        let ghost before = names@;
        match parse_nm_helper_symbol(lines[i].as_str()) {
            Some(name) => {
                add_name(&mut names, name);
            },
            None => {},
        }
        proof {
            assert forall|x: Seq<char>| #[trigger]
                has_text(names@, x) <==> names_helper(lines@, i + 1, x) by {
                assert(has_text(before, x) <==> names_helper(lines@, i as int, x));
                if names_helper(lines@, i as int, x) {
                    let k = choose|k: int|
                        0 <= k < i && helper_of((#[trigger] lines@[k])@) == Some(x);
                    assert(helper_of(lines@[k]@) == Some(x));
                }
                if helper_of(lines@[i as int]@) == Some(x) {
                    assert(names_helper(lines@, i + 1, x));
                }
            }
        }
        i = i + 1;
    }
    names
}

/// The list of helpers is the only one in order that names just those: two such
/// lists are the same.
pub proof fn law_ordered_names_are_unique(a: Seq<String>, b: Seq<String>)
    requires
        is_ordered(a),
        is_ordered(b),
        forall|x: Seq<char>| #[trigger] has_text(a, x) <==> has_text(b, x),
    ensures
        a.len() == b.len(),
        forall|i: int| 0 <= i < a.len() ==> (#[trigger] a[i])@ == b[i]@,
    decreases a.len(),
{
    if a.len() == 0 {
        if b.len() > 0 {
            assert(has_text(b, b[0]@));
            assert(has_text(a, b[0]@));
        }
    } else if b.len() == 0 {
        assert(has_text(a, a[0]@));
        assert(has_text(b, a[0]@));
    } else {
        let x = a.last()@;
        let y = b.last()@;
        assert(a[a.len() - 1]@ == x);
        assert(b[b.len() - 1]@ == y);
        assert(has_text(a, x));
        assert(has_text(b, y));
        assert(has_text(b, x));
        assert(has_text(a, y));
        let i = choose|i: int| 0 <= i < b.len() && (#[trigger] b[i])@ == x;
        let j = choose|j: int| 0 <= j < a.len() && (#[trigger] a[j])@ == y;
        if i < b.len() - 1 && j < a.len() - 1 {
            assert(text_before(b[i]@, b[b.len() - 1]@));
            assert(text_before(a[j]@, a[a.len() - 1]@));
            lemma_before_is_transitive(x, y, x);
            lemma_not_before_itself(x);
        }
        assert(x == y);
        let s = a.drop_last();
        let t = b.drop_last();
        assert forall|z: Seq<char>| #[trigger] has_text(s, z) <==> has_text(t, z) by {
            lemma_last_is_alone(a, z);
            lemma_last_is_alone(b, z);
            assert(has_text(a, z) <==> has_text(b, z));
        }
        law_ordered_names_are_unique(s, t);
        assert forall|k: int| 0 <= k < a.len() implies (#[trigger] a[k])@ == b[k]@ by {
            if k < a.len() - 1 {
                assert(s[k]@ == t[k]@);
            }
        }
    }
}

proof fn lemma_last_is_alone(a: Seq<String>, z: Seq<char>)
    requires
        is_ordered(a),
        a.len() > 0,
    ensures
        has_text(a.drop_last(), z) <==> has_text(a, z) && z != a.last()@,
{
    let s = a.drop_last();
    if has_text(s, z) {
        let k = choose|k: int| 0 <= k < s.len() && (#[trigger] s[k])@ == z;
        assert(a[k]@ == z);
        assert(text_before(a[k]@, a[a.len() - 1]@));
        lemma_not_before_itself(z);
    }
    if has_text(a, z) && z != a.last()@ {
        let k = choose|k: int| 0 <= k < a.len() && (#[trigger] a[k])@ == z;
        assert(s[k]@ == z);
    }
}

/// A debugger.
#[derive(Clone, Copy, Debug, PartialEq, Eq, Structural)]
pub enum DebuggerFlavor {
    Lldb,
    Gdb,
}

/// The debugger's name, which is also the extension of its scripts.
pub open spec fn flavor_name(f: DebuggerFlavor) -> Seq<char> {
    match f {
        DebuggerFlavor::Lldb => "lldb"@,
        DebuggerFlavor::Gdb => "gdb"@,
    }
}

/// The command that sets a breakpoint.
pub open spec fn breakpoint_text(f: DebuggerFlavor, sym: Seq<char>) -> Seq<char> {
    match f {
        DebuggerFlavor::Lldb => "breakpoint set --name "@ + sym + "\n"@,
        DebuggerFlavor::Gdb => "break "@ + sym + "\n"@,
    }
}

/// The commands that let the simulator handle its signals itself.
pub open spec fn signal_text(f: DebuggerFlavor) -> Seq<char> {
    match f {
        DebuggerFlavor::Lldb =>
        "# The simulator emulates BPF div-by-zero semantics via a SIGFPE handler.\n# Let the handler work without the debugger intercepting the signal.\nprocess handle SIGFPE -s false -n false -p true\n\n"@,
        DebuggerFlavor::Gdb =>
        "# The simulator emulates BPF div-by-zero semantics via a SIGFPE handler.\n# Let the handler work without GDB intercepting the signal.\nhandle SIGFPE nostop noprint pass\n\n# Enable pending breakpoints for symbols not yet loaded (e.g., .so not dlopen'd).\nset breakpoint pending on\n\n"@,
    }
}

/// The commands that keep stepping inside the scheduler.
pub open spec fn skip_text(f: DebuggerFlavor, exe: Option<Seq<char>>) -> Seq<char> {
    match f {
        DebuggerFlavor::Lldb => match exe {
            Some(path) => "settings set target.process.thread.step-avoid-libraries \""@ + path
                + "\"\n\n"@,
            None => Seq::empty(),
        },
        DebuggerFlavor::Gdb =>
        "skip -rfu \"^_ZN\"\nskip -rfu \"^scx_bpf_\"\nskip -rfu \"^scx_test_\"\nskip -rfu \"^sim_\"\n\n"@,
    }
}

/// The commands that skip helpers and stop skipping them.
pub open spec fn helper_text(f: DebuggerFlavor, names: Seq<String>) -> Option<Seq<char>> {
    if names.len() == 0 {
        None
    } else {
        let any = joined(names, "|"@);
        Some(
            match f {
                DebuggerFlavor::Lldb =>
                "command alias skip-helpers settings set target.process.thread.step-avoid-regexp \"^("@
                    + any
                    + ")\"\ncommand alias unskip-helpers settings clear target.process.thread.step-avoid-regexp"@,
                DebuggerFlavor::Gdb => "define skip-helpers\n  skip -rfu \"^("@ + any
                    + ")\"\nend\ndefine unskip-helpers\n  # List current skips so you can selectively delete helper skips\n  info skip\nend"@,
            },
        )
    }
}

/// The commands that set breakpoints on the first `n` symbols.
pub open spec fn breakpoints_text(f: DebuggerFlavor, syms: Seq<String>, n: nat) -> Seq<char>
    decreases n,
{
    if n == 0 {
        Seq::empty()
    } else {
        breakpoints_text(f, syms, (n - 1) as nat) + breakpoint_text(f, syms[n - 1]@)
    }
}

/// A script for a debugger.
pub open spec fn script_text(
    f: DebuggerFlavor,
    prefix: Seq<char>,
    exe: Option<Seq<char>>,
    syms: Seq<String>,
    helpers: Seq<String>,
) -> Seq<char> {
    let head = "# Auto-generated "@ + flavor_name(f) + " breakpoint script for scheduler ops\n"@
        + "# Scheduler: "@ + prefix + "\n\n"@ + signal_text(f) + skip_text(f, exe)
        + breakpoints_text(f, syms, syms.len());
    match helper_text(f, helpers) {
        Some(cmds) => head
            + "\n# Custom commands for skipping utility helpers (util.bpf.c, wrapper.c):\n"@ + cmds
            + "\n"@,
        None => head,
    }
}

impl DebuggerFlavor {
    /// The extension of the debugger's scripts.
    pub fn extension(self) -> (r: &'static str)
        ensures
            r@ == flavor_name(self),
    {
        match self {
            DebuggerFlavor::Lldb => "lldb",
            DebuggerFlavor::Gdb => "gdb",
        }
    }

    /// The debugger's name.
    pub fn name(self) -> (r: &'static str)
        ensures
            r@ == flavor_name(self),
    {
        self.extension()
    }

    /// The command that sets a breakpoint.
    pub fn fmt_breakpoint(self, sym: &str) -> (r: String)
        ensures
            r@ == breakpoint_text(self, sym@),
    {
        match self {
            DebuggerFlavor::Lldb => plus(plus("breakpoint set --name ".to_string(), sym), "\n"),
            DebuggerFlavor::Gdb => plus(plus("break ".to_string(), sym), "\n"),
        }
    }

    /// The commands that let the simulator handle its signals itself.
    pub fn fmt_signal_handling(self) -> (r: &'static str)
        ensures
            r@ == signal_text(self),
    {
        match self {
            DebuggerFlavor::Lldb =>
            "# The simulator emulates BPF div-by-zero semantics via a SIGFPE handler.\n# Let the handler work without the debugger intercepting the signal.\nprocess handle SIGFPE -s false -n false -p true\n\n",
            DebuggerFlavor::Gdb =>
            "# The simulator emulates BPF div-by-zero semantics via a SIGFPE handler.\n# Let the handler work without GDB intercepting the signal.\nhandle SIGFPE nostop noprint pass\n\n# Enable pending breakpoints for symbols not yet loaded (e.g., .so not dlopen'd).\nset breakpoint pending on\n\n",
        }
    }

    /// The commands that keep stepping inside the scheduler. `exe` is the
    /// simulator's own file, if it is known.
    pub fn fmt_skip_simulator(self, exe: Option<&str>) -> (r: String)
        ensures
            r@ == skip_text(
                self,
                match exe {
                    Some(p) => Some(p@),
                    None => None,
                },
            ),
    {
        match self {
            DebuggerFlavor::Lldb => match exe {
                Some(path) => plus(
                    plus(
                        "settings set target.process.thread.step-avoid-libraries \"".to_string(),
                        path,
                    ),
                    "\"\n\n",
                ),
                None => String::new(),
            },
            DebuggerFlavor::Gdb =>
            "skip -rfu \"^_ZN\"\nskip -rfu \"^scx_bpf_\"\nskip -rfu \"^scx_test_\"\nskip -rfu \"^sim_\"\n\n".to_string(),
        }
    }

    /// The commands that skip helpers and stop skipping them; none without
    /// helpers.
    pub fn build_helper_commands(self, names: &[String]) -> (r: Option<String>)
        ensures
            match r {
                Some(t) => helper_text(self, names@) == Some(t@),
                None => helper_text(self, names@) is None,
            },
    {
        if names.len() == 0 {
            return None;
        }
        let any = join(names, "|");
        Some(
            match self {
                DebuggerFlavor::Lldb => plus(
                    plus(
                        "command alias skip-helpers settings set target.process.thread.step-avoid-regexp \"^(".to_string(),
                        any.as_str(),
                    ),
                    ")\"\ncommand alias unskip-helpers settings clear target.process.thread.step-avoid-regexp",
                ),
                DebuggerFlavor::Gdb => plus(
                    plus("define skip-helpers\n  skip -rfu \"^(".to_string(), any.as_str()),
                    ")\"\nend\ndefine unskip-helpers\n  # List current skips so you can selectively delete helper skips\n  info skip\nend",
                ),
            },
        )
    }

    /// A script for the debugger, and whether it has commands for helpers.
    pub fn build_script(
        self,
        prefix: &str,
        exe: Option<&str>,
        syms: &Vec<String>,
        helpers: &Vec<String>,
    ) -> (r: (String, bool))
        ensures
            r.0@ == script_text(
                self,
                prefix@,
                match exe {
                    Some(p) => Some(p@),
                    None => None,
                },
                syms@,
                helpers@,
            ),
            r.1 == (helpers@.len() > 0),
    {
        let title = plus(
            plus("# Auto-generated ".to_string(), self.name()),
            " breakpoint script for scheduler ops\n",
        );
        let named = plus(plus(plus(title, "# Scheduler: "), prefix), "\n\n");
        let skip = self.fmt_skip_simulator(exe);
        let mut script = plus(plus(named, self.fmt_signal_handling()), skip.as_str());
        let ghost head = script@;
        let mut i: usize = 0;
        proof {
            assert(head + breakpoints_text(self, syms@, 0) =~= head);
        }
        while i < syms.len()
            invariant
                i <= syms@.len(),
                script@ == head + breakpoints_text(self, syms@, i as nat),
            decreases syms@.len() - i,
        {
            let line = self.fmt_breakpoint(syms[i].as_str());
            proof {
                assert(head + breakpoints_text(self, syms@, i as nat) + line@ =~= head + (
                breakpoints_text(self, syms@, i as nat) + line@));
            }
            script = plus(script, line.as_str());
            i = i + 1;
        }
        match self.build_helper_commands(helpers.as_slice()) {
            Some(cmds) => (
                plus(
                    plus(
                        plus(
                            script,
                            "\n# Custom commands for skipping utility helpers (util.bpf.c, wrapper.c):\n",
                        ),
                        cmds.as_str(),
                    ),
                    "\n",
                ),
                true,
            ),
            None => (script, false),
        }
    }
}

/// The process that traces this one, by a line of its status.
pub open spec fn tracer_of(line: Seq<char>) -> Option<nat> {
    if "TracerPid:\t"@.is_prefix_of(line) {
        match unsigned_value(trimmed(line.skip("TracerPid:\t"@.len() as int))) {
            Some(pid) => if pid <= u32::MAX {
                Some(pid)
            } else {
                None
            },
            None => None,
        }
    } else {
        None
    }
}

/// Whether a debugger is attached, by the lines of the process's status.
pub fn is_traced(status: &Vec<String>) -> (r: bool)
    ensures
        r == exists|i: int|
            0 <= i < status@.len() && tracer_of((#[trigger] status@[i])@) is Some && tracer_of(
                status@[i]@,
            )->0 != 0,
{
    let mut i: usize = 0;
    while i < status.len()
        invariant
            i <= status@.len(),
            forall|j: int|
                0 <= j < i ==> !(tracer_of((#[trigger] status@[j])@) is Some && tracer_of(
                    status@[j]@,
                )->0 != 0),
        decreases status@.len() - i,
    {
        let line = status[i].as_str();
        if starts_with(line, "TracerPid:\t") {
            let skip = "TracerPid:\t".unicode_len();
            let rest = line.substring_char(skip, line.unicode_len());
            proof {
                assert(rest@ =~= line@.skip("TracerPid:\t"@.len() as int));
            }
            match parse_u32(trim(rest)) {
                Some(pid) => {
                    if pid != 0 {
                        proof {
                            assert(tracer_of(status@[i as int]@) is Some);
                        }
                        return true;
                    }
                },
                None => {},
            }
        }
        i = i + 1;
    }
    false
}

/// What is said to whoever wants to attach a debugger.
pub struct AttachInfo {
    pub pid: u32,
    pub so_path: String,
    pub lldb_script: Option<String>,
    pub gdb_script: Option<String>,
    /// How many callbacks have a breakpoint.
    pub breakpoints: u64,
    pub has_helpers: bool,
    /// A workspace of the editor, if one was found.
    pub workspace: Option<String>,
}

/// The command that attaches one debugger.
pub open spec fn attach_line(info: AttachInfo, f: DebuggerFlavor) -> Seq<char> {
    let pid = decimal(info.pid as nat);
    match f {
        DebuggerFlavor::Lldb => match info.lldb_script {
            Some(s) => "  lldb -p "@ + pid + " -o \"command source "@ + s@ + "\"\n"@,
            None => "  lldb -p "@ + pid + "\n"@,
        },
        DebuggerFlavor::Gdb => match info.gdb_script {
            Some(s) => "  gdb -p "@ + pid + " -x "@ + s@ + "\n"@,
            None => "  gdb -p "@ + pid + "\n"@,
        },
    }
}

/// How to attach from the editor.
pub open spec fn editor_lines(info: AttachInfo) -> Seq<char> {
    let pid = decimal(info.pid as nat);
    match info.workspace {
        Some(w) => "  1. Open workspace: code "@ + w@
            + "\n  2. Run & Debug (Ctrl+Shift+D) \u{2192} \"Attach\" \u{2192} enter PID "@ + pid
            + "\n"@,
        None => "  Run & Debug (Ctrl+Shift+D) \u{2192} \"Attach\" \u{2192} enter PID "@ + pid
            + "\n"@,
    }
}

/// The whole message.
pub open spec fn attach_text(info: AttachInfo) -> Seq<char> {
    "\n=== --wait-debugger ===\nPID: "@ + decimal(info.pid as nat) + "\nScheduler .so: "@
        + info.so_path@ + "\n"@ + (if info.breakpoints > 0 {
        "Breakpoints: "@ + decimal(info.breakpoints as nat) + " ops callbacks\n"@
    } else {
        Seq::empty()
    }) + "\nWaiting for debugger to attach...\n\nAttach with lldb:\n"@ + attach_line(
        info,
        DebuggerFlavor::Lldb,
    ) + "\nAttach with gdb:\n"@ + attach_line(info, DebuggerFlavor::Gdb) + (if info.has_helpers {
        "\nCustom debugger commands available:\n  skip-helpers    \u{2014} skip util.bpf.c/wrapper.c when stepping\n  unskip-helpers  \u{2014} stop skipping helpers\n"@
    } else {
        Seq::empty()
    }) + "\nAttach with VSCode:\n"@ + editor_lines(info) + "\n"@
}

impl AttachInfo {
    fn say_attach(&self, f: DebuggerFlavor) -> (r: String)
        ensures
            r@ == attach_line(*self, f),
    {
        let pid = dec(self.pid as u64);
        match f {
            DebuggerFlavor::Lldb => {
                let head = plus("  lldb -p ".to_string(), pid.as_str());
                match &self.lldb_script {
                    Some(s) => plus(plus(plus(head, " -o \"command source "), s.as_str()), "\"\n"),
                    None => plus(head, "\n"),
                }
            },
            DebuggerFlavor::Gdb => {
                let head = plus("  gdb -p ".to_string(), pid.as_str());
                match &self.gdb_script {
                    Some(s) => plus(plus(plus(head, " -x "), s.as_str()), "\n"),
                    None => plus(head, "\n"),
                }
            },
        }
    }

    fn say_editor(&self) -> (r: String)
        ensures
            r@ == editor_lines(*self),
    {
        let pid = dec(self.pid as u64);
        match &self.workspace {
            Some(w) => plus(
                plus(
                    plus(
                        plus("  1. Open workspace: code ".to_string(), w.as_str()),
                        "\n  2. Run & Debug (Ctrl+Shift+D) \u{2192} \"Attach\" \u{2192} enter PID ",
                    ),
                    pid.as_str(),
                ),
                "\n",
            ),
            None => plus(
                plus(
                    "  Run & Debug (Ctrl+Shift+D) \u{2192} \"Attach\" \u{2192} enter PID ".to_string(),
                    pid.as_str(),
                ),
                "\n",
            ),
        }
    }

    /// The whole message.
    pub fn text(&self) -> (r: String)
        ensures
            r@ == attach_text(*self),
    {
        let count = if self.breakpoints > 0 {
            plus(
                plus("Breakpoints: ".to_string(), dec(self.breakpoints).as_str()),
                " ops callbacks\n",
            )
        } else {
            String::new()
        };
        let helpers = if self.has_helpers {
            "\nCustom debugger commands available:\n  skip-helpers    \u{2014} skip util.bpf.c/wrapper.c when stepping\n  unskip-helpers  \u{2014} stop skipping helpers\n".to_string()
        } else {
            String::new()
        };
        let head = plus(
            plus(
                plus(
                    plus(
                        "\n=== --wait-debugger ===\nPID: ".to_string(),
                        dec(self.pid as u64).as_str(),
                    ),
                    "\nScheduler .so: ",
                ),
                self.so_path.as_str(),
            ),
            "\n",
        );
        let lldb = self.say_attach(DebuggerFlavor::Lldb);
        let gdb = self.say_attach(DebuggerFlavor::Gdb);
        let middle = plus(
            plus(
                plus(
                    plus(
                        plus(head, count.as_str()),
                        "\nWaiting for debugger to attach...\n\nAttach with lldb:\n",
                    ),
                    lldb.as_str(),
                ),
                "\nAttach with gdb:\n",
            ),
            gdb.as_str(),
        );
        plus(
            plus(
                plus(plus(middle, helpers.as_str()), "\nAttach with VSCode:\n"),
                self.say_editor().as_str(),
            ),
            "\n",
        )
    }
}

/// A line names a helper exactly if its symbol is a function, which stands in a file of
/// helpers and whose name the compiler did not make up. Where the line number stands, and
/// what it is, does not matter.
pub proof fn law_helpers_stand_in_their_files(
    symbol: Seq<char>,
    file: Seq<char>,
    number: Seq<char>,
    name: Seq<char>,
)
    requires
        !symbol.contains('\t'),
        !file.contains(':'),
    ensures
        ({
            let kind = word_at(symbol, 1);
            let helps = ("wrapper.c"@.is_suffix_of(file) || "util.bpf.c"@.is_suffix_of(file)) && (kind
                == Some("T"@) || kind == Some("t"@)) && word_at(symbol, 2) == Some(name)
                && !"_"@.is_prefix_of(name) && !"."@.is_prefix_of(name);
            &&& helper_of(symbol + seq!['\t'] + file + seq![':'] + number) == Some(name) <==> helps
            &&& helper_of(symbol + seq!['\t'] + file) == Some(name) <==> helps
            &&& helper_of(symbol) is None
        }),
{
    let n = symbol.len() as int;
    let m = file.len() as int;
    let line = symbol + seq!['\t'] + file + seq![':'] + number;
    let short = symbol + seq!['\t'] + file;
    assert forall|j: int| 0 <= j < n implies symbol[j] != '\t' by {
        assert(symbol.contains(symbol[j]));
    }
    assert forall|j: int| 0 <= j < m implies file[j] != ':' by {
        assert(file.contains(file[j]));
    }
    assert forall|j: int| 0 <= j < n implies line[j] != '\t' && short[j] != '\t' by {
        assert(line[j] == symbol[j] && short[j] == symbol[j]);
    }
    assert(line[n] == '\t' && short[n] == '\t');
    crate::text::lemma_first_at(line, '\t', n);
    crate::text::lemma_first_at(short, '\t', n);
    crate::text::lemma_first_at(symbol, '\t', n);
    assert(line.take(n) =~= symbol && short.take(n) =~= symbol);
    let source = line.skip(n + 1);
    assert(source =~= file + seq![':'] + number);
    assert forall|j: int| 0 <= j < m implies source[j] != ':' by {
        assert(source[j] == file[j]);
    }
    assert(source[m] == ':');
    crate::text::lemma_first_at(source, ':', m);
    assert(source.take(m) =~= file);
    assert(short.skip(n + 1) =~= file);
    crate::text::lemma_first_at(file, ':', m);
    assert(file.take(m) =~= file);
}

/// A process knows who traces it by the number in its status, with or without white space
/// behind it.
#[verifier::spinoff_prover]
#[verifier::rlimit(40)]
pub proof fn law_tracers_are_read_from_the_status(pid: u32)
    ensures
        tracer_of("TracerPid:\t"@ + decimal(pid as nat)) == Some(pid as nat),
        tracer_of("TracerPid:\t"@ + decimal(pid as nat) + seq!['\n']) == Some(pid as nat),
{
    let head = "TracerPid:\t"@;
    let d = decimal(pid as nat);
    crate::text::law_numbers_survive_being_written(pid as nat);
    crate::text::lemma_decimal_chars(pid as nat);
    let e = Seq::<char>::empty();
    crate::text::law_trimming_takes_white_space_off_both_ends(e, d, e);
    assert(e + d + e =~= d);
    crate::text::law_trimming_takes_white_space_off_both_ends(e, d, seq!['\n']);
    assert(e + d + seq!['\n'] =~= d + seq!['\n']);
    let a = head + d;
    let b = head + d + seq!['\n'];
    assert(head.is_prefix_of(a) && head.is_prefix_of(b));
    assert(a.skip(head.len() as int) =~= d);
    assert(b.skip(head.len() as int) =~= d + seq!['\n']);
}

/// The debuggers' names and the commands by which they are told to stop, and to let the
/// simulator have its signals.
pub proof fn law_debuggers_are_told_in_their_own_words(sym: Seq<char>, info: AttachInfo)
    ensures
        flavor_name(DebuggerFlavor::Lldb) == "lldb"@,
        flavor_name(DebuggerFlavor::Gdb) == "gdb"@,
        breakpoint_text(DebuggerFlavor::Lldb, sym) == "breakpoint set --name "@ + sym + "\n"@,
        breakpoint_text(DebuggerFlavor::Gdb, sym) == "break "@ + sym + "\n"@,
        info.lldb_script is None ==> attach_line(info, DebuggerFlavor::Lldb) == "  lldb -p "@
            + decimal(info.pid as nat) + "\n"@,
        info.gdb_script is None ==> attach_line(info, DebuggerFlavor::Gdb) == "  gdb -p "@
            + decimal(info.pid as nat) + "\n"@,
        info.lldb_script is Some ==> attach_line(info, DebuggerFlavor::Lldb) == "  lldb -p "@
            + decimal(info.pid as nat) + " -o \"command source "@ + (info.lldb_script->0)@ + "\"\n"@,
        info.gdb_script is Some ==> attach_line(info, DebuggerFlavor::Gdb) == "  gdb -p "@
            + decimal(info.pid as nat) + " -x "@ + (info.gdb_script->0)@ + "\n"@,
{
}

/// A script sets a breakpoint on every symbol that it is for.
#[verifier::spinoff_prover]
#[verifier::rlimit(60)]
pub proof fn law_scripts_stop_at_every_symbol(
    f: DebuggerFlavor,
    prefix: Seq<char>,
    exe: Option<Seq<char>>,
    syms: Seq<String>,
    helpers: Seq<String>,
    i: int,
)
    requires
        0 <= i < syms.len(),
    ensures
        holds_text(script_text(f, prefix, exe, syms, helpers), breakpoint_text(f, syms[i]@)),
{
    lemma_breakpoints(f, syms, syms.len(), i);
    let all = breakpoints_text(f, syms, syms.len());
    let part = breakpoint_text(f, syms[i]@);
    let front = "# Auto-generated "@ + flavor_name(f) + " breakpoint script for scheduler ops\n"@
        + "# Scheduler: "@ + prefix + "\n\n"@ + signal_text(f) + skip_text(f, exe);
    let k = choose|k: int| #[trigger] stands_at(all, part, k);
    let s = script_text(f, prefix, exe, syms, helpers);
    let at = front.len() + k;
    assert(s.subrange(at, at + part.len()) =~= all.subrange(k, k + part.len()));
    assert(stands_at(s, part, at));
}

proof fn lemma_breakpoints(f: DebuggerFlavor, syms: Seq<String>, n: nat, i: int)
    requires
        0 <= i < n <= syms.len(),
    ensures
        holds_text(breakpoints_text(f, syms, n), breakpoint_text(f, syms[i]@)),
    decreases n,
{
    let m = (n - 1) as nat;
    let before = breakpoints_text(f, syms, m);
    let all = breakpoints_text(f, syms, n);
    let part = breakpoint_text(f, syms[i]@);
    if i < m {
        lemma_breakpoints(f, syms, m, i);
        let k = choose|k: int| #[trigger] stands_at(before, part, k);
        assert(all.subrange(k, k + part.len()) =~= before.subrange(k, k + part.len()));
        assert(stands_at(all, part, k));
    } else {
        let k = before.len() as int;
        assert(all.subrange(k, k + part.len()) =~= part);
        assert(stands_at(all, part, k));
    }
}

/// What a debugger is told beside its breakpoints: to leave the simulator its signals, to
/// stay out of the simulator, and how to skip helpers where there are any.
pub proof fn law_scripts_keep_out_of_the_simulator(names: Seq<String>, exe: Seq<char>)
    ensures
        holds_text(signal_text(DebuggerFlavor::Lldb), "process handle SIGFPE -s false -n false -p true"@),
        holds_text(signal_text(DebuggerFlavor::Gdb), "handle SIGFPE nostop noprint pass"@),
        skip_text(DebuggerFlavor::Lldb, None).len() == 0,
        skip_text(DebuggerFlavor::Lldb, Some(exe))
            == "settings set target.process.thread.step-avoid-libraries \""@ + exe + "\"\n\n"@,
        skip_text(DebuggerFlavor::Gdb, None) == skip_text(DebuggerFlavor::Gdb, Some(exe)),
        helper_text(DebuggerFlavor::Lldb, names) is None <==> names.len() == 0,
        helper_text(DebuggerFlavor::Gdb, names) is None <==> names.len() == 0,
        names.len() > 0 ==> holds_text(
            helper_text(DebuggerFlavor::Lldb, names)->0,
            joined(names, "|"@),
        ) && holds_text(helper_text(DebuggerFlavor::Gdb, names)->0, joined(names, "|"@)),
{
    let l = signal_text(DebuggerFlavor::Lldb);
    let g = signal_text(DebuggerFlavor::Gdb);
    let a = "process handle SIGFPE -s false -n false -p true"@;
    let b = "handle SIGFPE nostop noprint pass"@;
    reveal_strlit("# The simulator emulates BPF div-by-zero semantics via a SIGFPE handler.\n# Let the handler work without the debugger intercepting the signal.\nprocess handle SIGFPE -s false -n false -p true\n\n");
    reveal_strlit("# The simulator emulates BPF div-by-zero semantics via a SIGFPE handler.\n# Let the handler work without GDB intercepting the signal.\nhandle SIGFPE nostop noprint pass\n\n# Enable pending breakpoints for symbols not yet loaded (e.g., .so not dlopen'd).\nset breakpoint pending on\n\n");
    reveal_strlit("process handle SIGFPE -s false -n false -p true");
    reveal_strlit("handle SIGFPE nostop noprint pass");
    assert(l.subrange(142, 142 + a.len() as int) =~= a);
    assert(stands_at(l, a, 142));
    assert(g.subrange(133, 133 + b.len() as int) =~= b);
    assert(stands_at(g, b, 133));
    if names.len() > 0 {
        let any = joined(names, "|"@);
        let head = "command alias skip-helpers settings set target.process.thread.step-avoid-regexp \"^("@;
        let text = helper_text(DebuggerFlavor::Lldb, names)->0;
        assert(text.subrange(head.len() as int, (head.len() + any.len()) as int) =~= any);
        assert(stands_at(text, any, head.len() as int));
        let start = "define skip-helpers\n  skip -rfu \"^("@;
        let script = helper_text(DebuggerFlavor::Gdb, names)->0;
        assert(script.subrange(start.len() as int, (start.len() + any.len()) as int) =~= any);
        assert(stands_at(script, any, start.len() as int));
    }
}

/// The whole message names the process and the scheduler, and tells of breakpoints and of
/// helpers exactly where there are some.
pub proof fn law_messages_tell_how_to_attach(info: AttachInfo)
    ensures
        attach_text(info) == "\n=== --wait-debugger ===\nPID: "@ + decimal(info.pid as nat)
            + "\nScheduler .so: "@ + info.so_path@ + "\n"@ + (if info.breakpoints > 0 {
            "Breakpoints: "@ + decimal(info.breakpoints as nat) + " ops callbacks\n"@
        } else {
            Seq::empty()
        }) + "\nWaiting for debugger to attach...\n\nAttach with lldb:\n"@ + attach_line(
            info,
            DebuggerFlavor::Lldb,
        ) + "\nAttach with gdb:\n"@ + attach_line(info, DebuggerFlavor::Gdb) + (if info.has_helpers {
            "\nCustom debugger commands available:\n  skip-helpers    \u{2014} skip util.bpf.c/wrapper.c when stepping\n  unskip-helpers  \u{2014} stop skipping helpers\n"@
        } else {
            Seq::empty()
        }) + "\nAttach with VSCode:\n"@ + editor_lines(info) + "\n"@,
        info.workspace is Some ==> editor_lines(info) == "  1. Open workspace: code "@ + (
        info.workspace->0)@
            + "\n  2. Run & Debug (Ctrl+Shift+D) \u{2192} \"Attach\" \u{2192} enter PID "@
            + decimal(info.pid as nat) + "\n"@,
        info.workspace is None ==> editor_lines(info)
            == "  Run & Debug (Ctrl+Shift+D) \u{2192} \"Attach\" \u{2192} enter PID "@ + decimal(
            info.pid as nat,
        ) + "\n"@,
{
}

} // verus!
