//! Names of scheduler files.
//!
//! A scheduler `<name>` is built as `libscx_<name>.so`, and its instrumented
//! variant as `libscx_<name>_e9.so`.

use vstd::prelude::*;

use crate::text::{ends_with, plus, quoted, shown_quoted, starts_with};

verus! {

/// What follows a prefix.
pub open spec fn after_prefix(s: Seq<char>, prefix: Seq<char>) -> Option<Seq<char>> {
    if prefix.is_prefix_of(s) {
        Some(s.skip(prefix.len() as int))
    } else {
        None
    }
}

/// What precedes a suffix.
pub open spec fn before_suffix(s: Seq<char>, suffix: Seq<char>) -> Option<Seq<char>> {
    if suffix.is_suffix_of(s) {
        Some(s.take(s.len() - suffix.len()))
    } else {
        None
    }
}

/// The name of the scheduler in a file; none if the file is not named like one.
pub open spec fn scheduler_in(filename: Seq<char>) -> Option<Seq<char>> {
    match after_prefix(filename, "libscx_"@) {
        Some(rest) => match before_suffix(rest, ".so"@) {
            Some(name) => match before_suffix(name, "_e9"@) {
                Some(base) => Some(base),
                None => Some(name),
            },
            None => None,
        },
        None => None,
    }
}

fn strip_prefix<'a>(s: &'a str, prefix: &str) -> (r: Option<&'a str>)
    ensures
        match r {
            Some(t) => after_prefix(s@, prefix@) == Some(t@),
            None => after_prefix(s@, prefix@) is None,
        },
{
    if starts_with(s, prefix) {
        let t = s.substring_char(prefix.unicode_len(), s.unicode_len());
        proof {
            assert(t@ =~= s@.skip(prefix@.len() as int));
        }
        Some(t)
    } else {
        None
    }
}

fn strip_suffix<'a>(s: &'a str, suffix: &str) -> (r: Option<&'a str>)
    ensures
        match r {
            Some(t) => before_suffix(s@, suffix@) == Some(t@),
            None => before_suffix(s@, suffix@) is None,
        },
{
    if ends_with(s, suffix) {
        let n = s.unicode_len() - suffix.unicode_len();
        let t = s.substring_char(0, n);
        proof {
            assert(t@ =~= s@.take(s@.len() - suffix@.len()));
        }
        Some(t)
    } else {
        None
    }
}

/// The name of the scheduler in a file. The instrumented variant has the name of
/// the plain one.
pub fn scheduler_prefix_from_path(filename: &str) -> (r: Option<String>)
    ensures
        match r {
            Some(t) => scheduler_in(filename@) == Some(t@),
            None => scheduler_in(filename@) is None,
        },
{
    match strip_prefix(filename, "libscx_") {
        Some(rest) => match strip_suffix(rest, ".so") {
            Some(name) => match strip_suffix(name, "_e9") {
                Some(base) => Some(base.to_string()),
                None => Some(name.to_string()),
            },
            None => None,
        },
        None => None,
    }
}

/// The file of a scheduler.
pub open spec fn file_of(name: Seq<char>, e9patch: bool) -> Seq<char> {
    if e9patch {
        "libscx_"@ + name + "_e9"@ + ".so"@
    } else {
        "libscx_"@ + name + ".so"@
    }
}

/// A scheduler's file names the scheduler, and so does its instrumented
/// variant, unless the name itself ends like one.
pub proof fn law_files_name_their_scheduler(name: Seq<char>)
    ensures
        scheduler_in(file_of(name, true)) == Some(name),
        !"_e9"@.is_suffix_of(name) ==> scheduler_in(file_of(name, false)) == Some(name),
{
    reveal_strlit("libscx_");
    reveal_strlit(".so");
    reveal_strlit("_e9");
    let plain = file_of(name, false);
    assert(plain.skip("libscx_"@.len() as int) =~= name + ".so"@);
    assert("libscx_"@.is_prefix_of(plain));
    assert(".so"@.is_suffix_of(name + ".so"@));
    assert((name + ".so"@).take((name + ".so"@).len() - ".so"@.len()) =~= name);
    let e9 = file_of(name, true);
    let inner = name + "_e9"@;
    assert(e9 =~= "libscx_"@ + (inner + ".so"@));
    assert(e9.skip("libscx_"@.len() as int) =~= inner + ".so"@);
    assert("libscx_"@.is_prefix_of(e9));
    assert(".so"@.is_suffix_of(inner + ".so"@));
    assert((inner + ".so"@).take((inner + ".so"@).len() - ".so"@.len()) =~= inner);
    assert("_e9"@.is_suffix_of(inner));
    assert(inner.take(inner.len() - "_e9"@.len()) =~= name);
}

/// The file of the instrumented variant, from the stem of a file; none if the
/// file is one already.
pub fn e9_variant(stem: &str) -> (r: Option<String>)
    ensures
        match r {
            Some(t) => !"_e9"@.is_suffix_of(stem@) && t@ == stem@ + "_e9.so"@,
            None => "_e9"@.is_suffix_of(stem@),
        },
{
    if ends_with(stem, "_e9") {
        None
    } else {
        Some(plus(stem.to_string(), "_e9.so"))
    }
}

/// What is said where the instrumented variant is missing on replay.
pub fn missing_e9_text(path: &str) -> (r: String)
    ensures
        r@ == "e9patch scheduler variant not found: "@ + path@
            + "\nBuild with: make -C schedulers e9\nOr pass --scheduler-file <path_to_e9.so>"@,
{
    plus(
        plus("e9patch scheduler variant not found: ".to_string(), path),
        "\nBuild with: make -C schedulers e9\nOr pass --scheduler-file <path_to_e9.so>",
    )
}

/// Where a scheduler is looked for in a directory.
pub fn scheduler_file(dir: &str, name: &str, e9patch: bool) -> (r: String)
    ensures
        r@ == dir@ + "/"@ + file_of(name@, e9patch),
{
    let head = plus(dir.to_string(), "/");
    let file = if e9patch {
        plus(plus(plus("libscx_".to_string(), name), "_e9"), ".so")
    } else {
        plus(plus("libscx_".to_string(), name), ".so")
    };
    plus(head, file.as_str())
}

/// What is said where a scheduler is missing.
pub open spec fn missing_text(name: Seq<char>, path: Seq<char>, e9patch: bool) -> Seq<char> {
    if e9patch {
        "e9patch scheduler variant not found: "@ + path
            + "\nBuild with: make -C schedulers e9\n(requires e9tool: third_party/e9patch/e9tool)"@
    } else {
        "unknown scheduler "@ + shown_quoted(name)
            + "; use --list-schedulers to see available schedulers"@
    }
}

/// What is said where a scheduler is missing.
pub fn missing_scheduler_text(name: &str, path: &str, e9patch: bool) -> (r: String)
    ensures
        r@ == missing_text(name@, path@, e9patch),
{
    if e9patch {
        plus(
            plus("e9patch scheduler variant not found: ".to_string(), path),
            "\nBuild with: make -C schedulers e9\n(requires e9tool: third_party/e9patch/e9tool)",
        )
    } else {
        plus(
            plus("unknown scheduler ".to_string(), quoted(name).as_str()),
            "; use --list-schedulers to see available schedulers",
        )
    }
}

/// Whether a file can stand for a scheduler: it is named like its file, with
/// anything between the name and the extension.
pub open spec fn can_stand_for(basename: Seq<char>, name: Seq<char>) -> bool {
    ("libscx_"@ + name).is_prefix_of(basename) && ".so"@.is_suffix_of(basename)
}

/// What is said of a file that cannot stand for a scheduler.
pub open spec fn wrong_file_text(basename: Seq<char>, name: Seq<char>) -> Seq<char> {
    "--scheduler-file basename must match libscx_"@ + name + "*.so (got "@ + shown_quoted(basename)
        + "); the filename prefix is parsed by downstream code (scheduler_prefix_from_path, derive_e9rip_path). Rename the file or pass a different --scheduler/-s."@
}

/// Tests whether a file can stand for a scheduler.
pub fn check_override(basename: &str, name: &str) -> (r: Result<(), String>)
    ensures
        match r {
            Ok(()) => can_stand_for(basename@, name@),
            Err(e) => !can_stand_for(basename@, name@) && e@ == wrong_file_text(
                basename@,
                name@,
            ),
        },
{
    let expected = plus("libscx_".to_string(), name);
    if starts_with(basename, expected.as_str()) && ends_with(basename, ".so") {
        Ok(())
    } else {
        Err(
            plus(
                plus(
                    plus(
                        plus(
                            "--scheduler-file basename must match libscx_".to_string(),
                            name,
                        ),
                        "*.so (got ",
                    ),
                    quoted(basename).as_str(),
                ),
                "); the filename prefix is parsed by downstream code (scheduler_prefix_from_path, derive_e9rip_path). Rename the file or pass a different --scheduler/-s.",
            ),
        )
    }
}

/// The scheduler that a replay loads: the one given, else the one recorded. There
/// must be one of the two.
pub fn resolve_scheduler_path(given: Option<String>, recorded: &Option<String>) -> (r: String)
    requires
        given is Some || recorded is Some,
    ensures
        r@ == if given is Some {
            (given->0)@
        } else {
            (recorded->0)@
        },
{
    match given {
        Some(p) => p,
        None => match recorded {
            Some(p) => p.clone(),
            None => String::new(),
        },
    }
}

/// Only a file that is named like a scheduler's names one, and its name is what stands
/// between the two ends, less the mark of an instrumented variant.
pub proof fn law_only_scheduler_files_name_a_scheduler(f: Seq<char>)
    ensures
        scheduler_in(f) is Some ==> exists|name: Seq<char>|
            (f == #[trigger] file_of(name, false) || f == file_of(name, true)) && scheduler_in(f)
                == Some(name),
        !"libscx_"@.is_prefix_of(f) ==> scheduler_in(f) is None,
        !".so"@.is_suffix_of(f) ==> scheduler_in(f) is None,
{
    reveal_strlit("libscx_");
    reveal_strlit(".so");
    reveal_strlit("_e9");
    if scheduler_in(f) is Some {
        let name = scheduler_in(f)->0;
        let rest = f.skip("libscx_"@.len() as int);
        let stem = rest.take(rest.len() - ".so"@.len());
        assert(rest =~= stem + ".so"@);
        assert(f =~= "libscx_"@ + rest);
        if "_e9"@.is_suffix_of(stem) {
            assert(stem =~= name + "_e9"@);
            assert(f =~= file_of(name, true));
        } else {
            assert(f =~= file_of(name, false));
        }
    }
    if !".so"@.is_suffix_of(f) && "libscx_"@.is_prefix_of(f) {
        let rest = f.skip("libscx_"@.len() as int);
        if ".so"@.is_suffix_of(rest) {
            assert(f.subrange(f.len() - ".so"@.len(), f.len() as int) =~= rest.subrange(
                rest.len() - ".so"@.len(),
                rest.len() as int,
            ));
        }
    }
}

/// A scheduler's own files can stand for it; a file that begins or ends otherwise cannot.
pub proof fn law_a_scheduler_is_stood_for_by_its_files(name: Seq<char>, e9patch: bool, f: Seq<char>)
    ensures
        can_stand_for(file_of(name, e9patch), name),
        !("libscx_"@ + name).is_prefix_of(f) ==> !can_stand_for(f, name),
        !".so"@.is_suffix_of(f) ==> !can_stand_for(f, name),
        file_of(name, true) != file_of(name, false),
{
    reveal_strlit(".so");
    reveal_strlit("_e9");
    let g = file_of(name, e9patch);
    assert(("libscx_"@ + name).is_prefix_of(g));
    assert(".so"@.is_suffix_of(g)) by {
        assert(g.subrange(g.len() - ".so"@.len(), g.len() as int) =~= ".so"@);
    }
    assert(file_of(name, true).len() == file_of(name, false).len() + 3);
}

/// What is said of a missing scheduler names it, or the file looked for; what is said of a
/// wrong file names the file and the scheduler.
pub proof fn law_messages_name_what_is_missing(name: Seq<char>, path: Seq<char>)
    ensures
        missing_text(name, path, true) == "e9patch scheduler variant not found: "@ + path
            + "\nBuild with: make -C schedulers e9\n(requires e9tool: third_party/e9patch/e9tool)"@,
        missing_text(name, path, false) == "unknown scheduler "@ + shown_quoted(name)
            + "; use --list-schedulers to see available schedulers"@,
        wrong_file_text(path, name) == "--scheduler-file basename must match libscx_"@ + name
            + "*.so (got "@ + shown_quoted(path)
            + "); the filename prefix is parsed by downstream code (scheduler_prefix_from_path, derive_e9rip_path). Rename the file or pass a different --scheduler/-s."@,
{
}

} // verus!
