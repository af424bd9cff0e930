//! Layer configurations of the `scx_layered` scheduler.
//!
//! A configuration names layers, the rules that select tasks into them and
//! their policy. It is checked as a whole and lowered to `LayerSpec`s. Nothing
//! that it asks for is dropped quietly: what cannot be applied is refused by
//! name, or reported where the caller accepted the loss.

use vstd::prelude::*;

use crate::layered::{
    begins_with, default_spec, finishes_with, group_holds, has_within, rule_holds, takes_task,
    Double, LayerGrowthAlgo, LayerKind, LayerMatch, LayerPlacement, LayerSpec, MatchView, SpecView,
    TaskTraits, DEFAULT_LAYER_WEIGHT, DISALLOW_AFTER_NEVER, XNUMA_CLOSE, XNUMA_DELTA_CLOSE,
    XNUMA_DELTA_OPEN, XNUMA_OPEN,
};
use crate::text::{contains_char, dec, decimal, plus, quoted, same_text, shown_quoted};
use crate::types::TimeNs;

verus! {

/// How an item that is not applied is treated.
#[derive(Clone, Copy, Debug, PartialEq, Eq, Structural)]
pub enum Disposition {
    /// Refused, unless the caller accepts the loss.
    Refusable,
    /// Refused in any case: without it the layer would take other tasks.
    Fatal,
    /// Ignored, as the scheduler itself ignores it.
    DeprecatedUpstream,
}

/// Items of a configuration that are not applied.
#[derive(Clone, Copy, Debug, PartialEq, Eq, Structural)]
pub enum Unsupported {
    MatchCgroupRegex,
    MatchNsPidEquals,
    MatchNsEquals,
    MatchCmdJoin,
    MatchUsedGpuTid,
    MatchUsedGpuPid,
    MatchHintEquals,
    MatchSystemCpuUtilBelow,
    MatchDsqInsertBelow,
    FieldTemplate,
    GrowthCpuSetSpread,
    GrowthStickyDynamic,
    FieldIdleResumeUs,
    FieldMembwGb,
    FieldUtilPeakHalfLifeMs,
    FieldAllowNodeAligned,
    FieldIdleSmt,
}

/// The name of an item in a configuration.
pub open spec fn item_name(u: Unsupported) -> Seq<char> {
    match u {
        Unsupported::MatchCgroupRegex => "CgroupRegex"@,
        Unsupported::MatchNsPidEquals => "NSPIDEquals"@,
        Unsupported::MatchNsEquals => "NSEquals"@,
        Unsupported::MatchCmdJoin => "CmdJoin"@,
        Unsupported::MatchUsedGpuTid => "UsedGpuTid"@,
        Unsupported::MatchUsedGpuPid => "UsedGpuPid"@,
        Unsupported::MatchHintEquals => "HintEquals"@,
        Unsupported::MatchSystemCpuUtilBelow => "SystemCpuUtilBelow"@,
        Unsupported::MatchDsqInsertBelow => "DsqInsertBelow"@,
        Unsupported::FieldTemplate => "template"@,
        Unsupported::GrowthCpuSetSpread => "growth_algo:CpuSetSpread*"@,
        Unsupported::GrowthStickyDynamic => "growth_algo:StickyDynamic"@,
        Unsupported::FieldIdleResumeUs => "idle_resume_us"@,
        Unsupported::FieldMembwGb => "membw_gb"@,
        Unsupported::FieldUtilPeakHalfLifeMs => "util_peak_half_life_ms"@,
        Unsupported::FieldAllowNodeAligned => "allow_node_aligned"@,
        Unsupported::FieldIdleSmt => "idle_smt"@,
    }
}

/// How an item is treated.
pub open spec fn item_disposition(u: Unsupported) -> Disposition {
    match u {
        Unsupported::MatchCgroupRegex => Disposition::Fatal,
        Unsupported::MatchNsPidEquals => Disposition::Fatal,
        Unsupported::MatchNsEquals => Disposition::Fatal,
        Unsupported::MatchCmdJoin => Disposition::Fatal,
        Unsupported::MatchUsedGpuTid => Disposition::Fatal,
        Unsupported::MatchUsedGpuPid => Disposition::Fatal,
        Unsupported::MatchHintEquals => Disposition::Fatal,
        Unsupported::MatchSystemCpuUtilBelow => Disposition::Fatal,
        Unsupported::MatchDsqInsertBelow => Disposition::Fatal,
        Unsupported::FieldTemplate => Disposition::Fatal,
        Unsupported::GrowthCpuSetSpread => Disposition::Fatal,
        Unsupported::GrowthStickyDynamic => Disposition::Fatal,
        Unsupported::FieldIdleResumeUs => Disposition::Refusable,
        Unsupported::FieldMembwGb => Disposition::Refusable,
        Unsupported::FieldUtilPeakHalfLifeMs => Disposition::Refusable,
        Unsupported::FieldAllowNodeAligned => Disposition::DeprecatedUpstream,
        Unsupported::FieldIdleSmt => Disposition::DeprecatedUpstream,
    }
}

/// Why an item is not applied.
pub open spec fn item_reason(u: Unsupported) -> Seq<char> {
    match u {
        Unsupported::MatchCgroupRegex =>
        "needs the userspace regex evaluator that fills cgroup_match_bitmap; scxsim runs no scx_layered userspace daemon"@,
        Unsupported::MatchNsPidEquals =>
        "the simulated task_struct has no pid-namespace chain"@,
        Unsupported::MatchNsEquals =>
        "the simulated task_struct has no pid-namespace chain"@,
        Unsupported::MatchCmdJoin =>
        "compares against taskc->join_layer, filled by the scxcmd userspace channel, which scxsim does not provide"@,
        Unsupported::MatchUsedGpuTid =>
        "scxsim models CPU time, not accelerators: nothing delivers the kprobe/nvidia_* events that populate the gpu_tid map"@,
        Unsupported::MatchUsedGpuPid =>
        "scxsim models CPU time, not accelerators: nothing delivers the kprobe/nvidia_* events that populate the gpu_tgid map"@,
        Unsupported::MatchHintEquals =>
        "the hint value is published by scx_layered's userspace daemon"@,
        Unsupported::MatchSystemCpuUtilBelow =>
        "the utilisation figure is computed by scx_layered's userspace daemon"@,
        Unsupported::MatchDsqInsertBelow =>
        "the insert rate is computed by scx_layered's userspace daemon"@,
        Unsupported::FieldTemplate =>
        "expands against the HOST's /sys/fs/cgroup (main.rs::expand_template); under scxsim the cgroup tree is the simulated one, so the expansion would enumerate the wrong machine"@,
        Unsupported::GrowthCpuSetSpread =>
        "interleaves across cgroup cpuset domains, which scxsim's CPU allocator does not model; publishing it would leave the BPF with a growth_algo its own Big/Little idle selection does not recognise"@,
        Unsupported::GrowthStickyDynamic =>
        "trades whole LLCs between layers from the userspace allocator, which scxsim does not implement"@,
        Unsupported::FieldIdleResumeUs =>
        "scxsim models no cpuidle governor, so there is no resume-latency QoS to set"@,
        Unsupported::FieldMembwGb =>
        "scxsim models CPU time only; there is no memory-bandwidth accounting to enforce a limit against"@,
        Unsupported::FieldUtilPeakHalfLifeMs =>
        "read only by scx_layered's userspace CPU allocator, and scxsim's control loop does not implement peak-hold sizing"@,
        Unsupported::FieldAllowNodeAligned =>
        "deprecated in scx_layered: node-aligned tasks are always dispatched on layer DSQs now, and the flag is ignored with a warning"@,
        Unsupported::FieldIdleSmt =>
        "deprecated in scx_layered, which ignores it with a warning"@,
    }
}

/// Every item.
pub open spec fn all_items() -> Seq<Unsupported> {
    seq![
        Unsupported::MatchCgroupRegex,
        Unsupported::MatchNsPidEquals,
        Unsupported::MatchNsEquals,
        Unsupported::MatchCmdJoin,
        Unsupported::MatchUsedGpuTid,
        Unsupported::MatchUsedGpuPid,
        Unsupported::MatchHintEquals,
        Unsupported::MatchSystemCpuUtilBelow,
        Unsupported::MatchDsqInsertBelow,
        Unsupported::FieldTemplate,
        Unsupported::GrowthCpuSetSpread,
        Unsupported::GrowthStickyDynamic,
        Unsupported::FieldIdleResumeUs,
        Unsupported::FieldMembwGb,
        Unsupported::FieldUtilPeakHalfLifeMs,
        Unsupported::FieldAllowNodeAligned,
        Unsupported::FieldIdleSmt,
    ]
}

/// The first of the items from `from` on with a name.
pub open spec fn item_named(name: Seq<char>, from: int) -> Option<Unsupported>
    decreases all_items().len() - from,
{
    if from < 0 || from >= all_items().len() {
        None
    } else if item_name(all_items()[from]) == name {
        Some(all_items()[from])
    } else {
        item_named(name, from + 1)
    }
}

impl Unsupported {
    /// Every item.
    pub fn all() -> (r: Vec<Unsupported>)
        ensures
            r@ == all_items(),
    {
        let mut r: Vec<Unsupported> = Vec::new();
        r.push(Unsupported::MatchCgroupRegex);
        r.push(Unsupported::MatchNsPidEquals);
        r.push(Unsupported::MatchNsEquals);
        r.push(Unsupported::MatchCmdJoin);
        r.push(Unsupported::MatchUsedGpuTid);
        r.push(Unsupported::MatchUsedGpuPid);
        r.push(Unsupported::MatchHintEquals);
        r.push(Unsupported::MatchSystemCpuUtilBelow);
        r.push(Unsupported::MatchDsqInsertBelow);
        r.push(Unsupported::FieldTemplate);
        r.push(Unsupported::GrowthCpuSetSpread);
        r.push(Unsupported::GrowthStickyDynamic);
        r.push(Unsupported::FieldIdleResumeUs);
        r.push(Unsupported::FieldMembwGb);
        r.push(Unsupported::FieldUtilPeakHalfLifeMs);
        r.push(Unsupported::FieldAllowNodeAligned);
        r.push(Unsupported::FieldIdleSmt);
        proof {
            assert(r@ =~= all_items());
        }
        r
    }

    /// The name of the item in a configuration.
    pub fn json_name(self) -> (r: &'static str)
        ensures
            r@ == item_name(self),
    {
        match self {
            Unsupported::MatchCgroupRegex => "CgroupRegex",
            Unsupported::MatchNsPidEquals => "NSPIDEquals",
            Unsupported::MatchNsEquals => "NSEquals",
            Unsupported::MatchCmdJoin => "CmdJoin",
            Unsupported::MatchUsedGpuTid => "UsedGpuTid",
            Unsupported::MatchUsedGpuPid => "UsedGpuPid",
            Unsupported::MatchHintEquals => "HintEquals",
            Unsupported::MatchSystemCpuUtilBelow => "SystemCpuUtilBelow",
            Unsupported::MatchDsqInsertBelow => "DsqInsertBelow",
            Unsupported::FieldTemplate => "template",
            Unsupported::GrowthCpuSetSpread => "growth_algo:CpuSetSpread*",
            Unsupported::GrowthStickyDynamic => "growth_algo:StickyDynamic",
            Unsupported::FieldIdleResumeUs => "idle_resume_us",
            Unsupported::FieldMembwGb => "membw_gb",
            Unsupported::FieldUtilPeakHalfLifeMs => "util_peak_half_life_ms",
            Unsupported::FieldAllowNodeAligned => "allow_node_aligned",
            Unsupported::FieldIdleSmt => "idle_smt",
        }
    }

    /// How the item is treated.
    pub fn disposition(self) -> (r: Disposition)
        ensures
            r == item_disposition(self),
    {
        match self {
            Unsupported::MatchCgroupRegex => Disposition::Fatal,
            Unsupported::MatchNsPidEquals => Disposition::Fatal,
            Unsupported::MatchNsEquals => Disposition::Fatal,
            Unsupported::MatchCmdJoin => Disposition::Fatal,
            Unsupported::MatchUsedGpuTid => Disposition::Fatal,
            Unsupported::MatchUsedGpuPid => Disposition::Fatal,
            Unsupported::MatchHintEquals => Disposition::Fatal,
            Unsupported::MatchSystemCpuUtilBelow => Disposition::Fatal,
            Unsupported::MatchDsqInsertBelow => Disposition::Fatal,
            Unsupported::FieldTemplate => Disposition::Fatal,
            Unsupported::GrowthCpuSetSpread => Disposition::Fatal,
            Unsupported::GrowthStickyDynamic => Disposition::Fatal,
            Unsupported::FieldIdleResumeUs => Disposition::Refusable,
            Unsupported::FieldMembwGb => Disposition::Refusable,
            Unsupported::FieldUtilPeakHalfLifeMs => Disposition::Refusable,
            Unsupported::FieldAllowNodeAligned => Disposition::DeprecatedUpstream,
            Unsupported::FieldIdleSmt => Disposition::DeprecatedUpstream,
        }
    }

    /// Why the item is not applied.
    pub fn reason(self) -> (r: &'static str)
        ensures
            r@ == item_reason(self),
    {
        match self {
            Unsupported::MatchCgroupRegex =>
            "needs the userspace regex evaluator that fills cgroup_match_bitmap; scxsim runs no scx_layered userspace daemon",
            Unsupported::MatchNsPidEquals =>
            "the simulated task_struct has no pid-namespace chain",
            Unsupported::MatchNsEquals =>
            "the simulated task_struct has no pid-namespace chain",
            Unsupported::MatchCmdJoin =>
            "compares against taskc->join_layer, filled by the scxcmd userspace channel, which scxsim does not provide",
            Unsupported::MatchUsedGpuTid =>
            "scxsim models CPU time, not accelerators: nothing delivers the kprobe/nvidia_* events that populate the gpu_tid map",
            Unsupported::MatchUsedGpuPid =>
            "scxsim models CPU time, not accelerators: nothing delivers the kprobe/nvidia_* events that populate the gpu_tgid map",
            Unsupported::MatchHintEquals =>
            "the hint value is published by scx_layered's userspace daemon",
            Unsupported::MatchSystemCpuUtilBelow =>
            "the utilisation figure is computed by scx_layered's userspace daemon",
            Unsupported::MatchDsqInsertBelow =>
            "the insert rate is computed by scx_layered's userspace daemon",
            Unsupported::FieldTemplate =>
            "expands against the HOST's /sys/fs/cgroup (main.rs::expand_template); under scxsim the cgroup tree is the simulated one, so the expansion would enumerate the wrong machine",
            Unsupported::GrowthCpuSetSpread =>
            "interleaves across cgroup cpuset domains, which scxsim's CPU allocator does not model; publishing it would leave the BPF with a growth_algo its own Big/Little idle selection does not recognise",
            Unsupported::GrowthStickyDynamic =>
            "trades whole LLCs between layers from the userspace allocator, which scxsim does not implement",
            Unsupported::FieldIdleResumeUs =>
            "scxsim models no cpuidle governor, so there is no resume-latency QoS to set",
            Unsupported::FieldMembwGb =>
            "scxsim models CPU time only; there is no memory-bandwidth accounting to enforce a limit against",
            Unsupported::FieldUtilPeakHalfLifeMs =>
            "read only by scx_layered's userspace CPU allocator, and scxsim's control loop does not implement peak-hold sizing",
            Unsupported::FieldAllowNodeAligned =>
            "deprecated in scx_layered: node-aligned tasks are always dispatched on layer DSQs now, and the flag is ignored with a warning",
            Unsupported::FieldIdleSmt =>
            "deprecated in scx_layered, which ignores it with a warning",
        }
    }

    /// The item with a name.
    pub fn from_json_name(name: &str) -> (r: Option<Unsupported>)
        ensures
            r == item_named(name@, 0),
    {
        let items = Unsupported::all();
        let mut i: usize = 0;
        while i < items.len()
            invariant
                i <= items@.len(),
                items@ == all_items(),
                item_named(name@, 0) == item_named(name@, i as int),
            decreases items@.len() - i,
        {
            if same_text(items[i].json_name(), name) {
                return Some(items[i]);
            }
            i = i + 1;
        }
        None
    }
}

/// What was asked for and not applied, and where.
pub struct Rejection {
    pub site: String,
    pub item: Unsupported,
}

/// A rejection as contracts see it.
#[verifier::ext_equal]
pub struct RejectionView {
    pub site: Seq<char>,
    pub item: Unsupported,
}

impl View for Rejection {
    type V = RejectionView;

    open spec fn view(&self) -> RejectionView {
        RejectionView { site: self.site@, item: self.item }
    }
}

/// What a rejection says.
pub open spec fn rejection_text(r: RejectionView) -> Seq<char> {
    r.site + ": "@ + item_name(r.item) + " — "@ + item_reason(r.item)
}

impl Rejection {
    /// What the rejection says.
    pub fn text(&self) -> (r: String)
        ensures
            r@ == rejection_text(self@),
    {
        plus(
            plus(
                plus(plus(self.site.clone(), ": "), self.item.json_name()),
                " — ",
            ),
            self.item.reason(),
        )
    }
}

/// Rejections as contracts see them.
pub open spec fn rejection_views(v: Seq<Rejection>) -> Seq<RejectionView> {
    v.map_values(|r: Rejection| r@)
}

/// Texts as contracts see them.
pub open spec fn text_views(v: Seq<String>) -> Seq<Seq<char>> {
    v.map_values(|s: String| s@)
}

/// Why a configuration cannot be used.
pub enum LayerConfigError {
    /// Keys that no layer kind has.
    UnknownKeys(Vec<String>),
    /// The configuration as a whole makes no sense.
    Invalid(String),
    /// Items that are not applied.
    Unsupported(Vec<Rejection>),
    /// Unknown keys and items that are not applied.
    Both { unknown: Vec<String>, unsupported: Vec<Rejection> },
}

/// An error as contracts see it.
pub enum ConfigErrorView {
    UnknownKeys(Seq<Seq<char>>),
    Invalid(Seq<char>),
    Unsupported(Seq<RejectionView>),
    Both { unknown: Seq<Seq<char>>, unsupported: Seq<RejectionView> },
}

impl View for LayerConfigError {
    type V = ConfigErrorView;

    open spec fn view(&self) -> ConfigErrorView {
        match self {
            LayerConfigError::UnknownKeys(k) => ConfigErrorView::UnknownKeys(text_views(k@)),
            LayerConfigError::Invalid(m) => ConfigErrorView::Invalid(m@),
            LayerConfigError::Unsupported(r) => ConfigErrorView::Unsupported(
                rejection_views(r@),
            ),
            LayerConfigError::Both { unknown, unsupported } => ConfigErrorView::Both {
                unknown: text_views(unknown@),
                unsupported: rejection_views(unsupported@),
            },
        }
    }
}

/// The first `n` keys, each on a line of its own.
pub open spec fn key_lines(keys: Seq<Seq<char>>, n: nat) -> Seq<char>
    decreases n,
{
    if n == 0 {
        Seq::empty()
    } else {
        key_lines(keys, (n - 1) as nat) + "  "@ + keys[n - 1] + "\n"@
    }
}

/// What is said of unknown keys.
pub open spec fn unknown_text(keys: Seq<Seq<char>>) -> Seq<char> {
    "layer config has "@ + decimal(keys.len())
        + " key(s) that no layer kind in scxsim's mirror of scx_layered's schema has:\n"@
        + key_lines(keys, keys.len())
        + "Either a typo — in which case nothing would have applied it — or a field scx_layered gained since the mirror in safe/layered_config.rs was written against the pinned submodule. Both want a look; neither is safe to ignore."@
}

/// The first `n` rejections, each on a line of its own.
pub open spec fn rejection_lines(r: Seq<RejectionView>, n: nat) -> Seq<char>
    decreases n,
{
    if n == 0 {
        Seq::empty()
    } else {
        rejection_lines(r, (n - 1) as nat) + "  "@ + rejection_text(r[n - 1]) + "\n"@
    }
}

/// How many of the first `n` rejections can be waived.
pub open spec fn waivable_count(r: Seq<RejectionView>, n: nat) -> nat
    decreases n,
{
    if n == 0 {
        0
    } else {
        waivable_count(r, (n - 1) as nat) + (if item_disposition(r[n - 1].item) is Refusable {
            1nat
        } else {
            0nat
        })
    }
}

/// The names of those of the first `n` rejections that can be waived, with
/// commas between them.
pub open spec fn waivable_names(r: Seq<RejectionView>, n: nat) -> Seq<char>
    decreases n,
{
    if n == 0 {
        Seq::empty()
    } else if !(item_disposition(r[n - 1].item) is Refusable) {
        waivable_names(r, (n - 1) as nat)
    } else if waivable_count(r, (n - 1) as nat) == 0 {
        item_name(r[n - 1].item)
    } else {
        waivable_names(r, (n - 1) as nat) + ","@ + item_name(r[n - 1].item)
    }
}

/// What is said of items that are not applied.
pub open spec fn unsupported_text(r: Seq<RejectionView>) -> Seq<char> {
    let waivable = waivable_count(r, r.len());
    "layer config asks for "@ + decimal(r.len()) + " thing(s) scxsim does not apply:\n"@
        + rejection_lines(r, r.len()) + (if waivable == 0 {
        "None of these can be waived: dropping a match rule does not lose fidelity, it changes which tasks the layer captures."@
    } else {
        "Waivable with --layer-config-drop, accepting that they are NOT applied: "@
            + waivable_names(r, r.len()) + (if waivable < r.len() {
            ". The other "@ + decimal((r.len() - waivable) as nat)
                + " cannot be waived — dropping a match rule changes which tasks the layer captures."@
        } else {
            Seq::empty()
        })
    })
}

/// What an error says.
pub open spec fn error_text(e: ConfigErrorView) -> Seq<char> {
    match e {
        ConfigErrorView::UnknownKeys(keys) => unknown_text(keys),
        ConfigErrorView::Invalid(m) => "invalid layer config: "@ + m,
        ConfigErrorView::Unsupported(r) => unsupported_text(r),
        ConfigErrorView::Both { unknown, unsupported } => unknown_text(unknown) + "\n"@
            + unsupported_text(unsupported),
    }
}

fn say_unknown(keys: &Vec<String>) -> (r: String)
    ensures
        r@ == unknown_text(text_views(keys@)),
{
    let head = plus(
        plus("layer config has ".to_string(), dec(keys.len() as u64).as_str()),
        " key(s) that no layer kind in scxsim's mirror of scx_layered's schema has:\n",
    );
    let ghost start = head@;
    let mut out = head;
    let mut i: usize = 0;
    proof {
        assert(start + key_lines(text_views(keys@), 0) =~= start);
    }
    while i < keys.len()
        invariant
            i <= keys@.len(),
            out@ == start + key_lines(text_views(keys@), i as nat),
        decreases keys@.len() - i,
    {
        let next = plus(plus(plus(out, "  "), keys[i].as_str()), "\n");
        proof {
            let lines = key_lines(text_views(keys@), i as nat);
            assert(text_views(keys@)[i as int] == keys@[i as int]@);
            assert(start + lines + "  "@ + keys@[i as int]@ + "\n"@ =~= start + (lines + "  "@
                + keys@[i as int]@ + "\n"@));
        }
        out = next;
        i = i + 1;
    }
    plus(
        out,
        "Either a typo — in which case nothing would have applied it — or a field scx_layered gained since the mirror in safe/layered_config.rs was written against the pinned submodule. Both want a look; neither is safe to ignore.",
    )
}

proof fn lemma_waivable(r: Seq<RejectionView>, n: nat)
    ensures
        waivable_count(r, n) <= n,
    decreases n,
{
    if n > 0 {
        lemma_waivable(r, (n - 1) as nat);
    }
}

fn say_unsupported(rejections: &Vec<Rejection>) -> (r: String)
    ensures
        r@ == unsupported_text(rejection_views(rejections@)),
{
    let ghost views = rejection_views(rejections@);
    let head = plus(
        plus("layer config asks for ".to_string(), dec(rejections.len() as u64).as_str()),
        " thing(s) scxsim does not apply:\n",
    );
    let ghost start = head@;
    let mut out = head;
    let mut names = String::new();
    let mut waivable: usize = 0;
    let mut i: usize = 0;
    proof {
        assert(start + rejection_lines(views, 0) =~= start);
        assert(names@ =~= Seq::<char>::empty());
    }
    while i < rejections.len()
        invariant
            i <= rejections@.len(),
            views == rejection_views(rejections@),
            out@ == start + rejection_lines(views, i as nat),
            waivable <= i,
            waivable == waivable_count(views, i as nat),
            names@ == waivable_names(views, i as nat),
        decreases rejections@.len() - i,
    {
        let r = &rejections[i];
        let next = plus(plus(plus(out, "  "), r.text().as_str()), "\n");
        proof {
            let lines = rejection_lines(views, i as nat);
            assert(views[i as int] == r@);
            assert(start + lines + "  "@ + rejection_text(r@) + "\n"@ =~= start + (lines + "  "@
                + rejection_text(r@) + "\n"@));
        }
        out = next;
        if matches!(r.item.disposition(), Disposition::Refusable) {
            if waivable == 0 {
                names = r.item.json_name().to_string();
            } else {
                names = plus(plus(names, ","), r.item.json_name());
            }
            waivable = waivable + 1;
        }
        i = i + 1;
    }
    if waivable == 0 {
        plus(
            out,
            "None of these can be waived: dropping a match rule does not lose fidelity, it changes which tasks the layer captures.",
        )
    } else {
        let mut tail = plus(
            "Waivable with --layer-config-drop, accepting that they are NOT applied: ".to_string(),
            names.as_str(),
        );
        if waivable < rejections.len() {
            let rest = plus(
                plus(
                    ". The other ".to_string(),
                    dec((rejections.len() - waivable) as u64).as_str(),
                ),
                " cannot be waived — dropping a match rule changes which tasks the layer captures.",
            );
            tail = plus(tail, rest.as_str());
        } else {
            proof {
                assert(tail@ + Seq::<char>::empty() =~= tail@);
            }
        }
        plus(out, tail.as_str())
    }
}

impl LayerConfigError {
    /// What the error says.
    pub fn text(&self) -> (r: String)
        ensures
            r@ == error_text(self@),
    {
        match self {
            LayerConfigError::UnknownKeys(keys) => say_unknown(keys),
            LayerConfigError::Invalid(m) => plus("invalid layer config: ".to_string(), m.as_str()),
            LayerConfigError::Unsupported(r) => say_unsupported(r),
            LayerConfigError::Both { unknown, unsupported } => plus(
                plus(say_unknown(unknown), "\n"),
                say_unsupported(unsupported).as_str(),
            ),
        }
    }
}

/// What is known of the machine and the scheduler, and what the caller decided.
pub struct LayerConfigOptions {
    pub nr_cpus: u32,
    pub max_layers: usize,
    /// How many groups of rules a layer can have.
    pub max_match_ors: usize,
    /// How many rules a group can have.
    pub max_match_ands: usize,
    pub weight_range: (u32, u32),
    /// The weight of a layer that sets none.
    pub default_weight: u32,
    pub nr_nodes: u32,
    /// How many bytes of a task's name can be compared.
    pub max_comm: usize,
    /// How many bytes of a cgroup's path can be compared.
    pub max_path: usize,
    /// The slice of a layer that sets none.
    pub default_slice_ns: TimeNs,
    /// The kernel's own slice.
    pub scx_slice_dfl_ns: TimeNs,
    /// What the caller accepts losing.
    pub waived: Vec<Unsupported>,
}

/// Whether a name is one of an item that can be waived.
pub open spec fn can_waive(name: Seq<char>) -> bool {
    item_named(name, 0) is Some && item_disposition(item_named(name, 0)->0) is Refusable
}

/// Why a name cannot be waived.
pub open spec fn no_waiver_text(name: Seq<char>) -> Seq<char> {
    match item_named(name, 0) {
        Some(u) => name + ": not waivable — "@ + (if item_disposition(u) is Fatal {
            "dropping a match rule changes which tasks the layer captures"@
        } else {
            "scx_layered ignores it too, so there is nothing to waive"@
        }),
        None => name + ": not a refusable scx_layered config field"@,
    }
}

/// What is waived once the first `n` names are.
pub open spec fn waived_after(waived: Seq<Unsupported>, names: Seq<String>, n: nat) -> Seq<
    Unsupported,
>
    decreases n,
{
    if n == 0 {
        waived
    } else {
        let before = waived_after(waived, names, (n - 1) as nat);
        let name = names[n - 1]@;
        if can_waive(name) && !before.contains(item_named(name, 0)->0) {
            before.push(item_named(name, 0)->0)
        } else {
            before
        }
    }
}

/// What is said of those of the first `n` names that cannot be waived.
pub open spec fn not_waived(names: Seq<String>, n: nat) -> Seq<Seq<char>>
    decreases n,
{
    if n == 0 {
        Seq::empty()
    } else {
        let before = not_waived(names, (n - 1) as nat);
        let name = names[n - 1]@;
        if can_waive(name) {
            before
        } else {
            before.push(no_waiver_text(name))
        }
    }
}

impl LayerConfigOptions {
    /// Whether the options make sense.
    pub open spec fn ok(self) -> bool {
        self.nr_nodes > 0 && self.weight_range.0 <= self.weight_range.1
    }

    /// The options of a scheduler built with the usual limits.
    pub fn new(nr_cpus: u32) -> (r: LayerConfigOptions)
        ensures
            r.ok(),
            r.nr_cpus == nr_cpus,
            r.max_layers == 16,
            r.max_match_ors == 32,
            r.max_match_ands == 26,
            r.weight_range == (1u32, 10_000u32),
            r.default_weight == DEFAULT_LAYER_WEIGHT,
            r.nr_nodes == 1,
            r.max_comm == 16,
            r.max_path == 4096,
            r.default_slice_ns == 20_000_000,
            r.scx_slice_dfl_ns == 20_000_000,
            r.waived@ == Seq::<Unsupported>::empty(),
    {
        LayerConfigOptions {
            nr_cpus,
            max_layers: 16,
            max_match_ors: 32,
            max_match_ands: 26,
            weight_range: (1, 10_000),
            default_weight: DEFAULT_LAYER_WEIGHT,
            nr_nodes: 1,
            max_comm: 16,
            max_path: 4096,
            default_slice_ns: 20_000_000,
            scx_slice_dfl_ns: 20_000_000,
            waived: Vec::new(),
        }
    }

    /// Whether an item is waived.
    pub fn is_waived(&self, item: Unsupported) -> (r: bool)
        ensures
            r == self.waived@.contains(item),
    {
        let mut i: usize = 0;
        while i < self.waived.len()
            invariant
                i <= self.waived@.len(),
                forall|k: int| 0 <= k < i ==> self.waived@[k] != item,
            decreases self.waived@.len() - i,
        {
            if self.waived[i] == item {
                proof {
                    assert(self.waived@[i as int] == item);
                }
                return true;
            }
            i = i + 1;
        }
        false
    }

    /// Accepts losing the items named. Says which names cannot be waived, and
    /// why; the others are waived all the same.
    pub fn waive(&mut self, names: &Vec<String>) -> (r: Result<(), Vec<String>>)
        ensures
            final(self).waived@ == waived_after(old(self).waived@, names@, names@.len()),
            *final(self) == (LayerConfigOptions { waived: final(self).waived, ..*old(self) }),
            r is Ok <==> not_waived(names@, names@.len()).len() == 0,
            r is Err ==> text_views(r->Err_0@) == not_waived(names@, names@.len()),
    {
        let ghost before = self.waived@;
        let ghost start = *self;
        let mut bad: Vec<String> = Vec::new();
        let mut i: usize = 0;
        proof {
            assert(text_views(bad@) =~= Seq::<Seq<char>>::empty());
        }
        while i < names.len()
            invariant
                i <= names@.len(),
                self.waived@ == waived_after(before, names@, i as nat),
                *self == (LayerConfigOptions { waived: self.waived, ..start }),
                text_views(bad@) == not_waived(names@, i as nat),
            decreases names@.len() - i,
        {
            let name = names[i].as_str();
            let ghost bad_before = bad@;
            match Unsupported::from_json_name(name) {
                Some(u) => match u.disposition() {
                    Disposition::Refusable => {
                        if !self.is_waived(u) {
                            self.waived.push(u);
                        }
                    },
                    Disposition::Fatal => {
                        bad.push(
                            plus(
                                plus(name.to_string(), ": not waivable — "),
                                "dropping a match rule changes which tasks the layer captures",
                            ),
                        );
                    },
                    Disposition::DeprecatedUpstream => {
                        bad.push(
                            plus(
                                plus(name.to_string(), ": not waivable — "),
                                "scx_layered ignores it too, so there is nothing to waive",
                            ),
                        );
                    },
                },
                None => {
                    bad.push(
                        plus(name.to_string(), ": not a refusable scx_layered config field"),
                    );
                },
            }
            proof {
                if !can_waive(names@[i as int]@) {
                    assert(text_views(bad@) =~= text_views(bad_before).push(
                        no_waiver_text(names@[i as int]@),
                    ));
                }
            }
            i = i + 1;
        }
        proof {
            assert(text_views(bad@).len() == bad@.len());
        }
        if bad.len() == 0 {
            Ok(())
        } else {
            Err(bad)
        }
    }
}

/// Only what can be refused can be waived: whatever the names, an item that is
/// waived afterwards was waived before or is one that can be.
pub proof fn law_only_refusable_items_are_waived(
    waived: Seq<Unsupported>,
    names: Seq<String>,
    n: nat,
    item: Unsupported,
)
    requires
        n <= names.len(),
        waived_after(waived, names, n).contains(item),
    ensures
        waived.contains(item) || item_disposition(item) is Refusable,
    decreases n,
{
    if n > 0 {
        let before = waived_after(waived, names, (n - 1) as nat);
        let after = waived_after(waived, names, n);
        let i = choose|i: int| 0 <= i < after.len() && after[i] == item;
        if i < before.len() {
            assert(before[i] == item);
            assert(before.contains(item));
            law_only_refusable_items_are_waived(waived, names, (n - 1) as nat, item);
        }
    }
}

/// A layer as a configuration writes it.
pub struct LayerSpecJson {
    pub name: String,
    /// Whether the layer is a template for others.
    pub template: bool,
    pub matches: Vec<Vec<LayerMatchJson>>,
    pub kind: LayerKindJson,
}

/// A rule as a configuration writes it. Of rules that cannot be applied nothing
/// but the kind is kept.
pub enum LayerMatchJson {
    CgroupPrefix(String),
    CgroupSuffix(String),
    CgroupContains(String),
    CommPrefix(String),
    CommPrefixExclude(String),
    PcommPrefix(String),
    PcommPrefixExclude(String),
    NiceAbove(i32),
    NiceBelow(i32),
    NiceEquals(i32),
    UIDEquals(u32),
    GIDEquals(u32),
    PIDEquals(u32),
    PPIDEquals(u32),
    TGIDEquals(u32),
    IsGroupLeader(bool),
    IsKthread(bool),
    NumaNode(u32),
    AvgRuntime(u64, u64),
    CgroupRegex,
    NSPIDEquals,
    NSEquals,
    CmdJoin,
    UsedGpuTid,
    UsedGpuPid,
    HintEquals,
    SystemCpuUtilBelow,
    DsqInsertBelow,
}

/// A kind of layer as a configuration writes it.
pub enum LayerKindJson {
    Confined(ConfinedJson),
    Grouped(GroupedJson),
    Open(CommonJson),
}

/// A range of CPUs as fractions of the machine.
pub struct FracRange {
    pub low: Double,
    pub high: Double,
    /// The fractions as they are shown.
    pub shown: String,
    /// The fractions of the machine, rounded to the nearest CPU.
    pub low_cpus: usize,
    pub high_cpus: usize,
}

/// What only a confined layer has.
pub struct ConfinedJson {
    pub util_range: (Double, Double),
    pub cpus_range: Option<(usize, usize)>,
    pub cpus_range_frac: Option<FracRange>,
    /// Whether a memory bandwidth is set.
    pub membw_gb: bool,
    pub protected: bool,
    pub common: CommonJson,
}

/// What only a grouped layer has.
pub struct GroupedJson {
    pub util_range: (Double, Double),
    pub util_includes_open_cputime: bool,
    pub cpus_range: Option<(usize, usize)>,
    pub cpus_range_frac: Option<FracRange>,
    /// Whether a memory bandwidth is set.
    pub membw_gb: bool,
    pub protected: bool,
    pub idle_confined: bool,
    pub common: CommonJson,
}

/// What every layer has.
pub struct CommonJson {
    pub min_exec_us: u64,
    pub yield_ignore: Double,
    pub slice_us: u64,
    pub fifo: bool,
    pub preempt: bool,
    pub preempt_first: bool,
    pub exclusive: bool,
    pub allow_node_aligned: Option<bool>,
    pub skip_remote_node: bool,
    pub prev_over_idle_core: bool,
    pub weight: u32,
    pub disallow_open_after_us: Option<u64>,
    pub disallow_preempt_after_us: Option<u64>,
    /// The least time between migrations, in nanoseconds.
    pub xllc_mig_min_ns: TimeNs,
    pub idle_smt: Option<bool>,
    pub growth_algo: Option<LayerGrowthAlgo>,
    pub util_peak_half_life_ms: Option<u64>,
    pub perf: Option<u64>,
    pub idle_resume_us: Option<u32>,
    pub nodes: Vec<usize>,
    pub llcs: Vec<usize>,
    pub placement: Option<LayerPlacement>,
    pub member_expire_ms: u64,
    pub xnuma_threshold: Option<(Double, Double)>,
    pub xnuma_threshold_delta: Option<(Double, Double)>,
    /// Keys that none of the fields above claims.
    pub unknown: Vec<String>,
}

impl LayerKindJson {
    /// What every layer has.
    pub open spec fn spec_common(self) -> CommonJson {
        match self {
            LayerKindJson::Confined(c) => c.common,
            LayerKindJson::Grouped(g) => g.common,
            LayerKindJson::Open(o) => o,
        }
    }

    /// What every layer has.
    pub fn common(&self) -> (r: &CommonJson)
        ensures
            *r == self.spec_common(),
    {
        match self {
            LayerKindJson::Confined(c) => &c.common,
            LayerKindJson::Grouped(g) => &g.common,
            LayerKindJson::Open(o) => o,
        }
    }

    /// The name of the kind.
    pub open spec fn spec_name(self) -> Seq<char> {
        match self {
            LayerKindJson::Confined(_) => "Confined"@,
            LayerKindJson::Grouped(_) => "Grouped"@,
            LayerKindJson::Open(_) => "Open"@,
        }
    }

    /// The name of the kind.
    pub fn name(&self) -> (r: &'static str)
        ensures
            r@ == self.spec_name(),
    {
        match self {
            LayerKindJson::Confined(_) => "Confined",
            LayerKindJson::Grouped(_) => "Grouped",
            LayerKindJson::Open(_) => "Open",
        }
    }

    /// The kind of layer this is.
    pub open spec fn spec_kind(self) -> LayerKind {
        match self {
            LayerKindJson::Confined(_) => LayerKind::Confined,
            LayerKindJson::Grouped(_) => LayerKind::Grouped,
            LayerKindJson::Open(_) => LayerKind::Open,
        }
    }
}

/// Where a layer stands in its configuration.
pub open spec fn layer_site(index: nat, name: Seq<char>) -> Seq<char> {
    "layers["@ + decimal(index) + "] "@ + shown_quoted(name)
}

fn site_of(index: usize, name: &str) -> (r: String)
    ensures
        r@ == layer_site(index as nat, name@),
{
    plus(
        plus(plus("layers[".to_string(), dec(index as u64).as_str()), "] "),
        quoted(name).as_str(),
    )
}

/// Where a rule stands in its configuration.
pub open spec fn match_site(site: Seq<char>, or_id: nat, and_id: nat) -> Seq<char> {
    site + " matches["@ + decimal(or_id) + "]["@ + decimal(and_id) + "]"@
}

fn match_site_of(site: &str, or_id: usize, and_id: usize) -> (r: String)
    ensures
        r@ == match_site(site@, or_id as nat, and_id as nat),
{
    plus(
        plus(
            plus(
                plus(plus(site.to_string(), " matches["), dec(or_id as u64).as_str()),
                "][",
            ),
            dec(and_id as u64).as_str(),
        ),
        "]",
    )
}

/// How many bytes a text takes.
pub open spec fn byte_len(s: Seq<char>) -> nat {
    (vstd::utf8::encode_utf8(s).len() as usize) as nat
}

/// What is wrong with the text that a rule looks for.
pub open spec fn needle_error(what: Seq<char>, s: Seq<char>, max: usize) -> Option<Seq<char>> {
    if s.contains('\0') {
        Some(
            what
                + " needle contains a NUL byte, which cannot cross the C boundary into struct layer_match"@,
        )
    } else if byte_len(s) > max {
        Some(
            what + " needle is "@ + decimal(byte_len(s))
                + " bytes, but the scheduler's buffer holds "@ + decimal(max as nat)
                + "; the wrapper would truncate it and the rule would match far more tasks than it names"@,
        )
    } else {
        None
    }
}

/// What is wrong with a rule.
pub open spec fn match_error(m: LayerMatchJson, opts: LayerConfigOptions) -> Option<Seq<char>> {
    match m {
        LayerMatchJson::CgroupPrefix(v) => needle_error("CgroupPrefix"@, v@, opts.max_path),
        LayerMatchJson::CgroupSuffix(v) => needle_error("CgroupSuffix"@, v@, opts.max_path),
        LayerMatchJson::CgroupContains(v) => needle_error("CgroupContains"@, v@, opts.max_path),
        LayerMatchJson::CommPrefix(v) => needle_error("CommPrefix"@, v@, opts.max_comm),
        LayerMatchJson::CommPrefixExclude(v) => needle_error("CommPrefix"@, v@, opts.max_comm),
        LayerMatchJson::PcommPrefix(v) => needle_error("PcommPrefix"@, v@, opts.max_comm),
        LayerMatchJson::PcommPrefixExclude(v) => needle_error("PcommPrefix"@, v@, opts.max_comm),
        LayerMatchJson::NumaNode(n) => if n >= opts.nr_nodes {
            Some(
                "NumaNode("@ + decimal(n as nat) + "), but the scheduler was given "@ + decimal(
                    opts.nr_nodes as nat,
                ) + " node(s) (0-"@ + decimal((opts.nr_nodes - 1) as nat) + ")"@,
            )
        } else {
            None
        },
        _ => None,
    }
}

/// Whether a possible text is another.
pub open spec fn same_note(r: Option<String>, s: Option<Seq<char>>) -> bool {
    match r {
        Some(t) => s == Some(t@),
        None => s is None,
    }
}

fn check_needle(what: &str, s: &String, max: usize) -> (r: Option<String>)
    ensures
        same_note(r, needle_error(what@, s@, max)),
{
    if contains_char(s.as_str(), '\0') {
        return Some(
            plus(
                what.to_string(),
                " needle contains a NUL byte, which cannot cross the C boundary into struct layer_match",
            ),
        );
    }
    let len = s.as_str().len();
    if len > max {
        return Some(
            plus(
                plus(
                    plus(
                        plus(
                            plus(what.to_string(), " needle is "),
                            dec(len as u64).as_str(),
                        ),
                        " bytes, but the scheduler's buffer holds ",
                    ),
                    dec(max as u64).as_str(),
                ),
                "; the wrapper would truncate it and the rule would match far more tasks than it names",
            ),
        );
    }
    None
}

fn check_match(m: &LayerMatchJson, opts: &LayerConfigOptions) -> (r: Option<String>)
    requires
        opts.ok(),
    ensures
        same_note(r, match_error(*m, *opts)),
{
    match m {
        LayerMatchJson::CgroupPrefix(v) => check_needle("CgroupPrefix", v, opts.max_path),
        LayerMatchJson::CgroupSuffix(v) => check_needle("CgroupSuffix", v, opts.max_path),
        LayerMatchJson::CgroupContains(v) => check_needle("CgroupContains", v, opts.max_path),
        LayerMatchJson::CommPrefix(v) => check_needle("CommPrefix", v, opts.max_comm),
        LayerMatchJson::CommPrefixExclude(v) => check_needle("CommPrefix", v, opts.max_comm),
        LayerMatchJson::PcommPrefix(v) => check_needle("PcommPrefix", v, opts.max_comm),
        LayerMatchJson::PcommPrefixExclude(v) => check_needle("PcommPrefix", v, opts.max_comm),
        LayerMatchJson::NumaNode(n) => if *n >= opts.nr_nodes {
            Some(
                plus(
                    plus(
                        plus(
                            plus(
                                plus(
                                    plus("NumaNode(".to_string(), dec(*n as u64).as_str()),
                                    "), but the scheduler was given ",
                                ),
                                dec(opts.nr_nodes as u64).as_str(),
                            ),
                            " node(s) (0-",
                        ),
                        dec((opts.nr_nodes - 1) as u64).as_str(),
                    ),
                    ")",
                ),
            )
        } else {
            None
        },
        _ => None,
    }
}

/// The range of CPUs that a layer gives as numbers and as fractions.
pub open spec fn ranges_of(kind: LayerKindJson) -> (Option<(usize, usize)>, Option<FracRange>) {
    match kind {
        LayerKindJson::Confined(c) => (c.cpus_range, c.cpus_range_frac),
        LayerKindJson::Grouped(g) => (g.cpus_range, g.cpus_range_frac),
        LayerKindJson::Open(_) => (None, None),
    }
}

/// Whether a number lies between 0 and 1.
pub open spec fn is_fraction(d: Double) -> bool {
    Double::spec_zero().le(d) && d.le(Double::spec_one())
}

/// What is wrong with the ranges that a layer gives.
pub open spec fn kind_error(kind: LayerKindJson) -> Option<Seq<char>> {
    let (range, frac) = ranges_of(kind);
    if range is Some && frac is Some {
        Some("cpus_range cannot be used with cpus_range_frac"@)
    } else if frac is Some && !(is_fraction((frac->0).low) && is_fraction((frac->0).high)) {
        Some("cpus_range_frac values must be between 0.0 and 1.0, got "@ + (frac->0).shown@)
    } else {
        None
    }
}

fn check_ranges(range: &Option<(usize, usize)>, frac: &Option<FracRange>) -> (r: Option<String>)
    ensures
        same_note(
            r,
            if range is Some && frac is Some {
                Some("cpus_range cannot be used with cpus_range_frac"@)
            } else if frac is Some && !(is_fraction((frac->0).low) && is_fraction(
                (frac->0).high,
            )) {
                Some(
                    "cpus_range_frac values must be between 0.0 and 1.0, got "@ + (
                    frac->0).shown@,
                )
            } else {
                None
            },
        ),
{
    if range.is_some() && frac.is_some() {
        return Some("cpus_range cannot be used with cpus_range_frac".to_string());
    }
    match frac {
        Some(f) => {
            let zero = Double(0);
            let one = Double(0x3FF0_0000_0000_0000);
            let good = zero.is_at_most(f.low) && f.low.is_at_most(one) && zero.is_at_most(f.high)
                && f.high.is_at_most(one);
            if !good {
                return Some(
                    plus(
                        "cpus_range_frac values must be between 0.0 and 1.0, got ".to_string(),
                        f.shown.as_str(),
                    ),
                );
            }
            None
        },
        None => None,
    }
}

fn check_kind(kind: &LayerKindJson) -> (r: Option<String>)
    ensures
        same_note(r, kind_error(*kind)),
{
    match kind {
        LayerKindJson::Confined(c) => check_ranges(&c.cpus_range, &c.cpus_range_frac),
        LayerKindJson::Grouped(g) => check_ranges(&g.cpus_range, &g.cpus_range_frac),
        LayerKindJson::Open(_) => None,
    }
}

/// What is wrong with a time in microseconds.
pub open spec fn scale_error(what: Seq<char>, us: u64) -> Option<Seq<char>> {
    if us * 1000 > u64::MAX {
        Some(what + " = "@ + decimal(us as nat) + "us overflows when scaled to nanoseconds"@)
    } else {
        None
    }
}

/// What is wrong with a time after which something is disallowed. The greatest
/// number stands for never.
pub open spec fn after_error(what: Seq<char>, us: Option<u64>) -> Option<Seq<char>> {
    if us is Some && us->0 != u64::MAX {
        scale_error(what, us->0)
    } else {
        None
    }
}

/// The first of two.
pub open spec fn either(a: Option<Seq<char>>, b: Option<Seq<char>>) -> Option<Seq<char>> {
    if a is Some {
        a
    } else {
        b
    }
}

/// What is wrong with what every layer has.
pub open spec fn common_error(c: CommonJson, opts: LayerConfigOptions) -> Option<Seq<char>> {
    either(
        scale_error("min_exec_us"@, c.min_exec_us),
        either(
            scale_error("slice_us"@, c.slice_us),
            either(
                after_error("disallow_open_after_us"@, c.disallow_open_after_us),
                either(
                    after_error("disallow_preempt_after_us"@, c.disallow_preempt_after_us),
                    if opts.scx_slice_dfl_ns * 4 > u64::MAX {
                        Some("SCX_SLICE_DFL overflows when scaled for the disallow defaults"@)
                    } else {
                        None
                    },
                ),
            ),
        ),
    )
}

fn check_scale(what: &str, us: u64) -> (r: Option<String>)
    ensures
        same_note(r, scale_error(what@, us)),
{
    match us.checked_mul(1000) {
        Some(_) => None,
        None => Some(
            plus(
                plus(plus(what.to_string(), " = "), dec(us).as_str()),
                "us overflows when scaled to nanoseconds",
            ),
        ),
    }
}

fn check_after(what: &str, us: Option<u64>) -> (r: Option<String>)
    ensures
        same_note(r, after_error(what@, us)),
{
    match us {
        Some(us) => if us != u64::MAX {
            check_scale(what, us)
        } else {
            None
        },
        None => None,
    }
}

fn check_common(c: &CommonJson, opts: &LayerConfigOptions) -> (r: Option<String>)
    ensures
        same_note(r, common_error(*c, *opts)),
{
    let e = check_scale("min_exec_us", c.min_exec_us);
    if e.is_some() {
        return e;
    }
    let e = check_scale("slice_us", c.slice_us);
    if e.is_some() {
        return e;
    }
    let e = check_after("disallow_open_after_us", c.disallow_open_after_us);
    if e.is_some() {
        return e;
    }
    let e = check_after("disallow_preempt_after_us", c.disallow_preempt_after_us);
    if e.is_some() {
        return e;
    }
    if opts.scx_slice_dfl_ns.checked_mul(4).is_none() {
        return Some("SCX_SLICE_DFL overflows when scaled for the disallow defaults".to_string());
    }
    None
}

/// What is wrong with a group's rules from `from` on.
pub open spec fn ands_error(
    ands: Seq<LayerMatchJson>,
    site: Seq<char>,
    or_id: nat,
    opts: LayerConfigOptions,
    from: int,
) -> Option<Seq<char>>
    decreases ands.len() - from,
{
    if from < 0 || from >= ands.len() {
        None
    } else {
        match match_error(ands[from], opts) {
            Some(why) => Some(match_site(site, or_id, from as nat) + ": "@ + why),
            None => ands_error(ands, site, or_id, opts, from + 1),
        }
    }
}

/// What is wrong with a layer's groups of rules from `from` on.
pub open spec fn ors_error(
    ors: Seq<Vec<LayerMatchJson>>,
    site: Seq<char>,
    opts: LayerConfigOptions,
    from: int,
) -> Option<Seq<char>>
    decreases ors.len() - from,
{
    if from < 0 || from >= ors.len() {
        None
    } else if ors[from]@.len() > opts.max_match_ands {
        Some(
            site + " OR group "@ + decimal(from as nat) + " has "@ + decimal(ors[from]@.len())
                + " AND terms, but a group holds at most NR_LAYER_MATCH_KINDS="@ + decimal(
                opts.max_match_ands as nat,
            ),
        )
    } else {
        match ands_error(ors[from]@, site, from as nat, opts, 0) {
            Some(e) => Some(e),
            None => ors_error(ors, site, opts, from + 1),
        }
    }
}

/// A text with where it belongs before it.
pub open spec fn at_site(site: Seq<char>, why: Option<Seq<char>>) -> Option<Seq<char>> {
    match why {
        Some(w) => Some(site + ": "@ + w),
        None => None,
    }
}

/// What is wrong with the shape of a layer's rules.
pub open spec fn catch_all_error(spec: LayerSpecJson, site: Seq<char>, is_last: bool) -> Option<
    Seq<char>,
> {
    if !is_last {
        if spec.matches@.len() == 0 {
            Some(
                site
                    + " is not the last layer but has no matches; only the last layer may be the catch-all"@,
            )
        } else {
            None
        }
    } else if spec.matches@.len() != 1 || spec.matches@[0]@.len() != 0 {
        Some(
            site
                + " is the last layer, so it must be the catch-all (\"matches\": [[]]). scx_layered treats a task that matches no layer as a fatal error, so the last layer has to accept every task."@,
        )
    } else {
        None
    }
}

/// What is wrong with a layer.
pub open spec fn layer_error(
    spec: LayerSpecJson,
    index: nat,
    is_last: bool,
    opts: LayerConfigOptions,
) -> Option<Seq<char>> {
    let site = layer_site(index, spec.name@);
    either(
        catch_all_error(spec, site, is_last),
        either(
            if spec.matches@.len() > opts.max_match_ors {
                Some(
                    site + " has "@ + decimal(spec.matches@.len())
                        + " OR groups, but MAX_LAYER_MATCH_ORS="@ + decimal(
                        opts.max_match_ors as nat,
                    ),
                )
            } else {
                None
            },
            either(
                ors_error(spec.matches@, site, opts, 0),
                either(
                    at_site(site, kind_error(spec.kind)),
                    either(
                        at_site(site, common_error(spec.kind.spec_common(), opts)),
                        if spec.name@.contains('\0') {
                            Some(site + ": layer name contains a NUL byte"@)
                        } else {
                            None
                        },
                    ),
                ),
            ),
        ),
    )
}

/// What is wrong with the layers from `from` on.
pub open spec fn layers_error(
    specs: Seq<LayerSpecJson>,
    opts: LayerConfigOptions,
    from: int,
) -> Option<Seq<char>>
    decreases specs.len() - from,
{
    if from < 0 || from >= specs.len() {
        None
    } else {
        match layer_error(specs[from], from as nat, from == specs.len() - 1, opts) {
            Some(e) => Some(e),
            None => layers_error(specs, opts, from + 1),
        }
    }
}

/// What is wrong with a configuration; the first thing.
pub open spec fn shape_error(specs: Seq<LayerSpecJson>, opts: LayerConfigOptions) -> Option<
    Seq<char>,
> {
    if specs.len() == 0 {
        Some("no layer specs"@)
    } else if specs.len() > opts.max_layers {
        Some(
            decimal(specs.len()) + " layers, but scx_layered is built with MAX_LAYERS="@
                + decimal(opts.max_layers as nat),
        )
    } else {
        layers_error(specs, opts, 0)
    }
}

fn check_ors(ors: &Vec<Vec<LayerMatchJson>>, site: &str, opts: &LayerConfigOptions) -> (r: Option<
    String,
>)
    requires
        opts.ok(),
    ensures
        same_note(r, ors_error(ors@, site@, *opts, 0)),
{
    let mut i: usize = 0;
    while i < ors.len()
        invariant
            i <= ors@.len(),
            opts.ok(),
            ors_error(ors@, site@, *opts, 0) == ors_error(ors@, site@, *opts, i as int),
        decreases ors@.len() - i,
    {
        let ands = &ors[i];
        if ands.len() > opts.max_match_ands {
            return Some(
                plus(
                    plus(
                        plus(
                            plus(
                                plus(
                                    plus(site.to_string(), " OR group "),
                                    dec(i as u64).as_str(),
                                ),
                                " has ",
                            ),
                            dec(ands.len() as u64).as_str(),
                        ),
                        " AND terms, but a group holds at most NR_LAYER_MATCH_KINDS=",
                    ),
                    dec(opts.max_match_ands as u64).as_str(),
                ),
            );
        }
        let mut j: usize = 0;
        while j < ands.len()
            invariant
                i < ors@.len(),
                *ands == ors@[i as int],
                ands@.len() <= opts.max_match_ands,
                j <= ands@.len(),
                opts.ok(),
                ors_error(ors@, site@, *opts, 0) == ors_error(ors@, site@, *opts, i as int),
                ands_error(ands@, site@, i as nat, *opts, 0) == ands_error(
                    ands@,
                    site@,
                    i as nat,
                    *opts,
                    j as int,
                ),
            decreases ands@.len() - j,
        {
            match check_match(&ands[j], opts) {
                Some(why) => {
                    return Some(
                        plus(plus(match_site_of(site, i, j), ": "), why.as_str()),
                    );
                },
                None => {},
            }
            j = j + 1;
        }
        i = i + 1;
    }
    None
}

fn check_layer(spec: &LayerSpecJson, index: usize, is_last: bool, opts: &LayerConfigOptions) -> (r:
    Option<String>)
    requires
        opts.ok(),
    ensures
        same_note(r, layer_error(*spec, index as nat, is_last, *opts)),
{
    let site = site_of(index, spec.name.as_str());
    if !is_last {
        if spec.matches.len() == 0 {
            return Some(
                plus(
                    site,
                    " is not the last layer but has no matches; only the last layer may be the catch-all",
                ),
            );
        }
    } else if spec.matches.len() != 1 || spec.matches[0].len() != 0 {
        return Some(
            plus(
                site,
                " is the last layer, so it must be the catch-all (\"matches\": [[]]). scx_layered treats a task that matches no layer as a fatal error, so the last layer has to accept every task.",
            ),
        );
    }
    if spec.matches.len() > opts.max_match_ors {
        return Some(
            plus(
                plus(
                    plus(plus(site, " has "), dec(spec.matches.len() as u64).as_str()),
                    " OR groups, but MAX_LAYER_MATCH_ORS=",
                ),
                dec(opts.max_match_ors as u64).as_str(),
            ),
        );
    }
    let e = check_ors(&spec.matches, site.as_str(), opts);
    if e.is_some() {
        return e;
    }
    match check_kind(&spec.kind) {
        Some(why) => {
            return Some(plus(plus(site, ": "), why.as_str()));
        },
        None => {},
    }
    match check_common(spec.kind.common(), opts) {
        Some(why) => {
            return Some(plus(plus(site, ": "), why.as_str()));
        },
        None => {},
    }
    if contains_char(spec.name.as_str(), '\0') {
        return Some(plus(site, ": layer name contains a NUL byte"));
    }
    None
}

fn check_shape(specs: &Vec<LayerSpecJson>, opts: &LayerConfigOptions) -> (r: Option<String>)
    requires
        opts.ok(),
    ensures
        same_note(r, shape_error(specs@, *opts)),
{
    if specs.len() == 0 {
        return Some("no layer specs".to_string());
    }
    if specs.len() > opts.max_layers {
        return Some(
            plus(
                plus(
                    dec(specs.len() as u64),
                    " layers, but scx_layered is built with MAX_LAYERS=",
                ),
                dec(opts.max_layers as u64).as_str(),
            ),
        );
    }
    let mut i: usize = 0;
    while i < specs.len()
        invariant
            i <= specs@.len(),
            0 < specs@.len() <= opts.max_layers,
            opts.ok(),
            layers_error(specs@, *opts, 0) == layers_error(specs@, *opts, i as int),
        decreases specs@.len() - i,
    {
        let e = check_layer(&specs[i], i, i == specs.len() - 1, opts);
        if e.is_some() {
            return e;
        }
        i = i + 1;
    }
    None
}

/// What was found out while a configuration was lowered.
pub struct Findings {
    pub unknown_keys: Vec<String>,
    pub rejected: Vec<Rejection>,
    pub waived: Vec<Rejection>,
    pub deprecated: Vec<Rejection>,
    pub notes: Vec<String>,
}

/// Findings as contracts see them.
#[verifier::ext_equal]
pub struct FindingsView {
    pub unknown_keys: Seq<Seq<char>>,
    pub rejected: Seq<RejectionView>,
    pub waived: Seq<RejectionView>,
    pub deprecated: Seq<RejectionView>,
    pub notes: Seq<Seq<char>>,
}

impl View for Findings {
    type V = FindingsView;

    open spec fn view(&self) -> FindingsView {
        FindingsView {
            unknown_keys: text_views(self.unknown_keys@),
            rejected: rejection_views(self.rejected@),
            waived: rejection_views(self.waived@),
            deprecated: rejection_views(self.deprecated@),
            notes: text_views(self.notes@),
        }
    }
}

impl FindingsView {
    /// Nothing found.
    pub open spec fn nothing() -> FindingsView {
        FindingsView {
            unknown_keys: Seq::empty(),
            rejected: Seq::empty(),
            waived: Seq::empty(),
            deprecated: Seq::empty(),
            notes: Seq::empty(),
        }
    }

    /// With one more item that is not applied.
    pub open spec fn with_item(
        self,
        site: Seq<char>,
        item: Unsupported,
        waived: Seq<Unsupported>,
    ) -> FindingsView {
        let r = RejectionView { site, item };
        match item_disposition(item) {
            Disposition::DeprecatedUpstream => FindingsView {
                deprecated: self.deprecated.push(r),
                ..self
            },
            Disposition::Refusable => if waived.contains(item) {
                FindingsView { waived: self.waived.push(r), ..self }
            } else {
                FindingsView { rejected: self.rejected.push(r), ..self }
            },
            Disposition::Fatal => FindingsView { rejected: self.rejected.push(r), ..self },
        }
    }

    /// With one more item, if it is there.
    pub open spec fn with_item_if(
        self,
        present: bool,
        site: Seq<char>,
        item: Unsupported,
        waived: Seq<Unsupported>,
    ) -> FindingsView {
        if present {
            self.with_item(site, item, waived)
        } else {
            self
        }
    }

    /// With one more note.
    pub open spec fn with_note(self, note: Seq<char>) -> FindingsView {
        FindingsView { notes: self.notes.push(note), ..self }
    }

    /// With one more unknown key.
    pub open spec fn with_unknown(self, key: Seq<char>) -> FindingsView {
        FindingsView { unknown_keys: self.unknown_keys.push(key), ..self }
    }

    /// Whether an item was found at a site, on whatever list.
    pub open spec fn mentions(self, site: Seq<char>, item: Unsupported) -> bool {
        let r = RejectionView { site, item };
        self.rejected.contains(r) || self.waived.contains(r) || self.deprecated.contains(r)
    }
}

impl Findings {
    fn new() -> (r: Findings)
        ensures
            r@ == FindingsView::nothing(),
    {
        let r = Findings {
            unknown_keys: Vec::new(),
            rejected: Vec::new(),
            waived: Vec::new(),
            deprecated: Vec::new(),
            notes: Vec::new(),
        };
        proof {
            assert(r@ =~= FindingsView::nothing());
        }
        r
    }

    fn note(&mut self, site: &str, item: Unsupported, opts: &LayerConfigOptions)
        ensures
            final(self)@ == old(self)@.with_item(site@, item, opts.waived@),
    {
        let ghost before = *self;
        let r = Rejection { site: site.to_string(), item };
        let ghost rv = r@;
        match item.disposition() {
            Disposition::DeprecatedUpstream => {
                self.deprecated.push(r);
                proof {
                    assert(rejection_views(self.deprecated@) =~= rejection_views(
                        before.deprecated@,
                    ).push(rv));
                }
            },
            Disposition::Refusable => {
                if opts.is_waived(item) {
                    self.waived.push(r);
                    proof {
                        assert(rejection_views(self.waived@) =~= rejection_views(
                            before.waived@,
                        ).push(rv));
                    }
                } else {
                    self.rejected.push(r);
                    proof {
                        assert(rejection_views(self.rejected@) =~= rejection_views(
                            before.rejected@,
                        ).push(rv));
                    }
                }
            },
            Disposition::Fatal => {
                self.rejected.push(r);
                proof {
                    assert(rejection_views(self.rejected@) =~= rejection_views(
                        before.rejected@,
                    ).push(rv));
                }
            },
        }
    }

    fn note_if(&mut self, present: bool, site: &str, item: Unsupported, opts: &LayerConfigOptions)
        ensures
            final(self)@ == old(self)@.with_item_if(present, site@, item, opts.waived@),
    {
        if present {
            self.note(site, item, opts);
        }
    }

    fn add_note(&mut self, note: String)
        ensures
            final(self)@ == old(self)@.with_note(note@),
    {
        let ghost before = *self;
        self.notes.push(note);
        proof {
            assert(text_views(self.notes@) =~= text_views(before.notes@).push(note@));
        }
    }

    fn add_unknown(&mut self, key: String)
        ensures
            final(self)@ == old(self)@.with_unknown(key@),
    {
        let ghost before = *self;
        self.unknown_keys.push(key);
        proof {
            assert(text_views(self.unknown_keys@) =~= text_views(before.unknown_keys@).push(key@));
        }
    }
}

/// Nothing that is not applied is dropped quietly: it stands on one of the
/// lists. It is refused unless the scheduler ignores it too, or it can be waived
/// and was.
pub proof fn law_nothing_is_dropped_quietly(
    f: FindingsView,
    site: Seq<char>,
    item: Unsupported,
    waived: Seq<Unsupported>,
)
    ensures
        f.with_item(site, item, waived).mentions(site, item),
        item_disposition(item) is Fatal ==> f.with_item(site, item, waived).rejected.len()
            == f.rejected.len() + 1,
        item_disposition(item) is Refusable && !waived.contains(item) ==> f.with_item(
            site,
            item,
            waived,
        ).rejected.len() == f.rejected.len() + 1,
{
    let r = RejectionView { site, item };
    let g = f.with_item(site, item, waived);
    match item_disposition(item) {
        Disposition::DeprecatedUpstream => {
            assert(g.deprecated[f.deprecated.len() as int] == r);
        },
        Disposition::Refusable => {
            if waived.contains(item) {
                assert(g.waived[f.waived.len() as int] == r);
            } else {
                assert(g.rejected[f.rejected.len() as int] == r);
            }
        },
        Disposition::Fatal => {
            assert(g.rejected[f.rejected.len() as int] == r);
        },
    }
}

/// What a rule becomes, and what is refused of it.
pub open spec fn lowered_match(m: LayerMatchJson) -> Result<MatchView, Unsupported> {
    match m {
        LayerMatchJson::CgroupPrefix(s) => Ok(MatchView::CgroupPrefix(s@)),
        LayerMatchJson::CgroupSuffix(s) => Ok(MatchView::CgroupSuffix(s@)),
        LayerMatchJson::CgroupContains(s) => Ok(MatchView::CgroupContains(s@)),
        LayerMatchJson::CommPrefix(s) => Ok(MatchView::CommPrefix(s@)),
        LayerMatchJson::PcommPrefix(s) => Ok(MatchView::PcommPrefix(s@)),
        LayerMatchJson::CommPrefixExclude(s) => Ok(
            MatchView::Not(Box::new(MatchView::CommPrefix(s@))),
        ),
        LayerMatchJson::PcommPrefixExclude(s) => Ok(
            MatchView::Not(Box::new(MatchView::PcommPrefix(s@))),
        ),
        LayerMatchJson::NiceAbove(v) => Ok(MatchView::NiceAbove(v)),
        LayerMatchJson::NiceBelow(v) => Ok(MatchView::NiceBelow(v)),
        LayerMatchJson::NiceEquals(v) => Ok(MatchView::NiceEquals(v)),
        LayerMatchJson::UIDEquals(v) => Ok(MatchView::UserIdEquals(v)),
        LayerMatchJson::GIDEquals(v) => Ok(MatchView::GroupIdEquals(v)),
        LayerMatchJson::PIDEquals(v) => Ok(MatchView::PidEquals(v)),
        LayerMatchJson::PPIDEquals(v) => Ok(MatchView::PpidEquals(v)),
        LayerMatchJson::TGIDEquals(v) => Ok(MatchView::TgidEquals(v)),
        LayerMatchJson::IsGroupLeader(v) => Ok(MatchView::IsGroupLeader(v)),
        LayerMatchJson::IsKthread(v) => Ok(MatchView::IsKthread(v)),
        LayerMatchJson::NumaNode(v) => Ok(MatchView::NumaNode(v)),
        LayerMatchJson::AvgRuntime(lo, hi) => Ok(MatchView::AvgRuntime(lo, hi)),
        LayerMatchJson::CgroupRegex => Err(Unsupported::MatchCgroupRegex),
        LayerMatchJson::NSPIDEquals => Err(Unsupported::MatchNsPidEquals),
        LayerMatchJson::NSEquals => Err(Unsupported::MatchNsEquals),
        LayerMatchJson::CmdJoin => Err(Unsupported::MatchCmdJoin),
        LayerMatchJson::UsedGpuTid => Err(Unsupported::MatchUsedGpuTid),
        LayerMatchJson::UsedGpuPid => Err(Unsupported::MatchUsedGpuPid),
        LayerMatchJson::HintEquals => Err(Unsupported::MatchHintEquals),
        LayerMatchJson::SystemCpuUtilBelow => Err(Unsupported::MatchSystemCpuUtilBelow),
        LayerMatchJson::DsqInsertBelow => Err(Unsupported::MatchDsqInsertBelow),
    }
}

/// What is said of a rule that can never hold.
pub open spec fn dead_rule_text(site: Seq<char>, lo: u64, hi: u64) -> Seq<char> {
    site + ": AvgRuntime["@ + decimal(lo as nat) + "us, "@ + decimal(hi as nat)
        + "us) is empty, so this term can never match — scx_layered publishes it too, and it is dead there as well"@
}

/// What is found in a rule.
pub open spec fn match_findings(
    f: FindingsView,
    m: LayerMatchJson,
    site: Seq<char>,
    waived: Seq<Unsupported>,
) -> FindingsView {
    match lowered_match(m) {
        Ok(_) => match m {
            LayerMatchJson::AvgRuntime(lo, hi) => if lo >= hi {
                f.with_note(dead_rule_text(site, lo, hi))
            } else {
                f
            },
            _ => f,
        },
        Err(item) => f.with_item(site, item, waived),
    }
}

fn lower_match(
    m: &LayerMatchJson,
    site: &str,
    opts: &LayerConfigOptions,
    found: &mut Findings,
) -> (r: Option<LayerMatch>)
    ensures
        final(found)@ == match_findings(old(found)@, *m, site@, opts.waived@),
        match r {
            Some(l) => lowered_match(*m) == Ok::<MatchView, Unsupported>(l@),
            None => lowered_match(*m) is Err,
        },
{
    let refused: Unsupported;
    match m {
        LayerMatchJson::CgroupPrefix(s) => {
            return Some(LayerMatch::CgroupPrefix(s.clone()));
        },
        LayerMatchJson::CgroupSuffix(s) => {
            return Some(LayerMatch::CgroupSuffix(s.clone()));
        },
        LayerMatchJson::CgroupContains(s) => {
            return Some(LayerMatch::CgroupContains(s.clone()));
        },
        LayerMatchJson::CommPrefix(s) => {
            return Some(LayerMatch::CommPrefix(s.clone()));
        },
        LayerMatchJson::PcommPrefix(s) => {
            return Some(LayerMatch::PcommPrefix(s.clone()));
        },
        LayerMatchJson::CommPrefixExclude(s) => {
            proof {
                reveal_with_fuel(crate::layered::match_view, 2);
            }
            return Some(LayerMatch::Not(Box::new(LayerMatch::CommPrefix(s.clone()))));
        },
        LayerMatchJson::PcommPrefixExclude(s) => {
            proof {
                reveal_with_fuel(crate::layered::match_view, 2);
            }
            return Some(LayerMatch::Not(Box::new(LayerMatch::PcommPrefix(s.clone()))));
        },
        LayerMatchJson::NiceAbove(v) => {
            return Some(LayerMatch::NiceAbove(*v));
        },
        LayerMatchJson::NiceBelow(v) => {
            return Some(LayerMatch::NiceBelow(*v));
        },
        LayerMatchJson::NiceEquals(v) => {
            return Some(LayerMatch::NiceEquals(*v));
        },
        LayerMatchJson::UIDEquals(v) => {
            return Some(LayerMatch::UserIdEquals(*v));
        },
        LayerMatchJson::GIDEquals(v) => {
            return Some(LayerMatch::GroupIdEquals(*v));
        },
        LayerMatchJson::PIDEquals(v) => {
            return Some(LayerMatch::PidEquals(*v));
        },
        LayerMatchJson::PPIDEquals(v) => {
            return Some(LayerMatch::PpidEquals(*v));
        },
        LayerMatchJson::TGIDEquals(v) => {
            return Some(LayerMatch::TgidEquals(*v));
        },
        LayerMatchJson::IsGroupLeader(v) => {
            return Some(LayerMatch::IsGroupLeader(*v));
        },
        LayerMatchJson::IsKthread(v) => {
            return Some(LayerMatch::IsKthread(*v));
        },
        LayerMatchJson::NumaNode(v) => {
            return Some(LayerMatch::NumaNode(*v));
        },
        LayerMatchJson::AvgRuntime(lo, hi) => {
            if *lo >= *hi {
                found.add_note(
                    plus(
                        plus(
                            plus(
                                plus(
                                    plus(site.to_string(), ": AvgRuntime["),
                                    dec(*lo).as_str(),
                                ),
                                "us, ",
                            ),
                            dec(*hi).as_str(),
                        ),
                        "us) is empty, so this term can never match — scx_layered publishes it too, and it is dead there as well",
                    ),
                );
            }
            return Some(LayerMatch::AvgRuntime(*lo, *hi));
        },
        LayerMatchJson::CgroupRegex => {
            refused = Unsupported::MatchCgroupRegex;
        },
        LayerMatchJson::NSPIDEquals => {
            refused = Unsupported::MatchNsPidEquals;
        },
        LayerMatchJson::NSEquals => {
            refused = Unsupported::MatchNsEquals;
        },
        LayerMatchJson::CmdJoin => {
            refused = Unsupported::MatchCmdJoin;
        },
        LayerMatchJson::UsedGpuTid => {
            refused = Unsupported::MatchUsedGpuTid;
        },
        LayerMatchJson::UsedGpuPid => {
            refused = Unsupported::MatchUsedGpuPid;
        },
        LayerMatchJson::HintEquals => {
            refused = Unsupported::MatchHintEquals;
        },
        LayerMatchJson::SystemCpuUtilBelow => {
            refused = Unsupported::MatchSystemCpuUtilBelow;
        },
        LayerMatchJson::DsqInsertBelow => {
            refused = Unsupported::MatchDsqInsertBelow;
        },
    }
    found.note(site, refused, opts);
    None
}

/// What the first `n` rules of a group become. Those that are refused are left
/// out.
pub open spec fn lowered_ands(ands: Seq<LayerMatchJson>, n: nat) -> Seq<MatchView>
    decreases n,
{
    if n == 0 {
        Seq::empty()
    } else {
        match lowered_match(ands[n - 1]) {
            Ok(m) => lowered_ands(ands, (n - 1) as nat).push(m),
            Err(_) => lowered_ands(ands, (n - 1) as nat),
        }
    }
}

/// What is found in the first `n` rules of a group.
pub open spec fn ands_findings(
    f: FindingsView,
    ands: Seq<LayerMatchJson>,
    site: Seq<char>,
    or_id: nat,
    waived: Seq<Unsupported>,
    n: nat,
) -> FindingsView
    decreases n,
{
    if n == 0 {
        f
    } else {
        match_findings(
            ands_findings(f, ands, site, or_id, waived, (n - 1) as nat),
            ands[n - 1],
            match_site(site, or_id, (n - 1) as nat),
            waived,
        )
    }
}

/// What the first `n` groups of a layer become.
pub open spec fn lowered_ors(ors: Seq<Vec<LayerMatchJson>>, n: nat) -> Seq<Seq<MatchView>> {
    Seq::new(n, |i: int| lowered_ands(ors[i]@, ors[i]@.len()))
}

/// What is found in the first `n` groups of a layer.
pub open spec fn ors_findings(
    f: FindingsView,
    ors: Seq<Vec<LayerMatchJson>>,
    site: Seq<char>,
    waived: Seq<Unsupported>,
    n: nat,
) -> FindingsView
    decreases n,
{
    if n == 0 {
        f
    } else {
        ands_findings(
            ors_findings(f, ors, site, waived, (n - 1) as nat),
            ors[n - 1]@,
            site,
            (n - 1) as nat,
            waived,
            ors[n - 1]@.len(),
        )
    }
}

fn lower_ands(
    ands: &Vec<LayerMatchJson>,
    site: &str,
    or_id: usize,
    opts: &LayerConfigOptions,
    found: &mut Findings,
) -> (r: Vec<LayerMatch>)
    ensures
        final(found)@ == ands_findings(
            old(found)@,
            ands@,
            site@,
            or_id as nat,
            opts.waived@,
            ands@.len(),
        ),
        crate::layered::group_view(r) == lowered_ands(ands@, ands@.len()),
{
    let ghost start = found@;
    let mut out: Vec<LayerMatch> = Vec::new();
    let mut i: usize = 0;
    proof {
        assert(crate::layered::group_view(out) =~= Seq::<MatchView>::empty());
    }
    while i < ands.len()
        invariant
            i <= ands@.len(),
            found@ == ands_findings(start, ands@, site@, or_id as nat, opts.waived@, i as nat),
            crate::layered::group_view(out) == lowered_ands(ands@, i as nat),
        decreases ands@.len() - i,
    {
        let at = match_site_of(site, or_id, i);
        let ghost before = out;
        match lower_match(&ands[i], at.as_str(), opts, found) {
            Some(m) => {
                out.push(m);
                proof {
                    assert(crate::layered::group_view(out) =~= crate::layered::group_view(
                        before,
                    ).push(m@));
                }
            },
            None => {},
        }
        i = i + 1;
    }
    out
}

fn lower_ors(
    ors: &Vec<Vec<LayerMatchJson>>,
    site: &str,
    opts: &LayerConfigOptions,
    found: &mut Findings,
) -> (r: Vec<Vec<LayerMatch>>)
    ensures
        final(found)@ == ors_findings(old(found)@, ors@, site@, opts.waived@, ors@.len()),
        crate::layered::groups_view(r@) == lowered_ors(ors@, ors@.len()),
{
    let ghost start = found@;
    let mut out: Vec<Vec<LayerMatch>> = Vec::new();
    let mut i: usize = 0;
    proof {
        assert(crate::layered::groups_view(out@) =~= lowered_ors(ors@, 0));
    }
    while i < ors.len()
        invariant
            i <= ors@.len(),
            found@ == ors_findings(start, ors@, site@, opts.waived@, i as nat),
            crate::layered::groups_view(out@) == lowered_ors(ors@, i as nat),
        decreases ors@.len() - i,
    {
        let ghost before = out@;
        let ands = lower_ands(&ors[i], site, i, opts, found);
        let ghost view = crate::layered::group_view(ands);
        out.push(ands);
        proof {
            assert(crate::layered::groups_view(out@) =~= crate::layered::groups_view(before).push(
                view,
            ));
        }
        i = i + 1;
        proof {
            assert(crate::layered::groups_view(out@) =~= lowered_ors(ors@, i as nat));
        }
    }
    out
}

/// Whether some layer kind has a field of this name.
pub open spec fn is_kind_field(key: Seq<char>) -> bool {
    key == "util_range"@ || key == "cpus_range"@ || key == "cpus_range_frac"@ || key
        == "membw_gb"@ || key == "protected"@ || key == "util_includes_open_cputime"@ || key
        == "idle_confined"@
}

fn names_kind_field(key: &str) -> (r: bool)
    ensures
        r == is_kind_field(key@),
{
    same_text(key, "util_range") || same_text(key, "cpus_range") || same_text(
        key,
        "cpus_range_frac",
    ) || same_text(key, "membw_gb") || same_text(key, "protected") || same_text(
        key,
        "util_includes_open_cputime",
    ) || same_text(key, "idle_confined")
}

/// What is found in the first `n` keys that no field claims: a key that belongs
/// to another kind of layer is noted, another one is unknown.
pub open spec fn keys_findings(
    f: FindingsView,
    keys: Seq<String>,
    site: Seq<char>,
    kind_name: Seq<char>,
    n: nat,
) -> FindingsView
    decreases n,
{
    if n == 0 {
        f
    } else {
        let before = keys_findings(f, keys, site, kind_name, (n - 1) as nat);
        let key = keys[n - 1]@;
        if is_kind_field(key) {
            before.with_note(
                site + ": "@ + key + " is not a field of the "@ + kind_name
                    + " layer kind, so nothing applies it — scx_layered's serde drops it here too"@,
            )
        } else {
            before.with_unknown(site + ": "@ + key)
        }
    }
}

fn lower_keys(keys: &Vec<String>, site: &str, kind_name: &str, found: &mut Findings)
    ensures
        final(found)@ == keys_findings(old(found)@, keys@, site@, kind_name@, keys@.len()),
{
    let ghost start = found@;
    let mut i: usize = 0;
    while i < keys.len()
        invariant
            i <= keys@.len(),
            found@ == keys_findings(start, keys@, site@, kind_name@, i as nat),
        decreases keys@.len() - i,
    {
        let key = keys[i].as_str();
        let at = plus(plus(site.to_string(), ": "), key);
        if names_kind_field(key) {
            found.add_note(
                plus(
                    plus(plus(at, " is not a field of the "), kind_name),
                    " layer kind, so nothing applies it — scx_layered's serde drops it here too",
                ),
            );
        } else {
            found.add_unknown(at);
        }
        i = i + 1;
    }
}

/// What is found in what every layer has.
pub open spec fn common_findings(
    f: FindingsView,
    c: CommonJson,
    site: Seq<char>,
    kind_name: Seq<char>,
    waived: Seq<Unsupported>,
) -> FindingsView {
    keys_findings(f, c.unknown@, site, kind_name, c.unknown@.len()).with_item_if(
        c.growth_algo is Some && (c.growth_algo->0).spec_needs_cpusets(),
        site,
        Unsupported::GrowthCpuSetSpread,
        waived,
    ).with_item_if(
        c.growth_algo == Some(LayerGrowthAlgo::StickyDynamic),
        site,
        Unsupported::GrowthStickyDynamic,
        waived,
    ).with_item_if(
        c.idle_resume_us is Some && c.idle_resume_us->0 > 0,
        site,
        Unsupported::FieldIdleResumeUs,
        waived,
    ).with_item_if(
        c.util_peak_half_life_ms is Some && c.util_peak_half_life_ms->0 > 0,
        site,
        Unsupported::FieldUtilPeakHalfLifeMs,
        waived,
    ).with_item_if(
        c.allow_node_aligned is Some,
        site,
        Unsupported::FieldAllowNodeAligned,
        waived,
    ).with_item_if(c.idle_smt is Some, site, Unsupported::FieldIdleSmt, waived)
}

/// A time after which something is disallowed: the one given, in nanoseconds,
/// or a default. A layer that preempts never has one.
pub open spec fn disallow_after(preempt: bool, us: Option<u64>, default_ns: int) -> int {
    if preempt {
        DISALLOW_AFTER_NEVER as int
    } else {
        match us {
            Some(us) => if us == u64::MAX {
                DISALLOW_AFTER_NEVER as int
            } else {
                us * 1000
            },
            None => default_ns,
        }
    }
}

/// A weight brought into the scheduler's range.
pub open spec fn weight_in(w: u32, range: (u32, u32)) -> u32 {
    if w < range.0 {
        range.0
    } else if w > range.1 {
        range.1
    } else {
        w
    }
}

/// The least of a value and the greatest 32-bit number.
pub open spec fn capped(v: u64) -> u32 {
    if v > u32::MAX {
        u32::MAX
    } else {
        v as u32
    }
}

/// The level of performance asked for.
pub open spec fn perf_of(perf: Option<u64>) -> u32 {
    match perf {
        Some(p) => capped(p),
        None => 0,
    }
}

/// A growth algorithm, or the default where it is refused or not given.
pub open spec fn algo_or(algo: Option<LayerGrowthAlgo>, default: LayerGrowthAlgo) -> LayerGrowthAlgo {
    match algo {
        Some(a) => if a.spec_needs_cpusets() || a is StickyDynamic {
            default
        } else {
            a
        },
        None => default,
    }
}

/// A pair of ratios, or the default.
pub open spec fn ratios_or(r: Option<(Double, Double)>, a: u64, b: u64) -> (Double, Double) {
    match r {
        Some(t) => t,
        None => (Double(a), Double(b)),
    }
}

/// A placement, or the default.
pub open spec fn placement_or(p: Option<LayerPlacement>, default: LayerPlacement) -> LayerPlacement {
    match p {
        Some(p) => p,
        None => default,
    }
}

/// The weight of a layer.
pub open spec fn weight_of(weight: u32, opts: LayerConfigOptions) -> u32 {
    weight_in(
        if weight == 0 {
            opts.default_weight
        } else {
            weight
        },
        opts.weight_range,
    )
}

/// The slice of a layer.
pub open spec fn slice_of(slice_us: u64, opts: LayerConfigOptions) -> TimeNs {
    if slice_us == 0 {
        opts.default_slice_ns
    } else {
        (slice_us * 1000) as u64
    }
}

/// A layer with what every layer has.
pub open spec fn with_common(s: SpecView, c: CommonJson, opts: LayerConfigOptions) -> SpecView {
    SpecView {
        preempt: c.preempt,
        preempt_first: c.preempt_first,
        exclusive: c.exclusive,
        fifo: c.fifo,
        skip_remote_node: c.skip_remote_node,
        prev_over_idle_core: c.prev_over_idle_core,
        member_expire_ms: c.member_expire_ms,
        perf: perf_of(c.perf),
        min_exec_ns: (c.min_exec_us * 1000) as u64,
        xllc_mig_min_ns: c.xllc_mig_min_ns,
        nodes: c.nodes@,
        llcs: c.llcs@,
        growth_algo: algo_or(c.growth_algo, s.growth_algo),
        placement: placement_or(c.placement, s.placement),
        xnuma_threshold: ratios_or(c.xnuma_threshold, XNUMA_CLOSE, XNUMA_OPEN),
        xnuma_threshold_delta: ratios_or(
            c.xnuma_threshold_delta,
            XNUMA_DELTA_CLOSE,
            XNUMA_DELTA_OPEN,
        ),
        weight: weight_of(c.weight, opts),
        slice_ns: slice_of(c.slice_us, opts),
        yield_ignore: c.yield_ignore,
        disallow_open_after_ns: disallow_after(
            c.preempt,
            c.disallow_open_after_us,
            2 * opts.scx_slice_dfl_ns,
        ) as u64,
        disallow_preempt_after_ns: disallow_after(
            c.preempt,
            c.disallow_preempt_after_us,
            4 * opts.scx_slice_dfl_ns,
        ) as u64,
        ..s
    }
}

fn lower_after(preempt: bool, us: Option<u64>, default_ns: u64) -> (r: u64)
    requires
        us is Some && us->0 != u64::MAX ==> us->0 * 1000 <= u64::MAX,
    ensures
        r == disallow_after(preempt, us, default_ns as int),
{
    if preempt {
        return DISALLOW_AFTER_NEVER;
    }
    match us {
        Some(us) => if us == u64::MAX {
            DISALLOW_AFTER_NEVER
        } else {
            us * 1000
        },
        None => default_ns,
    }
}

fn copied(v: &Vec<usize>) -> (r: Vec<usize>)
    ensures
        r@ == v@,
{
    let mut out: Vec<usize> = Vec::new();
    let mut i: usize = 0;
    while i < v.len()
        invariant
            i <= v@.len(),
            out@ == v@.take(i as int),
        decreases v@.len() - i,
    {
        out.push(v[i]);
        i = i + 1;
        proof {
            assert(out@ =~= v@.take(i as int));
        }
    }
    proof {
        assert(out@ =~= v@);
    }
    out
}

fn note_common(
    c: &CommonJson,
    site: &str,
    kind_name: &str,
    opts: &LayerConfigOptions,
    found: &mut Findings,
)
    ensures
        final(found)@ == common_findings(old(found)@, *c, site@, kind_name@, opts.waived@),
{
    lower_keys(&c.unknown, site, kind_name, found);
    let (spreads, trades) = match c.growth_algo {
        Some(algo) => (
            algo.needs_cpusets(),
            matches!(algo, LayerGrowthAlgo::StickyDynamic),
        ),
        None => (false, false),
    };
    let resume = match c.idle_resume_us {
        Some(v) => v > 0,
        None => false,
    };
    let peak = match c.util_peak_half_life_ms {
        Some(v) => v > 0,
        None => false,
    };
    found.note_if(spreads, site, Unsupported::GrowthCpuSetSpread, opts);
    found.note_if(trades, site, Unsupported::GrowthStickyDynamic, opts);
    found.note_if(resume, site, Unsupported::FieldIdleResumeUs, opts);
    found.note_if(peak, site, Unsupported::FieldUtilPeakHalfLifeMs, opts);
    found.note_if(
        c.allow_node_aligned.is_some(),
        site,
        Unsupported::FieldAllowNodeAligned,
        opts,
    );
    found.note_if(c.idle_smt.is_some(), site, Unsupported::FieldIdleSmt, opts);
}

/// Whether every time of a layer can be scaled.
pub open spec fn times_fit(c: CommonJson, opts: LayerConfigOptions) -> bool {
    &&& c.min_exec_us * 1000 <= u64::MAX
    &&& c.slice_us * 1000 <= u64::MAX
    &&& c.disallow_open_after_us is Some && c.disallow_open_after_us->0 != u64::MAX
        ==> c.disallow_open_after_us->0 * 1000 <= u64::MAX
    &&& c.disallow_preempt_after_us is Some && c.disallow_preempt_after_us->0 != u64::MAX
        ==> c.disallow_preempt_after_us->0 * 1000 <= u64::MAX
    &&& opts.scx_slice_dfl_ns * 4 <= u64::MAX
}

proof fn lemma_times_fit(c: CommonJson, opts: LayerConfigOptions)
    requires
        common_error(c, opts) is None,
    ensures
        times_fit(c, opts),
{
}

fn lower_perf(perf: Option<u64>) -> (r: u32)
    ensures
        r == perf_of(perf),
{
    match perf {
        Some(p) => if p > u32::MAX as u64 {
            u32::MAX
        } else {
            p as u32
        },
        None => 0,
    }
}

fn lower_algo(algo: Option<LayerGrowthAlgo>, default: LayerGrowthAlgo) -> (r: LayerGrowthAlgo)
    ensures
        r == algo_or(algo, default),
{
    match algo {
        Some(a) => if a.needs_cpusets() || matches!(a, LayerGrowthAlgo::StickyDynamic) {
            default
        } else {
            a
        },
        None => default,
    }
}

fn lower_ratios(ratios: Option<(Double, Double)>, a: u64, b: u64) -> (r: (Double, Double))
    ensures
        r == ratios_or(ratios, a, b),
{
    match ratios {
        Some(t) => t,
        None => (Double(a), Double(b)),
    }
}

fn lower_placement(p: Option<LayerPlacement>, default: LayerPlacement) -> (r: LayerPlacement)
    ensures
        r == placement_or(p, default),
{
    match p {
        Some(p) => p,
        None => default,
    }
}

fn lower_weight(weight: u32, opts: &LayerConfigOptions) -> (r: u32)
    ensures
        r == weight_of(weight, *opts),
{
    let w = if weight == 0 {
        opts.default_weight
    } else {
        weight
    };
    if w < opts.weight_range.0 {
        opts.weight_range.0
    } else if w > opts.weight_range.1 {
        opts.weight_range.1
    } else {
        w
    }
}

fn lower_slice(slice_us: u64, opts: &LayerConfigOptions) -> (r: TimeNs)
    requires
        slice_us * 1000 <= u64::MAX,
    ensures
        r == slice_of(slice_us, *opts),
{
    if slice_us == 0 {
        opts.default_slice_ns
    } else {
        slice_us * 1000
    }
}

fn lower_common(c: &CommonJson, opts: &LayerConfigOptions, spec: LayerSpec) -> (r: LayerSpec)
    requires
        times_fit(*c, *opts),
    ensures
        r@ == with_common(spec@, *c, *opts),
{
    let disallow_open_after_ns = lower_after(
        c.preempt,
        c.disallow_open_after_us,
        2 * opts.scx_slice_dfl_ns,
    );
    let disallow_preempt_after_ns = lower_after(
        c.preempt,
        c.disallow_preempt_after_us,
        4 * opts.scx_slice_dfl_ns,
    );
    LayerSpec {
        preempt: c.preempt,
        preempt_first: c.preempt_first,
        exclusive: c.exclusive,
        fifo: c.fifo,
        skip_remote_node: c.skip_remote_node,
        prev_over_idle_core: c.prev_over_idle_core,
        member_expire_ms: c.member_expire_ms,
        perf: lower_perf(c.perf),
        min_exec_ns: c.min_exec_us * 1000,
        xllc_mig_min_ns: c.xllc_mig_min_ns,
        nodes: copied(&c.nodes),
        llcs: copied(&c.llcs),
        growth_algo: lower_algo(c.growth_algo, spec.growth_algo),
        placement: lower_placement(c.placement, spec.placement),
        xnuma_threshold: lower_ratios(c.xnuma_threshold, XNUMA_CLOSE, XNUMA_OPEN),
        xnuma_threshold_delta: lower_ratios(
            c.xnuma_threshold_delta,
            XNUMA_DELTA_CLOSE,
            XNUMA_DELTA_OPEN,
        ),
        weight: lower_weight(c.weight, opts),
        slice_ns: lower_slice(c.slice_us, opts),
        yield_ignore: c.yield_ignore,
        disallow_open_after_ns,
        disallow_preempt_after_ns,
        ..spec
    }
}

/// The greater of two numbers.
pub open spec fn greater(a: usize, b: usize) -> usize {
    if a > b {
        a
    } else {
        b
    }
}

/// The lesser of two numbers.
pub open spec fn lesser(a: usize, b: usize) -> usize {
    if a < b {
        a
    } else {
        b
    }
}

/// A range of CPUs: the numbers given, or the fractions of the machine, at
/// least one CPU and at most all of them.
pub open spec fn resolved_range(
    range: Option<(usize, usize)>,
    frac: Option<FracRange>,
    max_cpus: usize,
) -> Option<(usize, usize)> {
    match (range, frac) {
        (Some(r), _) => Some(r),
        (None, Some(f)) => Some(
            (greater(f.low_cpus, 1), lesser(greater(f.high_cpus, 1), max_cpus)),
        ),
        (None, None) => None,
    }
}

/// Reads a range of CPUs.
pub fn resolve_cpus_range(
    range: Option<(usize, usize)>,
    frac: &Option<FracRange>,
    max_cpus: usize,
) -> (r: Option<(usize, usize)>)
    ensures
        r == resolved_range(range, *frac, max_cpus),
{
    match range {
        Some(r) => Some(r),
        None => match frac {
            Some(f) => {
                let low = if f.low_cpus > 1 {
                    f.low_cpus
                } else {
                    1
                };
                let high = if f.high_cpus > 1 {
                    f.high_cpus
                } else {
                    1
                };
                Some(
                    (
                        low,
                        if high < max_cpus {
                            high
                        } else {
                            max_cpus
                        },
                    ),
                )
            },
            None => None,
        },
    }
}

/// A layer with what only its kind has.
pub open spec fn with_kind(s: SpecView, kind: LayerKindJson, nr_cpus: usize) -> SpecView {
    match kind {
        LayerKindJson::Confined(c) => SpecView {
            protected: c.protected,
            util_range: Some(c.util_range),
            cpus_range: resolved_range(c.cpus_range, c.cpus_range_frac, nr_cpus),
            ..s
        },
        LayerKindJson::Grouped(g) => SpecView {
            util_includes_open_cputime: g.util_includes_open_cputime,
            idle_confined: g.idle_confined,
            protected: g.protected,
            util_range: Some(g.util_range),
            cpus_range: resolved_range(g.cpus_range, g.cpus_range_frac, nr_cpus),
            ..s
        },
        LayerKindJson::Open(_) => SpecView {
            protected: false,
            util_range: None,
            cpus_range: None,
            ..s
        },
    }
}

/// Whether a layer sets a memory bandwidth.
pub open spec fn sets_membw(kind: LayerKindJson) -> bool {
    match kind {
        LayerKindJson::Confined(c) => c.membw_gb,
        LayerKindJson::Grouped(g) => g.membw_gb,
        LayerKindJson::Open(_) => false,
    }
}

fn lower_kind_specific(kind: &LayerKindJson, opts: &LayerConfigOptions, spec: LayerSpec) -> (r: (
    LayerSpec,
    bool,
))
    ensures
        r.0@ == with_kind(spec@, *kind, opts.nr_cpus as usize),
        r.1 == sets_membw(*kind),
{
    match kind {
        LayerKindJson::Confined(c) => {
            let cpus_range = resolve_cpus_range(
                c.cpus_range,
                &c.cpus_range_frac,
                opts.nr_cpus as usize,
            );
            (
                LayerSpec {
                    protected: c.protected,
                    util_range: Some(c.util_range),
                    cpus_range,
                    ..spec
                },
                c.membw_gb,
            )
        },
        LayerKindJson::Grouped(g) => {
            let cpus_range = resolve_cpus_range(
                g.cpus_range,
                &g.cpus_range_frac,
                opts.nr_cpus as usize,
            );
            (
                LayerSpec {
                    util_includes_open_cputime: g.util_includes_open_cputime,
                    idle_confined: g.idle_confined,
                    protected: g.protected,
                    util_range: Some(g.util_range),
                    cpus_range,
                    ..spec
                },
                g.membw_gb,
            )
        },
        LayerKindJson::Open(_) => (
            LayerSpec { protected: false, util_range: None, cpus_range: None, ..spec },
            false,
        ),
    }
}

/// What a layer becomes.
pub open spec fn lowered_spec(js: LayerSpecJson, opts: LayerConfigOptions) -> SpecView {
    SpecView {
        matches: lowered_ors(js.matches@, js.matches@.len()),
        ..with_kind(
            with_common(
                default_spec(js.name@, js.kind.spec_kind()),
                js.kind.spec_common(),
                opts,
            ),
            js.kind,
            opts.nr_cpus as usize,
        )
    }
}

/// What is found in a layer.
pub open spec fn spec_findings(
    f: FindingsView,
    js: LayerSpecJson,
    site: Seq<char>,
    opts: LayerConfigOptions,
) -> FindingsView {
    ors_findings(
        common_findings(
            f.with_item_if(js.template, site, Unsupported::FieldTemplate, opts.waived@),
            js.kind.spec_common(),
            site,
            js.kind.spec_name(),
            opts.waived@,
        ).with_item_if(sets_membw(js.kind), site, Unsupported::FieldMembwGb, opts.waived@),
        js.matches@,
        site,
        opts.waived@,
        js.matches@.len(),
    )
}

fn lower_spec(
    js: &LayerSpecJson,
    site: &str,
    opts: &LayerConfigOptions,
    found: &mut Findings,
) -> (r: LayerSpec)
    requires
        opts.ok(),
        common_error(js.kind.spec_common(), *opts) is None,
    ensures
        r@ == lowered_spec(*js, *opts),
        final(found)@ == spec_findings(old(found)@, *js, site@, *opts),
{
    found.note_if(js.template, site, Unsupported::FieldTemplate, opts);
    let kind = match js.kind {
        LayerKindJson::Confined(_) => LayerKind::Confined,
        LayerKindJson::Grouped(_) => LayerKind::Grouped,
        LayerKindJson::Open(_) => LayerKind::Open,
    };
    let common = js.kind.common();
    proof {
        lemma_times_fit(*common, *opts);
    }
    note_common(common, site, js.kind.name(), opts, found);
    let plain = lower_common(common, opts, LayerSpec::new(js.name.clone(), kind));
    let (spec, membw) = lower_kind_specific(&js.kind, opts, plain);
    found.note_if(membw, site, Unsupported::FieldMembwGb, opts);
    let matches = lower_ors(&js.matches, site, opts, found);
    LayerSpec { matches, ..spec }
}

/// Whether a layer has a group without rules, which takes every task.
pub open spec fn takes_all(js: LayerSpecJson) -> bool {
    exists|i: int| 0 <= i < js.matches@.len() && (#[trigger] js.matches@[i])@.len() == 0
}

fn does_take_all(js: &LayerSpecJson) -> (r: bool)
    ensures
        r == takes_all(*js),
{
    let mut i: usize = 0;
    while i < js.matches.len()
        invariant
            i <= js.matches@.len(),
            forall|k: int| 0 <= k < i ==> (#[trigger] js.matches@[k])@.len() != 0,
        decreases js.matches@.len() - i,
    {
        if js.matches[i].len() == 0 {
            proof {
                assert(js.matches@[i as int]@.len() == 0);
            }
            return true;
        }
        i = i + 1;
    }
    false
}

/// What is found in the first `n` layers.
pub open spec fn all_findings(specs: Seq<LayerSpecJson>, opts: LayerConfigOptions, n: nat) -> FindingsView
    decreases n,
{
    if n == 0 {
        FindingsView::nothing()
    } else {
        let before = all_findings(specs, opts, (n - 1) as nat);
        let js = specs[n - 1];
        let site = layer_site((n - 1) as nat, js.name@);
        let noted = if n < specs.len() && takes_all(js) {
            before.with_note(
                site
                    + " has an empty match group, so it matches every task and no layer after it can ever match"@,
            )
        } else {
            before
        };
        spec_findings(noted, js, site, opts)
    }
}

/// What the layers become.
pub open spec fn lowered_specs(specs: Seq<LayerSpecJson>, opts: LayerConfigOptions) -> Seq<SpecView> {
    Seq::new(specs.len(), |i: int| lowered_spec(specs[i], opts))
}

/// A configuration that was loaded, and what of it is not applied.
pub struct LoadedLayerConfig {
    pub specs: Vec<LayerSpec>,
    /// What the caller accepted losing.
    pub waived: Vec<Rejection>,
    /// What the scheduler itself ignores.
    pub deprecated: Vec<Rejection>,
    /// What else is worth saying.
    pub notes: Vec<String>,
}

/// The layers as contracts see them.
pub open spec fn spec_views(v: Seq<LayerSpec>) -> Seq<SpecView> {
    v.map_values(|s: LayerSpec| s@)
}

proof fn lemma_layers_are_sound(specs: Seq<LayerSpecJson>, opts: LayerConfigOptions, from: int, i: int)
    requires
        0 <= from <= i < specs.len(),
        layers_error(specs, opts, from) is None,
    ensures
        common_error(specs[i].kind.spec_common(), opts) is None,
    decreases i - from,
{
    if from < i {
        lemma_layers_are_sound(specs, opts, from + 1, i);
    }
}

/// Lowers a configuration. It fails with everything that is wrong with it.
pub fn lower(specs: &Vec<LayerSpecJson>, opts: &LayerConfigOptions) -> (r: Result<
    LoadedLayerConfig,
    LayerConfigError,
>)
    requires
        opts.ok(),
    ensures
        ({
            let f = all_findings(specs@, *opts, specs@.len());
            match r {
                Ok(c) => {
                    &&& shape_error(specs@, *opts) is None
                    &&& f.unknown_keys.len() == 0
                    &&& f.rejected.len() == 0
                    &&& spec_views(c.specs@) == lowered_specs(specs@, *opts)
                    &&& rejection_views(c.waived@) == f.waived
                    &&& rejection_views(c.deprecated@) == f.deprecated
                    &&& text_views(c.notes@) == f.notes
                },
                Err(e) => match shape_error(specs@, *opts) {
                    Some(m) => e@ == ConfigErrorView::Invalid(m),
                    None => if f.unknown_keys.len() > 0 && f.rejected.len() > 0 {
                        e@ == (ConfigErrorView::Both {
                            unknown: f.unknown_keys,
                            unsupported: f.rejected,
                        })
                    } else if f.unknown_keys.len() > 0 {
                        e@ == ConfigErrorView::UnknownKeys(f.unknown_keys)
                    } else {
                        f.rejected.len() > 0 && e@ == ConfigErrorView::Unsupported(f.rejected)
                    },
                },
            }
        }),
{
    match check_shape(specs, opts) {
        Some(m) => {
            return Err(LayerConfigError::Invalid(m));
        },
        None => {},
    }
    let mut found = Findings::new();
    let mut out: Vec<LayerSpec> = Vec::new();
    let mut i: usize = 0;
    proof {
        assert(spec_views(out@) =~= lowered_specs(specs@, *opts).take(0));
    }
    while i < specs.len()
        invariant
            i <= specs@.len(),
            opts.ok(),
            layers_error(specs@, *opts, 0) is None,
            found@ == all_findings(specs@, *opts, i as nat),
            spec_views(out@) == lowered_specs(specs@, *opts).take(i as int),
        decreases specs@.len() - i,
    {
        let js = &specs[i];
        let site = site_of(i, js.name.as_str());
        if i < specs.len() - 1 && does_take_all(js) {
            found.add_note(
                plus(
                    site.clone(),
                    " has an empty match group, so it matches every task and no layer after it can ever match",
                ),
            );
        }
        proof {
            lemma_layers_are_sound(specs@, *opts, 0, i as int);
        }
        let ghost before = out@;
        let spec = lower_spec(js, site.as_str(), opts, &mut found);
        let ghost view = spec@;
        out.push(spec);
        proof {
            assert(spec_views(out@) =~= spec_views(before).push(view));
        }
        i = i + 1;
        proof {
            assert(spec_views(out@) =~= lowered_specs(specs@, *opts).take(i as int));
        }
    }
    proof {
        assert(spec_views(out@) =~= lowered_specs(specs@, *opts));
        assert(found@.unknown_keys.len() == found.unknown_keys@.len());
        assert(found@.rejected.len() == found.rejected@.len());
    }
    if found.unknown_keys.len() > 0 && found.rejected.len() > 0 {
        return Err(
            LayerConfigError::Both { unknown: found.unknown_keys, unsupported: found.rejected },
        );
    }
    if found.unknown_keys.len() > 0 {
        return Err(LayerConfigError::UnknownKeys(found.unknown_keys));
    }
    if found.rejected.len() > 0 {
        return Err(LayerConfigError::Unsupported(found.rejected));
    }
    Ok(
        LoadedLayerConfig {
            specs: out,
            waived: found.waived,
            deprecated: found.deprecated,
            notes: found.notes,
        },
    )
}

/// One line for each thing that is not applied, and the notes.
pub open spec fn caveat_texts(
    waived: Seq<RejectionView>,
    deprecated: Seq<RejectionView>,
    notes: Seq<Seq<char>>,
) -> Seq<Seq<char>> {
    waived.map_values(|r: RejectionView| "DROPPED (waived): "@ + rejection_text(r))
        + deprecated.map_values(
        |r: RejectionView| "ignored, as scx_layered also ignores it: "@ + rejection_text(r),
    ) + notes
}

fn prefixed(head: &str, r: &Vec<Rejection>) -> (out: Vec<String>)
    ensures
        text_views(out@) == rejection_views(r@).map_values(
            |r: RejectionView| head@ + rejection_text(r),
        ),
{
    let mut out: Vec<String> = Vec::new();
    let mut i: usize = 0;
    let ghost goal = rejection_views(r@).map_values(
        |r: RejectionView| head@ + rejection_text(r),
    );
    while i < r.len()
        invariant
            i <= r@.len(),
            goal == rejection_views(r@).map_values(
                |r: RejectionView| head@ + rejection_text(r),
            ),
            text_views(out@) == goal.take(i as int),
        decreases r@.len() - i,
    {
        let ghost before = out@;
        let line = plus(head.to_string(), r[i].text().as_str());
        let ghost view = line@;
        out.push(line);
        proof {
            assert(text_views(out@) =~= text_views(before).push(view));
        }
        i = i + 1;
        proof {
            assert(text_views(out@) =~= goal.take(i as int));
        }
    }
    proof {
        assert(text_views(out@) =~= goal);
    }
    out
}

impl LoadedLayerConfig {
    /// One line for each thing that is not applied, and the notes; nothing if
    /// the configuration is applied in full.
    pub fn caveats(&self) -> (r: Vec<String>)
        ensures
            text_views(r@) == caveat_texts(
                rejection_views(self.waived@),
                rejection_views(self.deprecated@),
                text_views(self.notes@),
            ),
    {
        let mut out = prefixed("DROPPED (waived): ", &self.waived);
        let mut ignored = prefixed("ignored, as scx_layered also ignores it: ", &self.deprecated);
        let ghost a = out@;
        let ghost b = ignored@;
        out.append(&mut ignored);
        proof {
            assert(text_views(out@) =~= text_views(a) + text_views(b));
        }
        let ghost start = out@;
        let mut i: usize = 0;
        proof {
            assert(text_views(out@) =~= text_views(start) + text_views(self.notes@).take(0));
        }
        while i < self.notes.len()
            invariant
                i <= self.notes@.len(),
                text_views(out@) == text_views(start) + text_views(self.notes@).take(i as int),
            decreases self.notes@.len() - i,
        {
            let ghost before = out@;
            let note = self.notes[i].clone();
            let ghost view = note@;
            out.push(note);
            proof {
                assert(text_views(out@) =~= text_views(before).push(view));
            }
            i = i + 1;
            proof {
                assert(text_views(out@) =~= text_views(start) + text_views(self.notes@).take(
                    i as int,
                ));
            }
        }
        proof {
            assert(text_views(self.notes@).take(i as int) =~= text_views(self.notes@));
        }
        out
    }
}

/// A rule that is refused cannot be waived.
pub proof fn law_refused_rules_are_fatal(m: LayerMatchJson)
    requires
        lowered_match(m) is Err,
    ensures
        item_disposition(lowered_match(m)->Err_0) is Fatal,
{
}

proof fn lemma_ands_findings(
    f: FindingsView,
    ands: Seq<LayerMatchJson>,
    site: Seq<char>,
    or_id: nat,
    waived: Seq<Unsupported>,
    n: nat,
)
    ensures
        ands_findings(f, ands, site, or_id, waived, n).rejected.len() >= f.rejected.len(),
        (exists|j: int| 0 <= j < n && lowered_match(#[trigger] ands[j]) is Err) ==> ands_findings(
            f,
            ands,
            site,
            or_id,
            waived,
            n,
        ).rejected.len() > f.rejected.len(),
    decreases n,
{
    if n > 0 {
        lemma_ands_findings(f, ands, site, or_id, waived, (n - 1) as nat);
        if lowered_match(ands[n - 1]) is Err {
            law_refused_rules_are_fatal(ands[n - 1]);
        }
    }
}

proof fn lemma_ors_findings(
    f: FindingsView,
    ors: Seq<Vec<LayerMatchJson>>,
    site: Seq<char>,
    waived: Seq<Unsupported>,
    n: nat,
)
    ensures
        ors_findings(f, ors, site, waived, n).rejected.len() >= f.rejected.len(),
        (exists|i: int| 0 <= i < n && has_refused_rule(#[trigger] ors[i])) ==> ors_findings(
            f,
            ors,
            site,
            waived,
            n,
        ).rejected.len() > f.rejected.len(),
    decreases n,
{
    if n > 0 {
        lemma_ors_findings(f, ors, site, waived, (n - 1) as nat);
        let before = ors_findings(f, ors, site, waived, (n - 1) as nat);
        lemma_ands_findings(
            before,
            ors[n - 1]@,
            site,
            (n - 1) as nat,
            waived,
            ors[n - 1]@.len(),
        );
    }
}

proof fn lemma_keys_findings(
    f: FindingsView,
    keys: Seq<String>,
    site: Seq<char>,
    kind_name: Seq<char>,
    n: nat,
)
    ensures
        keys_findings(f, keys, site, kind_name, n).rejected.len() == f.rejected.len(),
    decreases n,
{
    if n > 0 {
        lemma_keys_findings(f, keys, site, kind_name, (n - 1) as nat);
    }
}

proof fn lemma_spec_findings(
    f: FindingsView,
    js: LayerSpecJson,
    site: Seq<char>,
    opts: LayerConfigOptions,
)
    ensures
        spec_findings(f, js, site, opts).rejected.len() >= f.rejected.len(),
        refuses_a_rule(js) ==> spec_findings(f, js, site, opts).rejected.len() > f.rejected.len(),
{
    let c = js.kind.spec_common();
    let a = f.with_item_if(js.template, site, Unsupported::FieldTemplate, opts.waived@);
    lemma_keys_findings(a, c.unknown@, site, js.kind.spec_name(), c.unknown@.len());
    let b = common_findings(a, c, site, js.kind.spec_name(), opts.waived@).with_item_if(
        sets_membw(js.kind),
        site,
        Unsupported::FieldMembwGb,
        opts.waived@,
    );
    lemma_ors_findings(b, js.matches@, site, opts.waived@, js.matches@.len());
}

/// Whether a group has a rule that is refused.
pub open spec fn has_refused_rule(ands: Vec<LayerMatchJson>) -> bool {
    exists|j: int| 0 <= j < ands@.len() && lowered_match(#[trigger] ands@[j]) is Err
}

/// Whether a layer has a rule that is refused.
pub open spec fn refuses_a_rule(js: LayerSpecJson) -> bool {
    exists|i: int| 0 <= i < js.matches@.len() && has_refused_rule(#[trigger] js.matches@[i])
}

/// A configuration with a rule that cannot be applied never loads, whatever is
/// waived: a layer never takes more tasks than its rules say.
pub proof fn law_a_refused_rule_fails_the_load(
    specs: Seq<LayerSpecJson>,
    opts: LayerConfigOptions,
    layer: int,
    n: nat,
)
    requires
        0 <= layer < n <= specs.len(),
        refuses_a_rule(specs[layer]),
    ensures
        all_findings(specs, opts, n).rejected.len() > 0,
    decreases n,
{
    let js = specs[n - 1];
    let site = layer_site((n - 1) as nat, js.name@);
    let before = all_findings(specs, opts, (n - 1) as nat);
    let noted = if n < specs.len() && takes_all(js) {
        before.with_note(
            site
                + " has an empty match group, so it matches every task and no layer after it can ever match"@,
        )
    } else {
        before
    };
    lemma_spec_findings(noted, js, site, opts);
    if layer < n - 1 {
        law_a_refused_rule_fails_the_load(specs, opts, layer, (n - 1) as nat);
    }
}

/// In a layer without rules that are refused every rule is kept, in order.
pub proof fn law_accepted_rules_are_kept(ands: Seq<LayerMatchJson>, n: nat)
    requires
        n <= ands.len(),
        forall|j: int| 0 <= j < n ==> lowered_match(#[trigger] ands[j]) is Ok,
    ensures
        lowered_ands(ands, n).len() == n,
        forall|j: int|
            0 <= j < n ==> #[trigger] lowered_ands(ands, n)[j] == lowered_match(ands[j])->Ok_0,
    decreases n,
{
    if n > 0 {
        law_accepted_rules_are_kept(ands, (n - 1) as nat);
    }
}

/// Whether a rule holds of a task, as a configuration means it.
pub open spec fn written_rule_holds(m: LayerMatchJson, t: TaskTraits) -> bool {
    match m {
        LayerMatchJson::CgroupPrefix(s) => begins_with(t.cgroup_path, s@),
        LayerMatchJson::CgroupSuffix(s) => finishes_with(t.cgroup_path, s@),
        LayerMatchJson::CgroupContains(s) => has_within(t.cgroup_path, s@),
        LayerMatchJson::CommPrefix(s) => begins_with(t.comm, s@),
        LayerMatchJson::CommPrefixExclude(s) => !begins_with(t.comm, s@),
        LayerMatchJson::PcommPrefix(s) => begins_with(t.pcomm, s@),
        LayerMatchJson::PcommPrefixExclude(s) => !begins_with(t.pcomm, s@),
        LayerMatchJson::NiceAbove(n) => t.nice > n,
        LayerMatchJson::NiceBelow(n) => t.nice < n,
        LayerMatchJson::NiceEquals(n) => t.nice == n,
        LayerMatchJson::UIDEquals(n) => t.uid == n,
        LayerMatchJson::GIDEquals(n) => t.gid == n,
        LayerMatchJson::PIDEquals(n) => t.pid == n,
        LayerMatchJson::PPIDEquals(n) => t.ppid == n,
        LayerMatchJson::TGIDEquals(n) => t.tgid == n,
        LayerMatchJson::IsGroupLeader(v) => t.leads_group == v,
        LayerMatchJson::IsKthread(v) => t.is_kthread == v,
        LayerMatchJson::NumaNode(n) => t.node == Some(n as int),
        LayerMatchJson::AvgRuntime(lo, hi) => lo <= t.avg_runtime_us && t.avg_runtime_us < hi,
        _ => false,
    }
}

/// Whether a rule needs what the simulation does not have.
pub open spec fn is_beyond_the_simulation(m: LayerMatchJson) -> bool {
    m is CgroupRegex || m is NSPIDEquals || m is NSEquals || m is CmdJoin || m is UsedGpuTid
        || m is UsedGpuPid || m is HintEquals || m is SystemCpuUtilBelow || m is DsqInsertBelow
}

/// A rule that is accepted holds of exactly the tasks that it held of as written, and
/// exactly those rules are refused that need what the simulation does not have, each
/// under its own name.
pub proof fn law_accepted_rules_mean_the_same(m: LayerMatchJson, l: LayerMatch, t: TaskTraits)
    ensures
        lowered_match(m) == Ok::<MatchView, Unsupported>(l@) ==> rule_holds(l, t)
            == written_rule_holds(m, t),
        lowered_match(m) is Err <==> is_beyond_the_simulation(m),
{
    reveal_with_fuel(crate::layered::match_view, 2);
    reveal_with_fuel(rule_holds, 2);
}

/// Different rules that are refused are refused as different items.
pub proof fn law_refused_rules_are_told_apart(a: LayerMatchJson, b: LayerMatchJson)
    requires
        lowered_match(a) is Err,
        lowered_match(a) == lowered_match(b),
    ensures
        a == b,
{
}

/// Whether every rule of a group holds, as a configuration means it.
pub open spec fn written_group_holds(ands: Vec<LayerMatchJson>, t: TaskTraits) -> bool {
    forall|j: int| 0 <= j < ands@.len() ==> written_rule_holds(#[trigger] ands@[j], t)
}

/// Whether a layer takes a task, as a configuration means it: every rule of one of its
/// groups holds.
pub open spec fn written_layer_takes(js: LayerSpecJson, t: TaskTraits) -> bool {
    exists|i: int| 0 <= i < js.matches@.len() && #[trigger] written_group_holds(js.matches@[i], t)
}

proof fn lemma_group_means_the_same(
    ands: Vec<LayerMatchJson>,
    lowered: Vec<LayerMatch>,
    t: TaskTraits,
)
    requires
        !has_refused_rule(ands),
        crate::layered::group_view(lowered) == lowered_ands(ands@, ands@.len()),
    ensures
        group_holds(lowered, t) == written_group_holds(ands, t),
{
    assert forall|j: int| 0 <= j < ands@.len() implies lowered_match(#[trigger] ands@[j]) is Ok by {
        if lowered_match(ands@[j]) is Err {
            assert(has_refused_rule(ands));
        }
    }
    law_accepted_rules_are_kept(ands@, ands@.len());
    let view = crate::layered::group_view(lowered);
    assert(view.len() == lowered@.len());
    assert forall|j: int| 0 <= j < ands@.len() implies rule_holds(#[trigger] lowered@[j], t)
        == written_rule_holds(ands@[j], t) by {
        assert(view[j] == lowered@[j]@);
        assert(lowered_ands(ands@, ands@.len())[j] == lowered_match(ands@[j])->Ok_0);
        law_accepted_rules_mean_the_same(ands@[j], lowered@[j], t);
    }
    if group_holds(lowered, t) {
        assert forall|j: int| 0 <= j < ands@.len() implies written_rule_holds(
            #[trigger] ands@[j],
            t,
        ) by {
            assert(rule_holds(lowered@[j], t));
        }
    }
    if written_group_holds(ands, t) {
        assert forall|j: int| 0 <= j < lowered@.len() implies rule_holds(
            #[trigger] lowered@[j],
            t,
        ) by {
            assert(written_rule_holds(ands@[j], t));
        }
    }
}

/// A layer that is accepted takes exactly the tasks that it took as written.
pub proof fn law_accepted_layers_take_the_same_tasks(
    js: LayerSpecJson,
    opts: LayerConfigOptions,
    spec: LayerSpec,
    t: TaskTraits,
)
    requires
        !refuses_a_rule(js),
        spec@ == lowered_spec(js, opts),
    ensures
        takes_task(spec.matches@, t) == written_layer_takes(js, t),
{
    let ors = js.matches@;
    let groups = spec.matches@;
    assert(spec@.matches == lowered_ors(ors, ors.len()));
    assert(spec@.matches.len() == groups.len());
    assert forall|i: int| 0 <= i < ors.len() implies group_holds(#[trigger] groups[i], t)
        == written_group_holds(ors[i], t) by {
        if has_refused_rule(ors[i]) {
            assert(refuses_a_rule(js));
        }
        assert(spec@.matches[i] == crate::layered::group_view(groups[i]));
        assert(lowered_ors(ors, ors.len())[i] == lowered_ands(ors[i]@, ors[i]@.len()));
        lemma_group_means_the_same(ors[i], groups[i], t);
    }
    if takes_task(groups, t) {
        let i = choose|i: int| 0 <= i < groups.len() && #[trigger] group_holds(groups[i], t);
        assert(written_group_holds(ors[i], t));
    }
    if written_layer_takes(js, t) {
        let i = choose|i: int| 0 <= i < ors.len() && #[trigger] written_group_holds(ors[i], t);
        assert(group_holds(groups[i], t));
    }
}

/// A layer keeps its name, its kind and each of its settings. Times given in
/// microseconds are a thousand times as many nanoseconds; a weight within the range is
/// kept, and any is brought into it; a slice or a weight of zero stands for the usual
/// one.
pub proof fn law_accepted_layers_keep_their_settings(js: LayerSpecJson, opts: LayerConfigOptions)
    requires
        opts.ok(),
        times_fit(js.kind.spec_common(), opts),
    ensures
        ({
            let s = lowered_spec(js, opts);
            let c = match js.kind {
                LayerKindJson::Confined(k) => k.common,
                LayerKindJson::Grouped(k) => k.common,
                LayerKindJson::Open(k) => k,
            };
            &&& s.name == js.name@
            &&& s.kind is Confined <==> js.kind is Confined
            &&& s.kind is Grouped <==> js.kind is Grouped
            &&& s.kind is Open <==> js.kind is Open
            &&& s.matches.len() == js.matches@.len()
            &&& s.cpus is None
            &&& s.preempt == c.preempt
            &&& s.preempt_first == c.preempt_first
            &&& s.exclusive == c.exclusive
            &&& s.fifo == c.fifo
            &&& s.skip_remote_node == c.skip_remote_node
            &&& s.prev_over_idle_core == c.prev_over_idle_core
            &&& s.member_expire_ms == c.member_expire_ms
            &&& s.nodes == c.nodes@
            &&& s.llcs == c.llcs@
            &&& s.yield_ignore == c.yield_ignore
            &&& s.xllc_mig_min_ns == c.xllc_mig_min_ns
            &&& s.min_exec_ns == 1000 * c.min_exec_us
            &&& s.max_exec_ns == 0
            &&& c.slice_us > 0 ==> s.slice_ns == 1000 * c.slice_us
            &&& c.slice_us == 0 ==> s.slice_ns == opts.default_slice_ns
            &&& opts.weight_range.0 <= s.weight <= opts.weight_range.1
            &&& c.weight > 0 && opts.weight_range.0 <= c.weight <= opts.weight_range.1 ==> s.weight
                == c.weight
            &&& c.weight > opts.weight_range.1 ==> s.weight == opts.weight_range.1
            &&& 0 < c.weight < opts.weight_range.0 ==> s.weight == opts.weight_range.0
            &&& c.weight == 0 && opts.weight_range.0 <= opts.default_weight
                <= opts.weight_range.1 ==> s.weight == opts.default_weight
            &&& match c.perf {
                Some(p) => p <= u32::MAX ==> s.perf == p,
                None => s.perf == 0,
            }
            &&& match c.placement {
                Some(p) => s.placement == p,
                None => s.placement is Standard,
            }
            &&& match c.xnuma_threshold {
                Some(p) => s.xnuma_threshold == p,
                None => s.xnuma_threshold == (Double(XNUMA_CLOSE), Double(XNUMA_OPEN)),
            }
            &&& match c.xnuma_threshold_delta {
                Some(p) => s.xnuma_threshold_delta == p,
                None => s.xnuma_threshold_delta == (
                    Double(XNUMA_DELTA_CLOSE),
                    Double(XNUMA_DELTA_OPEN),
                ),
            }
        }),
{
}

/// What a layer grows by is what was asked for, unless that is refused.
pub proof fn law_accepted_layers_keep_their_growth(js: LayerSpecJson, opts: LayerConfigOptions)
    ensures
        match js.kind.spec_common().growth_algo {
            Some(a) => lowered_spec(js, opts).growth_algo == a || ((a is CpuSetSpread
                || a is CpuSetSpreadReverse || a is CpuSetSpreadRandom || a is StickyDynamic)
                && lowered_spec(js, opts).growth_algo is Linear),
            None => lowered_spec(js, opts).growth_algo is Linear,
        },
{
}

/// A layer that preempts is never kept from open CPUs or from preempting. Another is
/// after the time that it gives, in nanoseconds, or after two and four of the kernel's
/// slices if it gives none; the greatest time stands for never.
pub proof fn law_accepted_layers_keep_their_deadlines(js: LayerSpecJson, opts: LayerConfigOptions)
    requires
        times_fit(js.kind.spec_common(), opts),
    ensures
        ({
            let s = lowered_spec(js, opts);
            let c = js.kind.spec_common();
            &&& c.preempt ==> s.disallow_open_after_ns == u64::MAX && s.disallow_preempt_after_ns
                == u64::MAX
            &&& !c.preempt ==> match c.disallow_open_after_us {
                Some(us) => s.disallow_open_after_ns == if us == u64::MAX {
                    u64::MAX as int
                } else {
                    1000 * us
                },
                None => s.disallow_open_after_ns == opts.scx_slice_dfl_ns + opts.scx_slice_dfl_ns,
            }
            &&& !c.preempt ==> match c.disallow_preempt_after_us {
                Some(us) => s.disallow_preempt_after_ns == if us == u64::MAX {
                    u64::MAX as int
                } else {
                    1000 * us
                },
                None => s.disallow_preempt_after_ns == opts.scx_slice_dfl_ns
                    + opts.scx_slice_dfl_ns + opts.scx_slice_dfl_ns + opts.scx_slice_dfl_ns,
            }
        }),
{
}

/// What only some kinds of layers have is kept where the kind has it and unset
/// elsewhere. A range of CPUs given as numbers is kept; one given as fractions is at
/// least one CPU, ends with the machine, and is otherwise what the fractions come to.
pub proof fn law_accepted_layers_keep_their_sizes(js: LayerSpecJson, opts: LayerConfigOptions)
    ensures
        ({
            let s = lowered_spec(js, opts);
            &&& match js.kind {
                LayerKindJson::Confined(k) => {
                    &&& s.protected == k.protected
                    &&& s.util_range == Some(k.util_range)
                    &&& !s.idle_confined
                    &&& !s.util_includes_open_cputime
                    &&& range_kept(s.cpus_range, k.cpus_range, k.cpus_range_frac, opts.nr_cpus)
                },
                LayerKindJson::Grouped(k) => {
                    &&& s.protected == k.protected
                    &&& s.util_range == Some(k.util_range)
                    &&& s.idle_confined == k.idle_confined
                    &&& s.util_includes_open_cputime == k.util_includes_open_cputime
                    &&& range_kept(s.cpus_range, k.cpus_range, k.cpus_range_frac, opts.nr_cpus)
                },
                LayerKindJson::Open(_) => {
                    &&& !s.protected
                    &&& s.util_range is None
                    &&& s.cpus_range is None
                    &&& !s.idle_confined
                    &&& !s.util_includes_open_cputime
                },
            }
        }),
{
}

/// Whether a range of CPUs is the one given as numbers, or else the one given as
/// fractions within the machine.
pub open spec fn range_kept(
    r: Option<(usize, usize)>,
    range: Option<(usize, usize)>,
    frac: Option<FracRange>,
    nr_cpus: u32,
) -> bool {
    &&& r is None <==> range is None && frac is None
    &&& range is Some ==> r == range
    &&& range is None && frac is Some && r is Some ==> {
        let (low, high) = r->0;
        let f = frac->0;
        &&& low >= 1
        &&& f.low_cpus >= 1 ==> low == f.low_cpus
        &&& f.low_cpus == 0 ==> low == 1
        &&& high <= nr_cpus
        &&& 1 <= f.high_cpus <= nr_cpus ==> high == f.high_cpus
        &&& f.high_cpus > nr_cpus ==> high == nr_cpus
        &&& f.high_cpus == 0 && nr_cpus > 0 ==> high == 1
    }
}

/// A configuration that loads has a layer for each that is written, in order, and each
/// takes the tasks that it took as written.
pub proof fn law_loaded_layers_take_their_tasks(
    specs: Seq<LayerSpecJson>,
    opts: LayerConfigOptions,
    loaded: Seq<LayerSpec>,
    i: int,
    t: TaskTraits,
)
    requires
        all_findings(specs, opts, specs.len()).rejected.len() == 0,
        spec_views(loaded) == lowered_specs(specs, opts),
        0 <= i < specs.len(),
    ensures
        loaded.len() == specs.len(),
        takes_task(loaded[i].matches@, t) == written_layer_takes(specs[i], t),
{
    assert(spec_views(loaded).len() == loaded.len());
    assert(spec_views(loaded)[i] == loaded[i]@);
    if refuses_a_rule(specs[i]) {
        law_a_refused_rule_fails_the_load(specs, opts, i, specs.len());
    }
    law_accepted_layers_take_the_same_tasks(specs[i], opts, loaded[i], t);
}

/// Which items are fatal, which can be waived, and which the scheduler ignores itself: what
/// would change which tasks a layer takes, or how it grows, is fatal.
pub proof fn law_items_are_treated_by_what_they_change(u: Unsupported)
    ensures
        item_disposition(u) is Refusable <==> u is FieldIdleResumeUs || u is FieldMembwGb
            || u is FieldUtilPeakHalfLifeMs,
        item_disposition(u) is DeprecatedUpstream <==> u is FieldAllowNodeAligned
            || u is FieldIdleSmt,
        item_disposition(u) is Fatal <==> u is MatchCgroupRegex || u is MatchNsPidEquals
            || u is MatchNsEquals || u is MatchCmdJoin || u is MatchUsedGpuTid
            || u is MatchUsedGpuPid || u is MatchHintEquals || u is MatchSystemCpuUtilBelow
            || u is MatchDsqInsertBelow || u is FieldTemplate || u is GrowthCpuSetSpread
            || u is GrowthStickyDynamic,
{
}

proof fn lemma_item_names()
    ensures
        "CgroupRegex"@.len() == 11 && "CgroupRegex"@[0] == 'C',
        "NSPIDEquals"@.len() == 11 && "NSPIDEquals"@[0] == 'N',
        "NSEquals"@.len() == 8 && "NSEquals"@[0] == 'N',
        "CmdJoin"@.len() == 7,
        "UsedGpuTid"@.len() == 10 && "UsedGpuTid"@[0] == 'U' && "UsedGpuTid"@[7] == 'T',
        "UsedGpuPid"@.len() == 10 && "UsedGpuPid"@[0] == 'U' && "UsedGpuPid"@[7] == 'P',
        "HintEquals"@.len() == 10 && "HintEquals"@[0] == 'H',
        "SystemCpuUtilBelow"@.len() == 18 && "SystemCpuUtilBelow"@[0] == 'S',
        "DsqInsertBelow"@.len() == 14 && "DsqInsertBelow"@[0] == 'D',
        "template"@.len() == 8 && "template"@[0] == 't',
        "growth_algo:CpuSetSpread*"@.len() == 25 && "growth_algo:CpuSetSpread*"@[12] == 'C',
        "growth_algo:StickyDynamic"@.len() == 25 && "growth_algo:StickyDynamic"@[12] == 'S',
        "idle_resume_us"@.len() == 14 && "idle_resume_us"@[0] == 'i',
        "membw_gb"@.len() == 8 && "membw_gb"@[0] == 'm',
        "util_peak_half_life_ms"@.len() == 22,
        "allow_node_aligned"@.len() == 18 && "allow_node_aligned"@[0] == 'a',
        "idle_smt"@.len() == 8 && "idle_smt"@[0] == 'i',
{
    reveal_strlit("CgroupRegex");
    reveal_strlit("NSPIDEquals");
    reveal_strlit("NSEquals");
    reveal_strlit("CmdJoin");
    reveal_strlit("UsedGpuTid");
    reveal_strlit("UsedGpuPid");
    reveal_strlit("HintEquals");
    reveal_strlit("SystemCpuUtilBelow");
    reveal_strlit("DsqInsertBelow");
    reveal_strlit("template");
    reveal_strlit("growth_algo:CpuSetSpread*");
    reveal_strlit("growth_algo:StickyDynamic");
    reveal_strlit("idle_resume_us");
    reveal_strlit("membw_gb");
    reveal_strlit("util_peak_half_life_ms");
    reveal_strlit("allow_node_aligned");
    reveal_strlit("idle_smt");
}

/// Items go by the names that a configuration has for them, each by its own.
pub proof fn law_items_go_by_their_own_names(a: Unsupported, b: Unsupported)
    ensures
        item_name(a) == item_name(b) ==> a == b,
        item_name(a) == "CgroupRegex"@ <==> a is MatchCgroupRegex,
        item_name(a) == "NSPIDEquals"@ <==> a is MatchNsPidEquals,
        item_name(a) == "NSEquals"@ <==> a is MatchNsEquals,
        item_name(a) == "CmdJoin"@ <==> a is MatchCmdJoin,
        item_name(a) == "UsedGpuTid"@ <==> a is MatchUsedGpuTid,
        item_name(a) == "UsedGpuPid"@ <==> a is MatchUsedGpuPid,
        item_name(a) == "HintEquals"@ <==> a is MatchHintEquals,
        item_name(a) == "SystemCpuUtilBelow"@ <==> a is MatchSystemCpuUtilBelow,
        item_name(a) == "DsqInsertBelow"@ <==> a is MatchDsqInsertBelow,
        item_name(a) == "template"@ <==> a is FieldTemplate,
        item_name(a) == "growth_algo:CpuSetSpread*"@ <==> a is GrowthCpuSetSpread,
        item_name(a) == "growth_algo:StickyDynamic"@ <==> a is GrowthStickyDynamic,
        item_name(a) == "idle_resume_us"@ <==> a is FieldIdleResumeUs,
        item_name(a) == "membw_gb"@ <==> a is FieldMembwGb,
        item_name(a) == "util_peak_half_life_ms"@ <==> a is FieldUtilPeakHalfLifeMs,
        item_name(a) == "allow_node_aligned"@ <==> a is FieldAllowNodeAligned,
        item_name(a) == "idle_smt"@ <==> a is FieldIdleSmt,
{
    lemma_item_names();
}

/// Every item is found by its name, and nothing by any other.
pub proof fn law_items_are_found_by_name(u: Unsupported, name: Seq<char>)
    ensures
        item_named(item_name(u), 0) == Some(u),
        item_named(name, 0) is Some ==> item_name(item_named(name, 0)->0) == name,
        all_items().contains(u),
        can_waive(item_name(u)) <==> item_disposition(u) is Refusable,
{
    let at: int = match u {
        Unsupported::MatchCgroupRegex => 0,
        Unsupported::MatchNsPidEquals => 1,
        Unsupported::MatchNsEquals => 2,
        Unsupported::MatchCmdJoin => 3,
        Unsupported::MatchUsedGpuTid => 4,
        Unsupported::MatchUsedGpuPid => 5,
        Unsupported::MatchHintEquals => 6,
        Unsupported::MatchSystemCpuUtilBelow => 7,
        Unsupported::MatchDsqInsertBelow => 8,
        Unsupported::FieldTemplate => 9,
        Unsupported::GrowthCpuSetSpread => 10,
        Unsupported::GrowthStickyDynamic => 11,
        Unsupported::FieldIdleResumeUs => 12,
        Unsupported::FieldMembwGb => 13,
        Unsupported::FieldUtilPeakHalfLifeMs => 14,
        Unsupported::FieldAllowNodeAligned => 15,
        Unsupported::FieldIdleSmt => 16,
    };
    assert(all_items()[at] == u);
    lemma_found_from(u, at, 0);
    lemma_found_has_its_name(name, 0);
}

proof fn lemma_found_from(u: Unsupported, at: int, from: int)
    requires
        0 <= from <= at < all_items().len(),
        all_items()[at] == u,
    ensures
        item_named(item_name(u), from) == Some(u),
    decreases at - from,
{
    law_items_go_by_their_own_names(all_items()[from], u);
    if from < at && all_items()[from] != u {
        lemma_found_from(u, at, from + 1);
    }
}

proof fn lemma_found_has_its_name(name: Seq<char>, from: int)
    ensures
        item_named(name, from) is Some ==> item_name(item_named(name, from)->0) == name,
    decreases all_items().len() - from,
{
    if 0 <= from < all_items().len() && item_name(all_items()[from]) != name {
        lemma_found_has_its_name(name, from + 1);
    }
}

/// Every name that can be waived is waived afterwards, what was waived stays so, and every
/// name that cannot be is told, in order.
pub proof fn law_names_are_waived_or_told(
    waived: Seq<Unsupported>,
    names: Seq<String>,
    n: nat,
    i: int,
    item: Unsupported,
)
    requires
        0 <= i < n <= names.len(),
    ensures
        can_waive(names[i]@) ==> waived_after(waived, names, n).contains(
            item_named(names[i]@, 0)->0,
        ),
        waived.contains(item) ==> waived_after(waived, names, n).contains(item),
        !can_waive(names[i]@) ==> not_waived(names, n).contains(no_waiver_text(names[i]@)),
        (forall|k: int| 0 <= k < n ==> can_waive((#[trigger] names[k])@)) ==> not_waived(
            names,
            n,
        ).len() == 0,
    decreases n,
{
    let m = (n - 1) as nat;
    let before = waived_after(waived, names, m);
    let after = waived_after(waived, names, n);
    let x = item_named(names[m as int]@, 0)->0;
    let told = not_waived(names, m);
    let tells = not_waived(names, n);
    if m > 0 {
        law_names_are_waived_or_told(waived, names, m, if i < m { i } else { 0 }, item);
    }
    assert forall|y: Unsupported| before.contains(y) implies after.contains(y) by {
        let k = choose|k: int| 0 <= k < before.len() && before[k] == y;
        assert(after[k] == y);
    }
    assert forall|t: Seq<char>| told.contains(t) implies tells.contains(t) by {
        let k = choose|k: int| 0 <= k < told.len() && told[k] == t;
        assert(tells[k] == t);
    }
    if can_waive(names[m as int]@) {
        if !before.contains(x) {
            assert(after[before.len() as int] == x);
        }
    } else {
        assert(tells[told.len() as int] == no_waiver_text(names[m as int]@));
    }
    if m == 0 {
        assert(before == waived);
        assert(told.len() == 0);
    }
}

/// An item that is not applied goes on exactly one list: that of what the scheduler
/// ignores too, that of what was waived, or that of what is refused. The other lists stay.
pub proof fn law_an_item_goes_on_one_list(
    f: FindingsView,
    site: Seq<char>,
    item: Unsupported,
    waived: Seq<Unsupported>,
)
    ensures
        ({
            let g = f.with_item(site, item, waived);
            let r = RejectionView { site, item };
            let old = item is FieldAllowNodeAligned || item is FieldIdleSmt;
            let soft = item is FieldIdleResumeUs || item is FieldMembwGb
                || item is FieldUtilPeakHalfLifeMs;
            &&& g.unknown_keys == f.unknown_keys && g.notes == f.notes
            &&& old ==> g.deprecated == f.deprecated.push(r) && g.waived == f.waived && g.rejected
                == f.rejected
            &&& soft && waived.contains(item) ==> g.waived == f.waived.push(r) && g.deprecated
                == f.deprecated && g.rejected == f.rejected
            &&& !old && !(soft && waived.contains(item)) ==> g.rejected == f.rejected.push(r)
                && g.waived == f.waived && g.deprecated == f.deprecated
        }),
{
}

proof fn lemma_mentions(
    f: FindingsView,
    site: Seq<char>,
    item: Unsupported,
    waived: Seq<Unsupported>,
    other: Unsupported,
)
    ensures
        f.with_item(site, item, waived).mentions(site, other) <==> f.mentions(site, other) || item
            == other,
{
    let g = f.with_item(site, item, waived);
    let r = RejectionView { site, item };
    let o = RejectionView { site, item: other };
    law_nothing_is_dropped_quietly(f, site, item, waived);
    lemma_pushed(f.rejected, r, o);
    lemma_pushed(f.waived, r, o);
    lemma_pushed(f.deprecated, r, o);
    assert(r == o <==> item == other);
}

proof fn lemma_pushed(s: Seq<RejectionView>, r: RejectionView, o: RejectionView)
    ensures
        s.push(r).contains(o) <==> s.contains(o) || r == o,
{
    let t = s.push(r);
    if s.contains(o) {
        let k = choose|k: int| 0 <= k < s.len() && s[k] == o;
        assert(t[k] == o);
    }
    if r == o {
        assert(t[s.len() as int] == o);
    }
    if t.contains(o) && r != o {
        let k = choose|k: int| 0 <= k < t.len() && t[k] == o;
        assert(s[k] == o);
    }
}

proof fn lemma_keys_mention_nothing(
    f: FindingsView,
    keys: Seq<String>,
    site: Seq<char>,
    kind_name: Seq<char>,
    n: nat,
)
    ensures
        ({
            let g = keys_findings(f, keys, site, kind_name, n);
            g.rejected == f.rejected && g.waived == f.waived && g.deprecated == f.deprecated
        }),
    decreases n,
{
    if n > 0 {
        lemma_keys_mention_nothing(f, keys, site, kind_name, (n - 1) as nat);
    }
}

/// What is found in what every layer has: a growth algorithm over cpusets, one that trades
/// caches, a latency, a half-life, and the two fields that the scheduler ignores itself;
/// each exactly if it is asked for.
pub proof fn law_what_is_asked_for_is_found(
    c: CommonJson,
    site: Seq<char>,
    kind_name: Seq<char>,
    waived: Seq<Unsupported>,
)
    ensures
        ({
            let f = common_findings(FindingsView::nothing(), c, site, kind_name, waived);
            &&& f.mentions(site, Unsupported::GrowthStickyDynamic) <==> c.growth_algo is Some && (
            c.growth_algo->0) is StickyDynamic
            &&& f.mentions(site, Unsupported::GrowthCpuSetSpread) <==> c.growth_algo is Some && ((
            c.growth_algo->0) is CpuSetSpread || (c.growth_algo->0) is CpuSetSpreadReverse || (
            c.growth_algo->0) is CpuSetSpreadRandom)
            &&& f.mentions(site, Unsupported::FieldIdleResumeUs) <==> c.idle_resume_us is Some
                && c.idle_resume_us->0 != 0
            &&& f.mentions(site, Unsupported::FieldUtilPeakHalfLifeMs)
                <==> c.util_peak_half_life_ms is Some && c.util_peak_half_life_ms->0 != 0
            &&& f.mentions(site, Unsupported::FieldAllowNodeAligned)
                <==> c.allow_node_aligned is Some
            &&& f.mentions(site, Unsupported::FieldIdleSmt) <==> c.idle_smt is Some
            &&& !f.mentions(site, Unsupported::FieldMembwGb) && !f.mentions(
                site,
                Unsupported::FieldTemplate,
            )
        }),
{
    let f0 = keys_findings(
        FindingsView::nothing(),
        c.unknown@,
        site,
        kind_name,
        c.unknown@.len(),
    );
    lemma_keys_mention_nothing(
        FindingsView::nothing(),
        c.unknown@,
        site,
        kind_name,
        c.unknown@.len(),
    );
    let f1 = f0.with_item_if(
        c.growth_algo is Some && (c.growth_algo->0).spec_needs_cpusets(),
        site,
        Unsupported::GrowthCpuSetSpread,
        waived,
    );
    let f2 = f1.with_item_if(
        c.growth_algo == Some(LayerGrowthAlgo::StickyDynamic),
        site,
        Unsupported::GrowthStickyDynamic,
        waived,
    );
    let f3 = f2.with_item_if(
        c.idle_resume_us is Some && c.idle_resume_us->0 > 0,
        site,
        Unsupported::FieldIdleResumeUs,
        waived,
    );
    let f4 = f3.with_item_if(
        c.util_peak_half_life_ms is Some && c.util_peak_half_life_ms->0 > 0,
        site,
        Unsupported::FieldUtilPeakHalfLifeMs,
        waived,
    );
    let f5 = f4.with_item_if(
        c.allow_node_aligned is Some,
        site,
        Unsupported::FieldAllowNodeAligned,
        waived,
    );
    assert forall|u: Unsupported| !#[trigger] f0.mentions(site, u) by {}
    assert forall|u: Unsupported| #[trigger]
        f1.mentions(site, u) <==> f0.mentions(site, u) || (u is GrowthCpuSetSpread
            && c.growth_algo is Some && (c.growth_algo->0).spec_needs_cpusets()) by {
        lemma_mentions(f0, site, Unsupported::GrowthCpuSetSpread, waived, u);
    }
    assert forall|u: Unsupported| #[trigger]
        f2.mentions(site, u) <==> f1.mentions(site, u) || (u is GrowthStickyDynamic
            && c.growth_algo == Some(LayerGrowthAlgo::StickyDynamic)) by {
        lemma_mentions(f1, site, Unsupported::GrowthStickyDynamic, waived, u);
    }
    assert forall|u: Unsupported| #[trigger]
        f3.mentions(site, u) <==> f2.mentions(site, u) || (u is FieldIdleResumeUs
            && c.idle_resume_us is Some && c.idle_resume_us->0 > 0) by {
        lemma_mentions(f2, site, Unsupported::FieldIdleResumeUs, waived, u);
    }
    assert forall|u: Unsupported| #[trigger]
        f4.mentions(site, u) <==> f3.mentions(site, u) || (u is FieldUtilPeakHalfLifeMs
            && c.util_peak_half_life_ms is Some && c.util_peak_half_life_ms->0 > 0) by {
        lemma_mentions(f3, site, Unsupported::FieldUtilPeakHalfLifeMs, waived, u);
    }
    assert forall|u: Unsupported| #[trigger]
        f5.mentions(site, u) <==> f4.mentions(site, u) || (u is FieldAllowNodeAligned
            && c.allow_node_aligned is Some) by {
        lemma_mentions(f4, site, Unsupported::FieldAllowNodeAligned, waived, u);
    }
    let f = common_findings(FindingsView::nothing(), c, site, kind_name, waived);
    assert forall|u: Unsupported| #[trigger]
        f.mentions(site, u) <==> f5.mentions(site, u) || (u is FieldIdleSmt
            && c.idle_smt is Some) by {
        lemma_mentions(f5, site, Unsupported::FieldIdleSmt, waived, u);
    }
}

/// A key that no field claims is noted if another kind of layer has it, and unknown
/// otherwise, one entry for each key, with where it stands.
pub proof fn law_unclaimed_keys_are_noted_or_unknown(
    f: FindingsView,
    keys: Seq<String>,
    site: Seq<char>,
    kind_name: Seq<char>,
    n: nat,
)
    requires
        0 < n <= keys.len(),
    ensures
        ({
            let before = keys_findings(f, keys, site, kind_name, (n - 1) as nat);
            let after = keys_findings(f, keys, site, kind_name, n);
            let key = keys[n - 1]@;
            let known = key == "util_range"@ || key == "cpus_range"@ || key == "cpus_range_frac"@
                || key == "membw_gb"@ || key == "protected"@ || key
                == "util_includes_open_cputime"@ || key == "idle_confined"@;
            &&& known ==> after.notes.len() == before.notes.len() + 1 && after.unknown_keys
                == before.unknown_keys
            &&& !known ==> after.unknown_keys == before.unknown_keys.push(site + ": "@ + key)
                && after.notes == before.notes
        }),
{
}

/// A text can be looked for exactly if it holds no zero and fits the scheduler's buffer:
/// that of a path for rules on control groups, that of a name for rules on names. A node
/// can be asked for exactly if there is one of that number. Other rules are never wrong.
pub proof fn law_rules_fit_the_scheduler(m: LayerMatchJson, opts: LayerConfigOptions)
    ensures
        match m {
            LayerMatchJson::CgroupPrefix(v) => match_error(m, opts) is None <==> text_fits(
                v@,
                opts.max_path,
            ),
            LayerMatchJson::CgroupSuffix(v) => match_error(m, opts) is None <==> text_fits(
                v@,
                opts.max_path,
            ),
            LayerMatchJson::CgroupContains(v) => match_error(m, opts) is None <==> text_fits(
                v@,
                opts.max_path,
            ),
            LayerMatchJson::CommPrefix(v) => match_error(m, opts) is None <==> text_fits(
                v@,
                opts.max_comm,
            ),
            LayerMatchJson::CommPrefixExclude(v) => match_error(m, opts) is None <==> text_fits(
                v@,
                opts.max_comm,
            ),
            LayerMatchJson::PcommPrefix(v) => match_error(m, opts) is None <==> text_fits(
                v@,
                opts.max_comm,
            ),
            LayerMatchJson::PcommPrefixExclude(v) => match_error(m, opts) is None <==> text_fits(
                v@,
                opts.max_comm,
            ),
            LayerMatchJson::NumaNode(n) => match_error(m, opts) is None <==> n < opts.nr_nodes,
            _ => match_error(m, opts) is None,
        },
{
}

/// Whether a text holds no zero and fits in so many bytes.
pub open spec fn text_fits(s: Seq<char>, max: usize) -> bool {
    (forall|i: int| 0 <= i < s.len() ==> #[trigger] s[i] != '\0') && byte_len(s) <= max
}

/// What a layer gives in numbers and in fractions does not go together, and fractions lie
/// between zero and one. Times must fit in nanoseconds, but for the greatest number, which
/// stands for never.
pub proof fn law_ranges_and_times_make_sense(
    kind: LayerKindJson,
    c: CommonJson,
    opts: LayerConfigOptions,
)
    ensures
        ({
            let (range, frac) = match kind {
                LayerKindJson::Confined(k) => (k.cpus_range, k.cpus_range_frac),
                LayerKindJson::Grouped(k) => (k.cpus_range, k.cpus_range_frac),
                LayerKindJson::Open(_) => (None, None),
            };
            let (zero, one) = (Double(0), Double(0x3FF0_0000_0000_0000));
            kind_error(kind) is None <==> !(range is Some && frac is Some) && (frac is Some ==> {
                &&& zero.le((frac->0).low) && (frac->0).low.le(one)
                &&& zero.le((frac->0).high) && (frac->0).high.le(one)
            })
        }),
        common_error(c, opts) is None <==> {
            &&& c.min_exec_us * 1000 <= u64::MAX && c.slice_us * 1000 <= u64::MAX
            &&& c.disallow_open_after_us is Some ==> c.disallow_open_after_us->0 == u64::MAX
                || c.disallow_open_after_us->0 * 1000 <= u64::MAX
            &&& c.disallow_preempt_after_us is Some ==> c.disallow_preempt_after_us->0 == u64::MAX
                || c.disallow_preempt_after_us->0 * 1000 <= u64::MAX
            &&& opts.scx_slice_dfl_ns * 4 <= u64::MAX
        },
{
}

/// Whether the shape of a layer is right.
pub open spec fn is_shaped_right(spec: LayerSpecJson, is_last: bool, opts: LayerConfigOptions) -> bool {
    &&& !is_last ==> spec.matches@.len() > 0
    &&& is_last ==> spec.matches@.len() == 1 && spec.matches@[0]@.len() == 0
    &&& spec.matches@.len() <= opts.max_match_ors
    &&& forall|i: int|
        0 <= i < spec.matches@.len() ==> group_is_right(#[trigger] spec.matches@[i], opts)
    &&& kind_error(spec.kind) is None
    &&& common_error(spec.kind.spec_common(), opts) is None
    &&& !spec.name@.contains('\0')
}

/// Whether a group of rules is right.
pub open spec fn group_is_right(ands: Vec<LayerMatchJson>, opts: LayerConfigOptions) -> bool {
    &&& ands@.len() <= opts.max_match_ands
    &&& forall|i: int| 0 <= i < ands@.len() ==> match_error(#[trigger] ands@[i], opts) is None
}

/// A configuration is accepted in its shape exactly if there are layers, no more than there
/// may be, and each is right: the last takes every task and the others have rules, no more
/// groups and no more rules in one than there may be, and nothing in them is wrong.
pub proof fn law_a_configuration_is_shaped_right(
    specs: Seq<LayerSpecJson>,
    opts: LayerConfigOptions,
)
    ensures
        shape_error(specs, opts) is None <==> 0 < specs.len() <= opts.max_layers && forall|i: int|
            0 <= i < specs.len() ==> is_shaped_right(
                #[trigger] specs[i],
                i == specs.len() - 1,
                opts,
            ),
{
    lemma_layers_right(specs, opts, 0);
}

proof fn lemma_layers_right(specs: Seq<LayerSpecJson>, opts: LayerConfigOptions, from: int)
    requires
        0 <= from <= specs.len(),
    ensures
        layers_error(specs, opts, from) is None <==> forall|i: int|
            from <= i < specs.len() ==> is_shaped_right(
                #[trigger] specs[i],
                i == specs.len() - 1,
                opts,
            ),
    decreases specs.len() - from,
{
    if from < specs.len() {
        lemma_layers_right(specs, opts, from + 1);
        let site = layer_site(from as nat, specs[from].name@);
        lemma_ors_right(specs[from].matches@, site, opts, 0);
        assert(layer_error(specs[from], from as nat, from == specs.len() - 1, opts) is None
            <==> is_shaped_right(specs[from], from == specs.len() - 1, opts));
    }
}

proof fn lemma_ors_right(
    ors: Seq<Vec<LayerMatchJson>>,
    site: Seq<char>,
    opts: LayerConfigOptions,
    from: int,
)
    requires
        0 <= from <= ors.len(),
    ensures
        ors_error(ors, site, opts, from) is None <==> forall|i: int|
            from <= i < ors.len() ==> group_is_right(#[trigger] ors[i], opts),
    decreases ors.len() - from,
{
    if from < ors.len() {
        lemma_ors_right(ors, site, opts, from + 1);
        lemma_ands_right(ors[from]@, site, from as nat, opts, 0);
        assert(group_is_right(ors[from], opts) <==> ors[from]@.len() <= opts.max_match_ands
            && ands_error(ors[from]@, site, from as nat, opts, 0) is None);
    }
}

proof fn lemma_ands_right(
    ands: Seq<LayerMatchJson>,
    site: Seq<char>,
    or_id: nat,
    opts: LayerConfigOptions,
    from: int,
)
    requires
        0 <= from <= ands.len(),
    ensures
        ands_error(ands, site, or_id, opts, from) is None <==> forall|i: int|
            from <= i < ands.len() ==> match_error(#[trigger] ands[i], opts) is None,
    decreases ands.len() - from,
{
    if from < ands.len() {
        lemma_ands_right(ands, site, or_id, opts, from + 1);
    }
}

/// What is not applied is told: what was waived first, then what the scheduler ignores
/// too, then the notes, one line each.
pub proof fn law_every_caveat_has_its_line(
    waived: Seq<RejectionView>,
    deprecated: Seq<RejectionView>,
    notes: Seq<Seq<char>>,
    i: int,
)
    ensures
        ({
            let all = caveat_texts(waived, deprecated, notes);
            let (a, b) = (waived.len() as int, deprecated.len() as int);
            &&& all.len() == a + b + notes.len()
            &&& 0 <= i < a ==> all[i] == "DROPPED (waived): "@ + rejection_text(waived[i])
            &&& 0 <= i < b ==> all[a + i] == "ignored, as scx_layered also ignores it: "@
                + rejection_text(deprecated[i])
            &&& 0 <= i < notes.len() ==> all[a + b + i] == notes[i]
        }),
{
}

/// What an error says begins with what kind of error it is; an invalid configuration is
/// told why; both kinds of trouble are told one after the other.
pub proof fn law_errors_are_told_by_their_kind(
    keys: Seq<Seq<char>>,
    why: Seq<char>,
    r: Seq<RejectionView>,
)
    ensures
        error_text(ConfigErrorView::Invalid(why)) == "invalid layer config: "@ + why,
        error_text(ConfigErrorView::UnknownKeys(keys)) == unknown_text(keys),
        error_text(ConfigErrorView::Unsupported(r)) == unsupported_text(r),
        error_text(ConfigErrorView::Both { unknown: keys, unsupported: r }) == unknown_text(keys)
            + "\n"@ + unsupported_text(r),
{
}

/// Every unknown key and every rejection has a line of its own; a rejection is told by
/// where it stands, by its name and by its reason.
pub proof fn law_every_trouble_has_its_line(
    keys: Seq<Seq<char>>,
    r: Seq<RejectionView>,
    n: nat,
    m: nat,
)
    requires
        0 < n <= keys.len(),
        0 < m <= r.len(),
    ensures
        key_lines(keys, n) == key_lines(keys, (n - 1) as nat) + "  "@ + keys[n - 1] + "\n"@,
        rejection_lines(r, m) == rejection_lines(r, (m - 1) as nat) + "  "@ + (r[m - 1].site
            + ": "@ + item_name(r[m - 1].item) + " — "@ + item_reason(r[m - 1].item)) + "\n"@,
        waivable_count(r, m) == waivable_count(r, (m - 1) as nat) + (if r[m
            - 1].item is FieldIdleResumeUs || r[m - 1].item is FieldMembwGb || r[m
            - 1].item is FieldUtilPeakHalfLifeMs {
            1nat
        } else {
            0nat
        }),
        key_lines(keys, 0).len() == 0 && rejection_lines(r, 0).len() == 0 && waivable_count(r, 0)
            == 0,
{
}

/// Why a name cannot be waived: it is fatal, it is ignored anyway, or it is no item.
pub proof fn law_names_that_cannot_be_waived_are_told_why(u: Unsupported, name: Seq<char>)
    ensures
        item_disposition(u) is Fatal ==> no_waiver_text(item_name(u)) == item_name(u)
            + ": not waivable — "@
            + "dropping a match rule changes which tasks the layer captures"@,
        item_disposition(u) is DeprecatedUpstream ==> no_waiver_text(item_name(u)) == item_name(u)
            + ": not waivable — "@ + "scx_layered ignores it too, so there is nothing to waive"@,
        item_named(name, 0) is None ==> no_waiver_text(name) == name
            + ": not a refusable scx_layered config field"@,
{
    law_items_are_found_by_name(u, name);
}

/// A layer and a rule are told by where they stand; a rule that can never hold is told.
pub proof fn law_sites_are_told_by_their_places(
    f: FindingsView,
    index: nat,
    name: Seq<char>,
    i: nat,
    j: nat,
    lo: u64,
    hi: u64,
    waived: Seq<Unsupported>,
)
    ensures
        layer_site(index, name) == "layers["@ + decimal(index) + "] "@ + shown_quoted(name),
        match_site(name, i, j) == name + " matches["@ + decimal(i) + "]["@ + decimal(j) + "]"@,
        lo < hi ==> match_findings(f, LayerMatchJson::AvgRuntime(lo, hi), name, waived) == f,
        lo >= hi ==> match_findings(f, LayerMatchJson::AvgRuntime(lo, hi), name, waived)
            == f.with_note(dead_rule_text(name, lo, hi)),
{
}

/// The kinds of layers are what they are called, and only those that hold CPUs can ask for
/// a memory bandwidth.
pub proof fn law_kinds_are_what_they_are_called(c: ConfinedJson, g: GroupedJson, o: CommonJson)
    ensures
        LayerKindJson::Confined(c).spec_kind() is Confined && LayerKindJson::Confined(c).spec_name()
            == "Confined"@ && LayerKindJson::Confined(c).spec_common() == c.common,
        LayerKindJson::Grouped(g).spec_kind() is Grouped && LayerKindJson::Grouped(g).spec_name()
            == "Grouped"@ && LayerKindJson::Grouped(g).spec_common() == g.common,
        LayerKindJson::Open(o).spec_kind() is Open && LayerKindJson::Open(o).spec_name()
            == "Open"@ && LayerKindJson::Open(o).spec_common() == o,
        sets_membw(LayerKindJson::Confined(c)) == c.membw_gb,
        sets_membw(LayerKindJson::Grouped(g)) == g.membw_gb,
        !sets_membw(LayerKindJson::Open(o)),
{
}

/// In a layer that takes every task nothing is found but what its fields ask for: a
/// template exactly if it is one, a bandwidth exactly if it sets one.
pub proof fn law_templates_and_bandwidths_are_found(
    js: LayerSpecJson,
    site: Seq<char>,
    opts: LayerConfigOptions,
)
    requires
        forall|i: int| 0 <= i < js.matches@.len() ==> (#[trigger] js.matches@[i])@.len() == 0,
    ensures
        ({
            let f = spec_findings(FindingsView::nothing(), js, site, opts);
            &&& f.mentions(site, Unsupported::FieldTemplate) <==> js.template
            &&& f.mentions(site, Unsupported::FieldMembwGb) <==> sets_membw(js.kind)
        }),
{
    let c = js.kind.spec_common();
    let w = opts.waived@;
    let f0 = FindingsView::nothing().with_item_if(
        js.template,
        site,
        Unsupported::FieldTemplate,
        w,
    );
    let f1 = common_findings(f0, c, site, js.kind.spec_name(), w);
    let f2 = f1.with_item_if(sets_membw(js.kind), site, Unsupported::FieldMembwGb, w);
    lemma_no_rules(f2, js.matches@, site, w, js.matches@.len());
    lemma_mentions(FindingsView::nothing(), site, Unsupported::FieldTemplate, w, Unsupported::FieldTemplate);
    lemma_mentions(FindingsView::nothing(), site, Unsupported::FieldTemplate, w, Unsupported::FieldMembwGb);
    lemma_common_keeps(f0, c, site, js.kind.spec_name(), w, Unsupported::FieldTemplate);
    lemma_common_keeps(f0, c, site, js.kind.spec_name(), w, Unsupported::FieldMembwGb);
    lemma_mentions(f1, site, Unsupported::FieldMembwGb, w, Unsupported::FieldTemplate);
    lemma_mentions(f1, site, Unsupported::FieldMembwGb, w, Unsupported::FieldMembwGb);
    assert(!FindingsView::nothing().mentions(site, Unsupported::FieldTemplate));
    assert(!FindingsView::nothing().mentions(site, Unsupported::FieldMembwGb));
}

proof fn lemma_no_rules(
    f: FindingsView,
    ors: Seq<Vec<LayerMatchJson>>,
    site: Seq<char>,
    waived: Seq<Unsupported>,
    n: nat,
)
    requires
        n <= ors.len(),
        forall|i: int| 0 <= i < ors.len() ==> (#[trigger] ors[i])@.len() == 0,
    ensures
        ors_findings(f, ors, site, waived, n) == f,
    decreases n,
{
    if n > 0 {
        lemma_no_rules(f, ors, site, waived, (n - 1) as nat);
        assert(ors[n - 1]@.len() == 0);
    }
}

proof fn lemma_common_keeps(
    f: FindingsView,
    c: CommonJson,
    site: Seq<char>,
    kind_name: Seq<char>,
    w: Seq<Unsupported>,
    u: Unsupported,
)
    requires
        u is FieldTemplate || u is FieldMembwGb,
    ensures
        common_findings(f, c, site, kind_name, w).mentions(site, u) <==> f.mentions(site, u),
{
    let f0 = keys_findings(f, c.unknown@, site, kind_name, c.unknown@.len());
    lemma_keys_mention_nothing(f, c.unknown@, site, kind_name, c.unknown@.len());
    let f1 = f0.with_item_if(
        c.growth_algo is Some && (c.growth_algo->0).spec_needs_cpusets(),
        site,
        Unsupported::GrowthCpuSetSpread,
        w,
    );
    lemma_mentions(f0, site, Unsupported::GrowthCpuSetSpread, w, u);
    let f2 = f1.with_item_if(
        c.growth_algo == Some(LayerGrowthAlgo::StickyDynamic),
        site,
        Unsupported::GrowthStickyDynamic,
        w,
    );
    lemma_mentions(f1, site, Unsupported::GrowthStickyDynamic, w, u);
    let f3 = f2.with_item_if(
        c.idle_resume_us is Some && c.idle_resume_us->0 > 0,
        site,
        Unsupported::FieldIdleResumeUs,
        w,
    );
    lemma_mentions(f2, site, Unsupported::FieldIdleResumeUs, w, u);
    let f4 = f3.with_item_if(
        c.util_peak_half_life_ms is Some && c.util_peak_half_life_ms->0 > 0,
        site,
        Unsupported::FieldUtilPeakHalfLifeMs,
        w,
    );
    lemma_mentions(f3, site, Unsupported::FieldUtilPeakHalfLifeMs, w, u);
    let f5 = f4.with_item_if(
        c.allow_node_aligned is Some,
        site,
        Unsupported::FieldAllowNodeAligned,
        w,
    );
    lemma_mentions(f4, site, Unsupported::FieldAllowNodeAligned, w, u);
    lemma_mentions(f5, site, Unsupported::FieldIdleSmt, w, u);
}

/// A layer takes every task exactly if one of its groups has no rules.
pub proof fn law_a_group_without_rules_takes_every_task(js: LayerSpecJson, i: int)
    ensures
        0 <= i < js.matches@.len() && js.matches@[i]@.len() == 0 ==> takes_all(js),
        (forall|k: int| 0 <= k < js.matches@.len() ==> (#[trigger] js.matches@[k])@.len() > 0)
            ==> !takes_all(js),
{
}

/// What is said of unknown keys and of items that are not applied counts them, lists them,
/// and says which can be waived.
pub proof fn law_troubles_are_counted_and_listed(keys: Seq<Seq<char>>, r: Seq<RejectionView>)
    ensures
        unknown_text(keys) == "layer config has "@ + decimal(keys.len())
            + " key(s) that no layer kind in scxsim's mirror of scx_layered's schema has:\n"@
            + key_lines(keys, keys.len())
            + "Either a typo — in which case nothing would have applied it — or a field scx_layered gained since the mirror in safe/layered_config.rs was written against the pinned submodule. Both want a look; neither is safe to ignore."@,
        waivable_count(r, r.len()) == 0 ==> unsupported_text(r) == "layer config asks for "@
            + decimal(r.len()) + " thing(s) scxsim does not apply:\n"@ + rejection_lines(r, r.len())
            + "None of these can be waived: dropping a match rule does not lose fidelity, it changes which tasks the layer captures."@,
        waivable_count(r, r.len()) == r.len() && r.len() > 0 ==> unsupported_text(r)
            == "layer config asks for "@ + decimal(r.len())
            + " thing(s) scxsim does not apply:\n"@ + rejection_lines(r, r.len()) + (
        "Waivable with --layer-config-drop, accepting that they are NOT applied: "@
            + waivable_names(r, r.len()) + Seq::empty()),
{
}

} // verus!
