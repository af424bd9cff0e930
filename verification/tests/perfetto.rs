use perfetto_protos::debug_annotation::debug_annotation;
use perfetto_protos::trace::Trace as TraceProto;
use perfetto_protos::trace_packet::trace_packet;
use perfetto_protos::track_event::{track_event, TrackEvent};
use protobuf::Message;
use scx_simulator::perfetto::{
    collect_task_pids, cpu_track_uuid, event_pid, format_dsq_id, task_track_uuid, write_pb,
    written, WriteError,
};
use scx_simulator::scenario::FutexOp;
use scx_simulator::trace::{Trace, TraceKind};
use scx_simulator::types::{CgroupId, CpuId, DsqId, Pid};

fn parse(trace: &Trace) -> TraceProto {
    let buf = match write_pb(trace) {
        Ok(buf) => buf,
        Err(_) => panic!("write_pb failed"),
    };
    TraceProto::parse_from_bytes(&buf).expect("parse_from_bytes failed")
}

fn instants<'a>(proto: &'a TraceProto, categories: &[&str]) -> Vec<&'a TrackEvent> {
    let mut found: Vec<&TrackEvent> = Vec::new();
    for packet in &proto.packet {
        if let Some(trace_packet::Data::TrackEvent(ev)) = &packet.data {
            let wanted = ev.categories.iter().any(|c| categories.contains(&c.as_str()));
            let is_instant = ev.type_.as_ref().map(|t| t.enum_value_or_default())
                == Some(track_event::Type::TYPE_INSTANT);
            if wanted && is_instant {
                found.push(ev);
            }
        }
    }
    found
}

fn name_of(ev: &TrackEvent) -> Option<&str> {
    ev.name_field.as_ref().and_then(|n| match n {
        track_event::Name_field::Name(s) => Some(s.as_str()),
        _ => None,
    })
}

fn has_annotation(ev: &TrackEvent, name: &str) -> bool {
    ev.debug_annotations.iter().any(|ann| match &ann.name_field {
        Some(debug_annotation::Name_field::Name(n)) => n == name,
        _ => false,
    })
}

#[test]
fn kick_cpu_uses_wprof_ipi_send_naming() {
    // 4-CPU trace, one KickCpu instant.
    let mut trace = Trace::with_warmup(4, vec![], 0);
    trace.record(
        1_234,
        CpuId(0),
        TraceKind::KickCpu {
            target_cpu: CpuId(3),
        },
    );
    let proto = parse(&trace);
    let kick_events = instants(&proto, &["IPI_SEND", "IPI_SEND:resched"]);
    assert_eq!(kick_events.len(), 1, "expected exactly one IPI_SEND* TrackEvent");
    let ev = kick_events[0];
    assert!(
        ev.categories.iter().any(|c| c == "IPI_SEND"),
        "KickCpu TrackEvent must use category 'IPI_SEND'; got {:?}",
        ev.categories,
    );
    assert!(!ev.categories.iter().any(|c| c == "IPI_SEND:resched"));
    assert_eq!(
        name_of(ev),
        Some("IPI_SEND:single"),
        "KickCpu TrackEvent name must be 'IPI_SEND:single'",
    );
    assert!(
        has_annotation(ev, "sender_cpu"),
        "KickCpu TrackEvent missing sender_cpu annotation",
    );
    assert!(
        has_annotation(ev, "target_cpu"),
        "KickCpu TrackEvent missing target_cpu annotation",
    );
}

#[test]
fn tick_uses_wprof_softirq_naming() {
    // 4-CPU trace, one Tick instant.
    let mut trace = Trace::with_warmup(4, vec![], 0);
    trace.record(5_678, CpuId(2), TraceKind::Tick { pid: Pid(0) });
    let proto = parse(&trace);
    let tick_events = instants(&proto, &["SOFTIRQ", "SOFTIRQ:timer"]);
    assert_eq!(
        tick_events.len(),
        1,
        "expected exactly one SOFTIRQ* TrackEvent for one Tick",
    );
    let ev = tick_events[0];
    assert!(
        ev.categories.iter().any(|c| c == "SOFTIRQ"),
        "Tick TrackEvent must use category 'SOFTIRQ'; got {:?}",
        ev.categories,
    );
    assert!(!ev.categories.iter().any(|c| c == "SOFTIRQ:timer"));
    assert_eq!(name_of(ev), Some("SOFTIRQ:timer"));
    assert_ne!(name_of(ev), Some("tick"));
    assert!(has_annotation(ev, "cpu"), "Tick TrackEvent missing cpu annotation");
}

#[test]
fn packets_hold_what_was_recorded() {
    let mut trace = Trace::with_warmup(1, vec![(Pid(7), "worker".to_string())], 0);
    trace.record(40, CpuId(0), TraceKind::TaskScheduled { pid: Pid(7) });
    let proto = parse(&trace);
    assert!(proto.packet.len() >= 3);
    let mut tracks: Vec<u64> = Vec::new();
    let mut slices: Vec<(u64, Option<u64>)> = Vec::new();
    for p in &proto.packet {
        assert_eq!(p.trusted_packet_sequence_id(), 1);
        match &p.data {
            Some(trace_packet::Data::TrackDescriptor(d)) => tracks.push(d.uuid()),
            Some(trace_packet::Data::TrackEvent(e)) => slices.push((p.timestamp(), e.track_uuid)),
            _ => panic!("unexpected packet"),
        }
    }
    assert!(tracks.contains(&task_track_uuid(Pid(7))));
    assert!(tracks.contains(&cpu_track_uuid(CpuId(0))));
    assert!(!slices.is_empty());
    for (time, track) in slices {
        assert_eq!(time, 40);
        assert!(tracks.contains(&track.unwrap()));
    }
}

#[test]
fn events_know_their_task() {
    assert_eq!(
        event_pid(&TraceKind::TaskWoke { pid: Pid(3) }),
        Some(Pid(3))
    );
    assert_eq!(event_pid(&TraceKind::CpuIdle), None);
    let mut trace = Trace::with_warmup(1, vec![], 0);
    trace.record(1, CpuId(0), TraceKind::TaskWoke { pid: Pid(9) });
    trace.record(2, CpuId(0), TraceKind::TaskWoke { pid: Pid(3) });
    trace.record(3, CpuId(0), TraceKind::TaskSlept { pid: Pid(9) });
    assert_eq!(collect_task_pids(&trace), vec![Pid(3), Pid(9)]);
}

#[test]
fn queues_have_names() {
    assert_eq!(format_dsq_id(DsqId(5)), "0x5");
}

#[test]
fn a_trace_that_cannot_be_serialised_has_no_bytes() {
    let failed = protobuf::Error::from(std::io::Error::from(std::io::ErrorKind::InvalidData));
    assert_eq!(written(Err(failed)), Err(WriteError::Encode));
    assert_eq!(written(Ok(vec![1, 2, 3])), Ok(vec![1, 2, 3]));
}

#[test]
fn bandwidth_events_share_a_category() {
    let mut trace = Trace::with_warmup(4, vec![], 0);
    let (pid, cgid) = (Pid(1), CgroupId(2));
    trace.record(10, CpuId(1), TraceKind::CgroupBwDequeueOnThrottle { pid, cgid });
    trace.record(11, CpuId(1), TraceKind::CgroupBwReenqueueOnReplenish { pid, cgid });
    trace.record(12, CpuId(1), TraceKind::CgroupBwConsumeNs { cgid, ns: 7 });
    trace.record(13, CpuId(1), TraceKind::CgroupBwDenied { pid, cgid });
    let proto = parse(&trace);
    let shown = instants(&proto, &["SCXSIM_CGROUP_BW"]);
    let names: Vec<Option<&str>> = shown.iter().map(|ev| name_of(ev)).collect();
    let expected = vec![
        Some("cgroup_bw_dequeue_on_throttle"),
        Some("cgroup_bw_reenqueue_on_replenish"),
        Some("cgroup_bw_consume"),
        Some("cgroup_bw_denied"),
    ];
    assert_eq!(names, expected);
    for ev in shown {
        assert_eq!(ev.categories.len(), 1);
    }
}

#[test]
fn futex_boosts_name_their_task_and_operation() {
    let mut trace = Trace::with_warmup(1, vec![], 0);
    trace.futex_texts = vec!["Acquire".to_string(), "Release { ret: 0 }".to_string()];
    let op = FutexOp { op: 1, ret: 0, text: 1 };
    let kind = TraceKind::FutexBoost { pid: Pid(3), op, boosted: true };
    assert_eq!(event_pid(&kind), Some(Pid(3)));
    trace.record(5, CpuId(0), kind);
    assert_eq!(collect_task_pids(&trace), vec![Pid(3)]);
    let proto = parse(&trace);
    let shown = instants(&proto, &["SCXSIM_STRUCTOP"]);
    assert_eq!(shown.len(), 1);
    let text = shown[0].debug_annotations.iter().find_map(|ann| match &ann.value {
        Some(debug_annotation::Value::StringValue(s)) => Some(s.as_str()),
        _ => None,
    });
    assert_eq!(text, Some("Release { ret: 0 }"));
}
