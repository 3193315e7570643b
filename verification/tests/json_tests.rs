use host_snapshot::correlate::{ProcessPortRecord, ProcessPortSnapshot};
use host_snapshot::events::{EventSnapshot, LogEventRecord};
use host_snapshot::json::{events_to_json, snapshot_to_json};

fn one_record_snapshot() -> ProcessPortSnapshot {
    ProcessPortSnapshot {
        processes: vec![
            ProcessPortRecord {
                process_id: 1234,
                process_name: b"svc.exe".to_vec(),
                ports: vec![80, 443],
            },
        ],
    }
}

#[test]
fn empty_snapshot_renders_empty_processes_object() {
    let snap = ProcessPortSnapshot { processes: Vec::new() };
    let bytes = snapshot_to_json(&snap);
    assert_eq!(String::from_utf8(bytes).unwrap(), "{\n  \"processes\": []\n}");
}

#[test]
fn one_record_snapshot_renders_pretty_object() {
    let bytes = snapshot_to_json(&one_record_snapshot());
    let expected = "{\n  \"processes\": [\n    \
{\"pid\": 1234, \"name\": \"svc.exe\", \"ports\": [80, 443]}\n  ]\n}";
    assert_eq!(String::from_utf8(bytes).unwrap(), expected);
}

#[test]
fn snapshot_round_trips_through_a_json_parser() {
    let snap = one_record_snapshot();
    let bytes = snapshot_to_json(&snap);
    let v: serde_json::Value = serde_json::from_slice(&bytes).unwrap();
    let procs = v["processes"].as_array().unwrap();
    assert_eq!(procs.len(), 1);
    let rebuilt = ProcessPortRecord {
        process_id: procs[0]["pid"].as_i64().unwrap() as i32,
        process_name: procs[0]["name"].as_str().unwrap().as_bytes().to_vec(),
        ports: procs[0]["ports"]
            .as_array()
            .unwrap()
            .iter()
            .map(|p| p.as_u64().unwrap() as u16)
            .collect(),
    };
    assert_eq!(rebuilt.process_id, snap.processes[0].process_id);
    assert_eq!(rebuilt.process_name, snap.processes[0].process_name);
    assert_eq!(rebuilt.ports, snap.processes[0].ports);
}

#[test]
fn names_needing_escapes_round_trip() {
    let snap = ProcessPortSnapshot {
        processes: vec![
            ProcessPortRecord {
                process_id: 1,
                process_name: b"a\"b\\c\td".to_vec(),
                ports: vec![1],
            },
        ],
    };
    let bytes = snapshot_to_json(&snap);
    let v: serde_json::Value = serde_json::from_slice(&bytes).unwrap();
    assert_eq!(v["processes"][0]["name"].as_str().unwrap(), "a\"b\\c\td");
}

#[test]
fn negative_pid_renders_with_sign() {
    let snap = ProcessPortSnapshot {
        processes: vec![
            ProcessPortRecord { process_id: -5, process_name: b"x".to_vec(), ports: vec![9] },
        ],
    };
    let bytes = snapshot_to_json(&snap);
    let v: serde_json::Value = serde_json::from_slice(&bytes).unwrap();
    assert_eq!(v["processes"][0]["pid"].as_i64().unwrap(), -5);
}

#[test]
fn empty_event_batch_renders_bare_brackets() {
    let bytes = events_to_json(&EventSnapshot { events: Vec::new() });
    assert_eq!(String::from_utf8(bytes).unwrap(), "[]");
}

#[test]
fn event_records_render_as_pretty_array() {
    let events = vec![
        LogEventRecord { event_id: 41, provider_name: b"Kernel".to_vec(), level: 2 },
        LogEventRecord { event_id: 7, provider_name: b"Disk".to_vec(), level: 1 },
    ];
    let bytes = events_to_json(&EventSnapshot { events });
    let expected = "[\n  {\"event_id\": 41, \"provider_name\": \"Kernel\", \"level\": 2},\n  \
{\"event_id\": 7, \"provider_name\": \"Disk\", \"level\": 1}\n]";
    assert_eq!(String::from_utf8(bytes).unwrap(), expected);
}

#[test]
fn event_batch_round_trips_through_a_json_parser() {
    let events = vec![
        LogEventRecord { event_id: 4294967295, provider_name: b"P".to_vec(), level: 5 },
    ];
    let bytes = events_to_json(&EventSnapshot { events });
    let v: serde_json::Value = serde_json::from_slice(&bytes).unwrap();
    assert_eq!(v[0]["event_id"].as_u64().unwrap(), 4294967295);
    assert_eq!(v[0]["provider_name"].as_str().unwrap(), "P");
    assert_eq!(v[0]["level"].as_u64().unwrap(), 5);
}
