use host_snapshot::correlate::match_processes_to_ports;
use host_snapshot::json::snapshot_to_json;
use host_snapshot::netstat::{parse_netstat_output, ConnectionEntry};
use host_snapshot::process_table::ProcessTable;

fn entry(port: u16, pid: i32) -> ConnectionEntry {
    ConnectionEntry { port, owning_process_id: pid }
}

fn table(pairs: &[(i32, &str)]) -> ProcessTable {
    let mut t = ProcessTable::new();
    for (pid, name) in pairs {
        t.insert(*pid, name.as_bytes().to_vec());
    }
    t
}

#[test]
fn one_record_per_pid_with_ports_in_discovery_order() {
    let t = table(&[(10, "svc.exe"), (20, "db.exe")]);
    let entries = vec![entry(80, 10), entry(5432, 20), entry(443, 10), entry(8080, 10)];
    let snap = match_processes_to_ports(&t, &entries);
    assert_eq!(snap.processes.len(), 2);
    assert_eq!(snap.processes[0].process_id, 10);
    assert_eq!(snap.processes[0].process_name, b"svc.exe".to_vec());
    assert_eq!(snap.processes[0].ports, vec![80, 443, 8080]);
    assert_eq!(snap.processes[1].process_id, 20);
    assert_eq!(snap.processes[1].ports, vec![5432]);
}

#[test]
fn absent_pid_contributes_nothing() {
    let t = table(&[(10, "svc.exe")]);
    let entries = vec![entry(80, 10), entry(22, 99), entry(443, 10)];
    let snap = match_processes_to_ports(&t, &entries);
    assert_eq!(snap.processes.len(), 1);
    assert_eq!(snap.processes[0].process_id, 10);
    assert_eq!(snap.processes[0].ports, vec![80, 443]);
}

#[test]
fn all_pids_absent_gives_empty_snapshot() {
    let t = ProcessTable::new();
    let entries = vec![entry(80, 1), entry(443, 2)];
    let snap = match_processes_to_ports(&t, &entries);
    assert_eq!(snap.processes.len(), 0);
}

#[test]
fn records_come_in_first_seen_order() {
    let t = table(&[(1, "a"), (2, "b"), (3, "c")]);
    let entries = vec![entry(3, 3), entry(1, 1), entry(2, 2), entry(4, 1)];
    let snap = match_processes_to_ports(&t, &entries);
    let ids: Vec<i32> = snap.processes.iter().map(|r| r.process_id).collect();
    assert_eq!(ids, vec![3, 1, 2]);
}

#[test]
fn duplicate_ports_are_kept() {
    let t = table(&[(10, "svc.exe")]);
    let entries = vec![entry(80, 10), entry(80, 10)];
    let snap = match_processes_to_ports(&t, &entries);
    assert_eq!(snap.processes[0].ports, vec![80, 80]);
}

#[test]
fn later_table_entry_for_same_pid_wins() {
    let mut t = ProcessTable::new();
    t.insert(10, b"old.exe".to_vec());
    t.insert(10, b"new.exe".to_vec());
    let entries = vec![entry(80, 10)];
    let snap = match_processes_to_ports(&t, &entries);
    assert_eq!(snap.processes[0].process_name, b"new.exe".to_vec());
}

#[test]
fn lookup_reports_presence() {
    let t = table(&[(10, "svc.exe")]);
    assert_eq!(t.lookup(10), Some(b"svc.exe".to_vec()));
    assert_eq!(t.lookup(11), None);
}

#[test]
fn empty_listing_still_yields_empty_processes_document() {
    let lines: Vec<Vec<u8>> = Vec::new();
    let entries = parse_netstat_output(&lines);
    let t = table(&[(4, "system")]);
    let snap = match_processes_to_ports(&t, &entries);
    let bytes = snapshot_to_json(&snap);
    assert_eq!(String::from_utf8(bytes).unwrap(), "{\n  \"processes\": []\n}");
}
