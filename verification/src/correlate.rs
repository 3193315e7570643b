//! Correlating connection entries with the process table: one record per
//! distinct owning process, created on its first port and extended, in
//! discovery order, on every later one. Entries whose process id is absent
//! from the table are dropped silently (the process exited between
//! enumeration and lookup).

use vstd::prelude::*;
use crate::netstat::ConnectionEntry;
use crate::process_table::ProcessTable;

verus! {

/// One process and the listening ports discovered for it, in discovery
/// order, duplicates kept. The name is UTF-8 bytes.
#[derive(Debug)]
pub struct ProcessPortRecord {
    pub process_id: i32,
    pub process_name: Vec<u8>,
    pub ports: Vec<u16>,
}

impl View for ProcessPortRecord {
    type V = (i32, Seq<u8>, Seq<u16>);

    open spec fn view(&self) -> (i32, Seq<u8>, Seq<u16>) {
        (self.process_id, self.process_name@, self.ports@)
    }
}

impl DeepView for ProcessPortRecord {
    type V = (i32, Seq<u8>, Seq<u16>);

    open spec fn deep_view(&self) -> (i32, Seq<u8>, Seq<u16>) {
        self.view()
    }
}

/// The root entity written as `process_ports.json`.
pub struct ProcessPortSnapshot {
    pub processes: Vec<ProcessPortRecord>,
}

impl View for ProcessPortSnapshot {
    type V = Seq<(i32, Seq<u8>, Seq<u16>)>;

    open spec fn view(&self) -> Seq<(i32, Seq<u8>, Seq<u16>)> {
        self.processes.deep_view()
    }
}

/// Some record carries `pid`.
pub open spec fn has_pid(rs: Seq<(i32, Seq<u8>, Seq<u16>)>, pid: i32) -> bool {
    exists|k: int| 0 <= k < rs.len() && (#[trigger] rs[k]).0 == pid
}

/// The first index whose record carries `pid`.
pub open spec fn idx_of(rs: Seq<(i32, Seq<u8>, Seq<u16>)>, pid: i32) -> int
    decreases rs.len(),
{
    if rs.len() == 0 {
        0
    } else if rs[0].0 == pid {
        0
    } else {
        1 + idx_of(rs.drop_first(), pid)
    }
}

pub proof fn lemma_idx_of(rs: Seq<(i32, Seq<u8>, Seq<u16>)>, pid: i32)
    requires
        has_pid(rs, pid),
    ensures
        0 <= idx_of(rs, pid) < rs.len(),
        rs[idx_of(rs, pid)].0 == pid,
        forall|k: int| 0 <= k < idx_of(rs, pid) ==> (#[trigger] rs[k]).0 != pid,
    decreases rs.len(),
{
    if rs[0].0 == pid {
    } else {
        let w = choose|k: int| 0 <= k < rs.len() && (#[trigger] rs[k]).0 == pid;
        assert(w > 0);
        let d = rs.drop_first();
        assert(d[w - 1] == rs[w]);
        assert(has_pid(d, pid));
        lemma_idx_of(d, pid);
        assert forall|k: int| 0 <= k < idx_of(rs, pid) implies (#[trigger] rs[k]).0 != pid by {
            if k > 0 {
                assert(rs[k] == d[k - 1]);
            }
        }
    }
}

/// The first index is the one before which no record carries `pid`.
pub proof fn lemma_first_idx(rs: Seq<(i32, Seq<u8>, Seq<u16>)>, pid: i32, j: int)
    requires
        0 <= j < rs.len(),
        rs[j].0 == pid,
        forall|k: int| 0 <= k < j ==> (#[trigger] rs[k]).0 != pid,
    ensures
        has_pid(rs, pid),
        idx_of(rs, pid) == j,
    decreases rs.len(),
{
    assert(has_pid(rs, pid));
    if j > 0 {
        let d = rs.drop_first();
        assert(d[j - 1] == rs[j]);
        assert forall|k: int| 0 <= k < j - 1 implies (#[trigger] d[k]).0 != pid by {
            assert(d[k] == rs[k + 1]);
        }
        lemma_first_idx(d, pid, j - 1);
    }
}

/// Equal ids, index by index, give the same first index.
proof fn lemma_same_pids_same_idx(
    rs1: Seq<(i32, Seq<u8>, Seq<u16>)>,
    rs2: Seq<(i32, Seq<u8>, Seq<u16>)>,
    pid: i32,
)
    requires
        rs1.len() == rs2.len(),
        forall|k: int| 0 <= k < rs1.len() ==> (#[trigger] rs1[k]).0 == (#[trigger] rs2[k]).0,
        has_pid(rs1, pid),
    ensures
        has_pid(rs2, pid),
        idx_of(rs2, pid) == idx_of(rs1, pid),
{
    lemma_idx_of(rs1, pid);
    let i = idx_of(rs1, pid);
    assert(rs2[i].0 == pid);
    assert forall|k: int| 0 <= k < i implies (#[trigger] rs2[k]).0 != pid by {
        assert(rs1[k].0 != pid);
    }
    lemma_first_idx(rs2, pid, i);
}

/// The correlation of connection entries with the process table, entry by
/// entry from the left: an entry whose id the table lacks is dropped; one
/// whose id already has a record appends its port there; any other opens a
/// new record at the end, seeded with the table's display name.
pub open spec fn correlate(t: Map<i32, Seq<u8>>, es: Seq<(u16, i32)>) -> Seq<
    (i32, Seq<u8>, Seq<u16>),
>
    decreases es.len(),
{
    if es.len() == 0 {
        Seq::empty()
    } else {
        let prev = correlate(t, es.drop_last());
        let port = es.last().0;
        let pid = es.last().1;
        if !t.contains_key(pid) {
            prev
        } else if has_pid(prev, pid) {
            let i = idx_of(prev, pid);
            prev.update(i, (prev[i].0, prev[i].1, prev[i].2.push(port)))
        } else {
            prev.push((pid, t[pid], seq![port]))
        }
    }
}

/// No two records carry the same process id.
pub open spec fn distinct_pids(rs: Seq<(i32, Seq<u8>, Seq<u16>)>) -> bool {
    forall|a: int, b: int|
        0 <= a < b < rs.len() ==> (#[trigger] rs[a]).0 != (#[trigger] rs[b]).0
}

/// A process id is unique within the correlation's result.
pub proof fn lemma_correlate_distinct(t: Map<i32, Seq<u8>>, es: Seq<(u16, i32)>)
    ensures
        distinct_pids(correlate(t, es)),
    decreases es.len(),
{
    if es.len() > 0 {
        lemma_correlate_distinct(t, es.drop_last());
        let prev = correlate(t, es.drop_last());
        let port = es.last().0;
        let pid = es.last().1;
        if t.contains_key(pid) {
            if has_pid(prev, pid) {
                lemma_idx_of(prev, pid);
                let i = idx_of(prev, pid);
                let rs = prev.update(i, (prev[i].0, prev[i].1, prev[i].2.push(port)));
                assert forall|k: int| 0 <= k < rs.len() implies (#[trigger] rs[k]).0
                    == prev[k].0 by {}
            } else {
                let rs = prev.push((pid, t[pid], seq![port]));
                assert forall|a: int, b: int| 0 <= a < b < rs.len() implies (#[trigger] rs[a]).0
                    != (#[trigger] rs[b]).0 by {
                    if b < prev.len() {
                    } else {
                        assert(rs[a] == prev[a]);
                        assert(!(prev[a].0 == pid));
                    }
                }
            }
        }
    }
}

/// The ports that entries with a given process id contribute, in entry
/// order, duplicates kept.
pub open spec fn ports_of(es: Seq<(u16, i32)>, pid: i32) -> Seq<u16>
    decreases es.len(),
{
    if es.len() == 0 {
        Seq::empty()
    } else {
        let p = ports_of(es.drop_last(), pid);
        if es.last().1 == pid {
            p.push(es.last().0)
        } else {
            p
        }
    }
}

/// A process id the table lacks contributes no record at all.
pub proof fn lemma_absent_pid_no_record(t: Map<i32, Seq<u8>>, es: Seq<(u16, i32)>, pid: i32)
    requires
        !t.contains_key(pid),
    ensures
        !has_pid(correlate(t, es), pid),
    decreases es.len(),
{
    if es.len() > 0 {
        lemma_absent_pid_no_record(t, es.drop_last(), pid);
        let prev = correlate(t, es.drop_last());
        let port = es.last().0;
        let pid2 = es.last().1;
        if t.contains_key(pid2) {
            if has_pid(prev, pid2) {
                lemma_idx_of(prev, pid2);
                let i = idx_of(prev, pid2);
                let rs = prev.update(i, (prev[i].0, prev[i].1, prev[i].2.push(port)));
                if has_pid(rs, pid) {
                    let w = choose|k: int| 0 <= k < rs.len() && (#[trigger] rs[k]).0 == pid;
                    assert(prev[w].0 == pid);
                }
            } else {
                let rs = prev.push((pid2, t[pid2], seq![port]));
                if has_pid(rs, pid) {
                    let w = choose|k: int| 0 <= k < rs.len() && (#[trigger] rs[k]).0 == pid;
                    assert(w < prev.len() ==> prev[w].0 == pid);
                }
            }
        }
    }
}

/// A process id with no entry has no record.
proof fn lemma_no_entries_no_record(t: Map<i32, Seq<u8>>, es: Seq<(u16, i32)>, pid: i32)
    requires
        ports_of(es, pid).len() == 0,
    ensures
        !has_pid(correlate(t, es), pid),
    decreases es.len(),
{
    if es.len() > 0 {
        assert(es.last().1 != pid);
        lemma_no_entries_no_record(t, es.drop_last(), pid);
        let prev = correlate(t, es.drop_last());
        let port = es.last().0;
        let pid2 = es.last().1;
        if t.contains_key(pid2) {
            if has_pid(prev, pid2) {
                lemma_idx_of(prev, pid2);
                let i = idx_of(prev, pid2);
                let rs = prev.update(i, (prev[i].0, prev[i].1, prev[i].2.push(port)));
                if has_pid(rs, pid) {
                    let w = choose|k: int| 0 <= k < rs.len() && (#[trigger] rs[k]).0 == pid;
                    assert(prev[w].0 == pid);
                }
            } else {
                let rs = prev.push((pid2, t[pid2], seq![port]));
                if has_pid(rs, pid) {
                    let w = choose|k: int| 0 <= k < rs.len() && (#[trigger] rs[k]).0 == pid;
                    assert(w < prev.len() ==> prev[w].0 == pid);
                }
            }
        }
    }
}

/// A process id the table holds, appearing in at least one entry, yields
/// exactly one record: its name is the table's, and its ports are exactly
/// the ports of its entries, in discovery order.
pub proof fn lemma_one_record_per_pid(t: Map<i32, Seq<u8>>, es: Seq<(u16, i32)>, pid: i32)
    requires
        t.contains_key(pid),
        ports_of(es, pid).len() > 0,
    ensures
        ({
            let rs = correlate(t, es);
            &&& has_pid(rs, pid)
            &&& 0 <= idx_of(rs, pid) < rs.len()
            &&& rs[idx_of(rs, pid)].0 == pid
            &&& rs[idx_of(rs, pid)].1 == t[pid]
            &&& rs[idx_of(rs, pid)].2 == ports_of(es, pid)
            &&& forall|a: int, b: int|
                0 <= a < rs.len() && 0 <= b < rs.len() && (#[trigger] rs[a]).0 == pid && (
                #[trigger] rs[b]).0 == pid ==> a == b
        }),
    decreases es.len(),
{
    lemma_correlate_distinct(t, es);
    let rs = correlate(t, es);
    assert forall|a: int, b: int|
        0 <= a < rs.len() && 0 <= b < rs.len() && (#[trigger] rs[a]).0 == pid && (
        #[trigger] rs[b]).0 == pid implies a == b by {
        if a < b {
            assert(rs[a].0 != rs[b].0);
        } else if b < a {
            assert(rs[b].0 != rs[a].0);
        }
    }
    let dl = es.drop_last();
    let prev = correlate(t, dl);
    let port = es.last().0;
    let pid2 = es.last().1;
    if pid2 == pid {
        if ports_of(dl, pid).len() == 0 {
            lemma_no_entries_no_record(t, dl, pid);
            assert(rs == prev.push((pid, t[pid], seq![port])));
            assert forall|k: int| 0 <= k < prev.len() implies (#[trigger] rs[k]).0 != pid by {
                assert(rs[k] == prev[k]);
                assert(!(prev[k].0 == pid));
            }
            lemma_first_idx(rs, pid, prev.len() as int);
            assert(ports_of(es, pid) =~= Seq::empty().push(port));
        } else {
            lemma_one_record_per_pid(t, dl, pid);
            let i = idx_of(prev, pid);
            assert(rs == prev.update(i, (prev[i].0, prev[i].1, prev[i].2.push(port))));
            assert forall|k: int| 0 <= k < rs.len() implies (#[trigger] prev[k]).0
                == (#[trigger] rs[k]).0 by {}
            lemma_same_pids_same_idx(prev, rs, pid);
        }
    } else {
        lemma_one_record_per_pid(t, dl, pid);
        let i = idx_of(prev, pid);
        if !t.contains_key(pid2) {
        } else if has_pid(prev, pid2) {
            lemma_idx_of(prev, pid2);
            let j = idx_of(prev, pid2);
            assert(rs == prev.update(j, (prev[j].0, prev[j].1, prev[j].2.push(port))));
            assert forall|k: int| 0 <= k < rs.len() implies (#[trigger] prev[k]).0
                == (#[trigger] rs[k]).0 by {}
            lemma_same_pids_same_idx(prev, rs, pid);
            assert(i != j);
            assert(rs[i] == prev[i]);
        } else {
            assert(rs == prev.push((pid2, t[pid2], seq![port])));
            lemma_idx_of(prev, pid);
            assert forall|k: int| 0 <= k < i implies (#[trigger] rs[k]).0 != pid by {
                assert(rs[k] == prev[k]);
            }
            assert(rs[i] == prev[i]);
            lemma_first_idx(rs, pid, i);
        }
    }
}

/// Builds the snapshot: exactly `correlate` of the table and the entries.
pub fn match_processes_to_ports(table: &ProcessTable, entries: &Vec<ConnectionEntry>) -> (r:
    ProcessPortSnapshot)
    ensures
        r@ == correlate(table@, entries.deep_view()),
{
    let mut records: Vec<ProcessPortRecord> = Vec::new();
    let ghost edv = entries.deep_view();
    let ghost t = table@;
    let mut i: usize = 0;
    while i < entries.len()
        invariant
            0 <= i <= entries@.len(),
            edv == entries.deep_view(),
            t == table@,
            edv.len() == entries@.len(),
            records.deep_view() == correlate(t, edv.subrange(0, i as int)),
        decreases entries@.len() - i,
    {
        let ghost prev = records.deep_view();
        proof {
            assert(edv[i as int] == entries@[i as int]@);
            let cur = edv.subrange(0, i + 1);
            assert(cur.drop_last() =~= edv.subrange(0, i as int));
            assert(cur.last() == edv[i as int]);
        }
        let port = entries[i].port;
        let pid = entries[i].owning_process_id;
        match table.lookup(pid) {
            None => {},
            Some(name) => {
                let ghost nm = name@;
                let n = records.len();
                let mut j: usize = 0;
                while j < n && records[j].process_id != pid
                    invariant
                        0 <= j <= n,
                        n == records@.len(),
                        prev == records.deep_view(),
                        prev.len() == n,
                        forall|k: int| 0 <= k < j ==> (#[trigger] prev[k]).0 != pid,
                    decreases n - j,
                {
                    proof {
                        assert(prev[j as int] == records@[j as int]@);
                    }
                    j = j + 1;
                }
                if j < n {
                    proof {
                        assert(prev[j as int] == records@[j as int]@);
                        lemma_first_idx(prev, pid, j as int);
                    }
                    let mut rec = records.remove(j);
                    rec.ports.push(port);
                    records.insert(j, rec);
                    proof {
                        assert(records.deep_view() =~~= prev.update(
                            j as int,
                            (prev[j as int].0, prev[j as int].1, prev[j as int].2.push(port)),
                        ));
                    }
                } else {
                    proof {
                        assert(!has_pid(prev, pid));
                    }
                    let mut ports: Vec<u16> = Vec::new();
                    ports.push(port);
                    let rec = ProcessPortRecord { process_id: pid, process_name: name, ports };
                    records.push(rec);
                    proof {
                        assert(records.deep_view() =~~= prev.push((pid, nm, seq![port])));
                        assert(nm == t[pid]);
                    }
                }
            },
        }
        i = i + 1;
    }
    proof {
        assert(edv.subrange(0, i as int) =~= edv);
    }
    ProcessPortSnapshot { processes: records }
}

} // verus!
