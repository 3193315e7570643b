//! Pretty-printed JSON rendering of the two snapshots, byte-exact.
//!
//! `process_ports.json` holds one object with a `processes` array, one
//! record per line; `events.json` holds a bare array, one record per line.
//! String values are escaped as JSON asks: quote, backslash and control
//! bytes; all other bytes pass through unchanged.

use vstd::prelude::*;
use crate::correlate::{ProcessPortRecord, ProcessPortSnapshot};
use crate::events::{EventSnapshot, LogEventRecord};
use crate::num::{dec_i, dec_u, i32_dec, u32_dec};

verus! {

/// Lower-case hexadecimal digit of a value below 16.
pub open spec fn hex_digit(n: int) -> u8
    recommends
        0 <= n < 16,
{
    if n < 10 {
        (48 + n) as u8
    } else {
        (87 + n) as u8
    }
}

/// The JSON escape of one byte inside a string value.
pub open spec fn esc_byte(b: u8) -> Seq<u8> {
    if b == 34 {
        seq![92u8, 34u8]
    } else if b == 92 {
        seq![92u8, 92u8]
    } else if b == 8 {
        seq![92u8, 98u8]
    } else if b == 9 {
        seq![92u8, 116u8]
    } else if b == 10 {
        seq![92u8, 110u8]
    } else if b == 12 {
        seq![92u8, 102u8]
    } else if b == 13 {
        seq![92u8, 114u8]
    } else if b < 32 {
        seq![92u8, 117u8, 48u8, 48u8, hex_digit(b as int / 16), hex_digit(b as int % 16)]
    } else {
        seq![b]
    }
}

/// The JSON escape of a whole string value.
pub open spec fn esc(s: Seq<u8>) -> Seq<u8>
    decreases s.len(),
{
    if s.len() == 0 {
        Seq::empty()
    } else {
        esc(s.drop_last()) + esc_byte(s.last())
    }
}

/// `"0"`-to-`"9"` digit of `n` below 16, as a byte.
fn hex_digit_b(n: u8) -> (r: u8)
    requires
        n < 16,
    ensures
        r == hex_digit(n as int),
{
    if n < 10 {
        48 + n
    } else {
        87 + n
    }
}

fn esc_byte_b(b: u8) -> (r: Vec<u8>)
    ensures
        r@ == esc_byte(b),
{
    let mut v: Vec<u8> = Vec::new();
    if b == 34 {
        v.push(92);
        v.push(34);
    } else if b == 92 {
        v.push(92);
        v.push(92);
    } else if b == 8 {
        v.push(92);
        v.push(98);
    } else if b == 9 {
        v.push(92);
        v.push(116);
    } else if b == 10 {
        v.push(92);
        v.push(110);
    } else if b == 12 {
        v.push(92);
        v.push(102);
    } else if b == 13 {
        v.push(92);
        v.push(114);
    } else if b < 32 {
        v.push(92);
        v.push(117);
        v.push(48);
        v.push(48);
        v.push(hex_digit_b(b / 16));
        v.push(hex_digit_b(b % 16));
    } else {
        v.push(b);
    }
    proof {
        assert(v@ =~= esc_byte(b));
    }
    v
}

/// Escapes a string value.
fn escape_bytes(s: &[u8]) -> (r: Vec<u8>)
    ensures
        r@ == esc(s@),
{
    let mut out: Vec<u8> = Vec::new();
    let mut i: usize = 0;
    while i < s.len()
        invariant
            0 <= i <= s@.len(),
            out@ == esc(s@.subrange(0, i as int)),
        decreases s@.len() - i,
    {
        let mut e = esc_byte_b(s[i]);
        out.append(&mut e);
        proof {
            let cur = s@.subrange(0, i + 1);
            assert(cur.drop_last() =~= s@.subrange(0, i as int));
            assert(cur.last() == s@[i as int]);
        }
        i = i + 1;
    }
    proof {
        assert(s@.subrange(0, i as int) =~= s@);
    }
    out
}

/// `"{\n  \"processes\": ["`.
pub open spec fn snapshot_head() -> Seq<u8> {
    seq![
        123u8, 10u8, 32u8, 32u8, 34u8, 112u8, 114u8, 111u8, 99u8, 101u8, 115u8, 115u8, 101u8,
        115u8, 34u8, 58u8, 32u8, 91u8,
    ]
}

/// `"\n    "`: the indent of one process record.
pub open spec fn record_indent() -> Seq<u8> {
    seq![10u8, 32u8, 32u8, 32u8, 32u8]
}

/// `"{\"pid\": "`.
pub open spec fn pid_key() -> Seq<u8> {
    seq![123u8, 34u8, 112u8, 105u8, 100u8, 34u8, 58u8, 32u8]
}

/// `", \"name\": \""`.
pub open spec fn name_key() -> Seq<u8> {
    seq![44u8, 32u8, 34u8, 110u8, 97u8, 109u8, 101u8, 34u8, 58u8, 32u8, 34u8]
}

/// `"\", \"ports\": ["`.
pub open spec fn ports_key() -> Seq<u8> {
    seq![34u8, 44u8, 32u8, 34u8, 112u8, 111u8, 114u8, 116u8, 115u8, 34u8, 58u8, 32u8, 91u8]
}

/// The ports array's contents, comma-separated, in order.
pub open spec fn ports_list(ports: Seq<u16>) -> Seq<u8>
    decreases ports.len(),
{
    if ports.len() == 0 {
        Seq::empty()
    } else if ports.len() == 1 {
        dec_u(ports[0] as int)
    } else {
        ports_list(ports.drop_last()) + seq![44u8, 32u8] + dec_u(ports.last() as int)
    }
}

/// One process record as a JSON object on one line.
pub open spec fn json_rec(r: (i32, Seq<u8>, Seq<u16>)) -> Seq<u8> {
    pid_key() + dec_i(r.0 as int) + name_key() + esc(r.1) + ports_key() + ports_list(r.2) + seq![
        93u8, 125u8,
    ]
}

/// The records of the `processes` array, each on its own indented line.
pub open spec fn snapshot_items(rs: Seq<(i32, Seq<u8>, Seq<u16>)>) -> Seq<u8>
    decreases rs.len(),
{
    if rs.len() == 0 {
        Seq::empty()
    } else if rs.len() == 1 {
        record_indent() + json_rec(rs[0])
    } else {
        snapshot_items(rs.drop_last()) + seq![44u8] + record_indent() + json_rec(rs.last())
    }
}

/// The whole `process_ports.json` document.
pub open spec fn json_of_snapshot(rs: Seq<(i32, Seq<u8>, Seq<u16>)>) -> Seq<u8> {
    if rs.len() == 0 {
        snapshot_head() + seq![93u8, 10u8, 125u8]
    } else {
        snapshot_head() + snapshot_items(rs) + seq![10u8, 32u8, 32u8, 93u8, 10u8, 125u8]
    }
}

fn snapshot_head_b() -> (r: Vec<u8>)
    ensures
        r@ == snapshot_head(),
{
    let mut v: Vec<u8> = Vec::new();
    v.push(123);
    v.push(10);
    v.push(32);
    v.push(32);
    v.push(34);
    v.push(112);
    v.push(114);
    v.push(111);
    v.push(99);
    v.push(101);
    v.push(115);
    v.push(115);
    v.push(101);
    v.push(115);
    v.push(34);
    v.push(58);
    v.push(32);
    v.push(91);
    proof {
        assert(v@ =~= snapshot_head());
    }
    v
}

fn record_indent_b() -> (r: Vec<u8>)
    ensures
        r@ == record_indent(),
{
    let mut v: Vec<u8> = Vec::new();
    v.push(10);
    v.push(32);
    v.push(32);
    v.push(32);
    v.push(32);
    proof {
        assert(v@ =~= record_indent());
    }
    v
}

fn pid_key_b() -> (r: Vec<u8>)
    ensures
        r@ == pid_key(),
{
    let mut v: Vec<u8> = Vec::new();
    v.push(123);
    v.push(34);
    v.push(112);
    v.push(105);
    v.push(100);
    v.push(34);
    v.push(58);
    v.push(32);
    proof {
        assert(v@ =~= pid_key());
    }
    v
}

fn name_key_b() -> (r: Vec<u8>)
    ensures
        r@ == name_key(),
{
    let mut v: Vec<u8> = Vec::new();
    v.push(44);
    v.push(32);
    v.push(34);
    v.push(110);
    v.push(97);
    v.push(109);
    v.push(101);
    v.push(34);
    v.push(58);
    v.push(32);
    v.push(34);
    proof {
        assert(v@ =~= name_key());
    }
    v
}

fn ports_key_b() -> (r: Vec<u8>)
    ensures
        r@ == ports_key(),
{
    let mut v: Vec<u8> = Vec::new();
    v.push(34);
    v.push(44);
    v.push(32);
    v.push(34);
    v.push(112);
    v.push(111);
    v.push(114);
    v.push(116);
    v.push(115);
    v.push(34);
    v.push(58);
    v.push(32);
    v.push(91);
    proof {
        assert(v@ =~= ports_key());
    }
    v
}

fn ports_list_b(ports: &Vec<u16>) -> (r: Vec<u8>)
    ensures
        r@ == ports_list(ports@),
{
    let mut out: Vec<u8> = Vec::new();
    let mut i: usize = 0;
    while i < ports.len()
        invariant
            0 <= i <= ports@.len(),
            out@ == ports_list(ports@.subrange(0, i as int)),
        decreases ports@.len() - i,
    {
        if i > 0 {
            out.push(44);
            out.push(32);
        }
        let mut d = u32_dec(ports[i] as u32);
        out.append(&mut d);
        proof {
            let cur = ports@.subrange(0, i + 1);
            assert(cur.drop_last() =~= ports@.subrange(0, i as int));
            assert(cur.last() == ports@[i as int]);
            assert(cur[0] == ports@[0]);
            assert(out@ =~= ports_list(cur));
        }
        i = i + 1;
    }
    proof {
        assert(ports@.subrange(0, i as int) =~= ports@);
    }
    out
}

/// Renders one process record.
fn record_json(rec: &ProcessPortRecord) -> (r: Vec<u8>)
    ensures
        r@ == json_rec(rec@),
{
    let mut out = pid_key_b();
    let mut pid = i32_dec(rec.process_id);
    out.append(&mut pid);
    let mut nk = name_key_b();
    out.append(&mut nk);
    let mut nm = escape_bytes(rec.process_name.as_slice());
    out.append(&mut nm);
    let mut pk = ports_key_b();
    out.append(&mut pk);
    let mut pl = ports_list_b(&rec.ports);
    out.append(&mut pl);
    out.push(93);
    out.push(125);
    proof {
        assert(out@ =~= json_rec(rec@));
    }
    out
}

/// Renders the whole process snapshot as pretty-printed JSON bytes.
pub fn snapshot_to_json(s: &ProcessPortSnapshot) -> (r: Vec<u8>)
    ensures
        r@ == json_of_snapshot(s@),
{
    let mut out = snapshot_head_b();
    let ghost rs = s@;
    let n = s.processes.len();
    if n == 0 {
        out.push(93);
        out.push(10);
        out.push(125);
        proof {
            assert(out@ =~= json_of_snapshot(rs));
        }
        return out;
    }
    let mut i: usize = 0;
    while i < n
        invariant
            0 <= i <= n,
            n == s.processes@.len(),
            rs == s@,
            rs.len() == n,
            out@ == snapshot_head() + snapshot_items(rs.subrange(0, i as int)),
        decreases n - i,
    {
        if i > 0 {
            out.push(44);
        }
        let mut ind = record_indent_b();
        out.append(&mut ind);
        let mut rec = record_json(&s.processes[i]);
        out.append(&mut rec);
        proof {
            assert(rs[i as int] == s.processes@[i as int]@);
            let cur = rs.subrange(0, i + 1);
            assert(cur.drop_last() =~= rs.subrange(0, i as int));
            assert(cur.last() == rs[i as int]);
            assert(cur[0] == rs[0]);
            assert(out@ =~= snapshot_head() + snapshot_items(cur));
        }
        i = i + 1;
    }
    out.push(10);
    out.push(32);
    out.push(32);
    out.push(93);
    out.push(10);
    out.push(125);
    proof {
        assert(rs.subrange(0, i as int) =~= rs);
        assert(out@ =~= json_of_snapshot(rs));
    }
    out
}

/// `"{\"event_id\": "`.
pub open spec fn event_id_key() -> Seq<u8> {
    seq![123u8, 34u8, 101u8, 118u8, 101u8, 110u8, 116u8, 95u8, 105u8, 100u8, 34u8, 58u8, 32u8]
}

/// `", \"provider_name\": \""`.
pub open spec fn provider_key() -> Seq<u8> {
    seq![
        44u8, 32u8, 34u8, 112u8, 114u8, 111u8, 118u8, 105u8, 100u8, 101u8, 114u8, 95u8, 110u8,
        97u8, 109u8, 101u8, 34u8, 58u8, 32u8, 34u8,
    ]
}

/// `"\", \"level\": "`.
pub open spec fn level_key() -> Seq<u8> {
    seq![34u8, 44u8, 32u8, 34u8, 108u8, 101u8, 118u8, 101u8, 108u8, 34u8, 58u8, 32u8]
}

/// One event record as a JSON object on one line.
pub open spec fn json_event(r: (u32, Seq<u8>, u32)) -> Seq<u8> {
    event_id_key() + dec_u(r.0 as int) + provider_key() + esc(r.1) + level_key() + dec_u(
        r.2 as int,
    ) + seq![125u8]
}

/// `"\n  "`: the indent of one event record.
pub open spec fn event_indent() -> Seq<u8> {
    seq![10u8, 32u8, 32u8]
}

/// The records of the events array, each on its own indented line.
pub open spec fn event_items(rs: Seq<(u32, Seq<u8>, u32)>) -> Seq<u8>
    decreases rs.len(),
{
    if rs.len() == 0 {
        Seq::empty()
    } else if rs.len() == 1 {
        event_indent() + json_event(rs[0])
    } else {
        event_items(rs.drop_last()) + seq![44u8] + event_indent() + json_event(rs.last())
    }
}

/// The whole `events.json` document: `[]` for an empty batch.
pub open spec fn json_of_events(rs: Seq<(u32, Seq<u8>, u32)>) -> Seq<u8> {
    if rs.len() == 0 {
        seq![91u8, 93u8]
    } else {
        seq![91u8] + event_items(rs) + seq![10u8, 93u8]
    }
}

fn event_id_key_b() -> (r: Vec<u8>)
    ensures
        r@ == event_id_key(),
{
    let mut v: Vec<u8> = Vec::new();
    v.push(123);
    v.push(34);
    v.push(101);
    v.push(118);
    v.push(101);
    v.push(110);
    v.push(116);
    v.push(95);
    v.push(105);
    v.push(100);
    v.push(34);
    v.push(58);
    v.push(32);
    proof {
        assert(v@ =~= event_id_key());
    }
    v
}

fn provider_key_b() -> (r: Vec<u8>)
    ensures
        r@ == provider_key(),
{
    let mut v: Vec<u8> = Vec::new();
    v.push(44);
    v.push(32);
    v.push(34);
    v.push(112);
    v.push(114);
    v.push(111);
    v.push(118);
    v.push(105);
    v.push(100);
    v.push(101);
    v.push(114);
    v.push(95);
    v.push(110);
    v.push(97);
    v.push(109);
    v.push(101);
    v.push(34);
    v.push(58);
    v.push(32);
    v.push(34);
    proof {
        assert(v@ =~= provider_key());
    }
    v
}

fn level_key_b() -> (r: Vec<u8>)
    ensures
        r@ == level_key(),
{
    let mut v: Vec<u8> = Vec::new();
    v.push(34);
    v.push(44);
    v.push(32);
    v.push(34);
    v.push(108);
    v.push(101);
    v.push(118);
    v.push(101);
    v.push(108);
    v.push(34);
    v.push(58);
    v.push(32);
    proof {
        assert(v@ =~= level_key());
    }
    v
}

/// Renders one event record.
fn event_json(rec: &LogEventRecord) -> (r: Vec<u8>)
    ensures
        r@ == json_event(rec@),
{
    let mut out = event_id_key_b();
    let mut id = u32_dec(rec.event_id);
    out.append(&mut id);
    let mut pk = provider_key_b();
    out.append(&mut pk);
    let mut nm = escape_bytes(rec.provider_name.as_slice());
    out.append(&mut nm);
    let mut lk = level_key_b();
    out.append(&mut lk);
    let mut lv = u32_dec(rec.level);
    out.append(&mut lv);
    out.push(125);
    proof {
        assert(out@ =~= json_event(rec@));
    }
    out
}

/// Renders the whole event snapshot as pretty-printed JSON bytes.
pub fn events_to_json(snapshot: &EventSnapshot) -> (r: Vec<u8>)
    ensures
        r@ == json_of_events(snapshot@),
{
    let events = &snapshot.events;
    let ghost rs = snapshot@;
    let n = events.len();
    let mut out: Vec<u8> = Vec::new();
    out.push(91);
    if n == 0 {
        out.push(93);
        proof {
            assert(out@ =~= json_of_events(rs));
        }
        return out;
    }
    let mut i: usize = 0;
    while i < n
        invariant
            0 <= i <= n,
            n == events@.len(),
            rs == events.deep_view(),
            rs.len() == n,
            out@ == seq![91u8] + event_items(rs.subrange(0, i as int)),
        decreases n - i,
    {
        if i > 0 {
            out.push(44);
        }
        out.push(10);
        out.push(32);
        out.push(32);
        let mut rec = event_json(&events[i]);
        out.append(&mut rec);
        proof {
            assert(rs[i as int] == events@[i as int]@);
            let cur = rs.subrange(0, i + 1);
            assert(cur.drop_last() =~= rs.subrange(0, i as int));
            assert(cur.last() == rs[i as int]);
            assert(cur[0] == rs[0]);
            assert(out@ =~= seq![91u8] + event_items(cur));
        }
        i = i + 1;
    }
    out.push(10);
    out.push(93);
    proof {
        assert(rs.subrange(0, i as int) =~= rs);
        assert(out@ =~= json_of_events(rs));
    }
    out
}

} // verus!
