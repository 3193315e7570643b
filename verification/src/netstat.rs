//! Parsing the line-oriented text of a connection-listing command into
//! connection entries.
//!
//! A data row has at least five whitespace-separated fields: protocol,
//! local address, remote address, state, owning process id. The port is the
//! segment of the local address after its last `:`; the process id is the
//! fifth field. The header line (starting with `Proto`), blank lines, short
//! lines and lines failing any parse step are dropped, never an error.

use vstd::prelude::*;
use crate::num::{parse_i32_spec, parse_u16_spec, parse_i32_bytes, parse_u16_bytes};

verus! {

/// One parsed connection row: a local port and the owning process id.
#[derive(Clone, Copy, Debug, PartialEq, Eq, Structural)]
pub struct ConnectionEntry {
    pub port: u16,
    pub owning_process_id: i32,
}

impl View for ConnectionEntry {
    type V = (u16, i32);

    open spec fn view(&self) -> (u16, i32) {
        (self.port, self.owning_process_id)
    }
}

impl DeepView for ConnectionEntry {
    type V = (u16, i32);

    open spec fn deep_view(&self) -> (u16, i32) {
        self.view()
    }
}

/// ASCII whitespace, as Rust's `split_whitespace` treats ASCII text.
pub open spec fn is_space(b: u8) -> bool {
    b == 32 || b == 9 || b == 10 || b == 11 || b == 12 || b == 13
}

/// End of the whitespace-free run that starts at `i`.
pub open spec fn token_end(s: Seq<u8>, i: int) -> int
    recommends
        0 <= i <= s.len(),
    decreases s.len() - i,
{
    if i >= s.len() || is_space(s[i]) {
        i
    } else {
        token_end(s, i + 1)
    }
}

pub proof fn lemma_token_end(s: Seq<u8>, i: int)
    requires
        i <= s.len(),
    ensures
        i <= token_end(s, i) <= s.len(),
        forall|k: int| i <= k < token_end(s, i) ==> !is_space(s[k]),
        token_end(s, i) == s.len() || is_space(s[token_end(s, i)]),
        i < s.len() && !is_space(s[i]) ==> token_end(s, i) > i,
    decreases s.len() - i,
{
    if i < s.len() && !is_space(s[i]) {
        lemma_token_end(s, i + 1);
    }
}

/// The boundary that ends a whitespace-free run starting at `i` is unique.
pub proof fn lemma_token_end_unique(s: Seq<u8>, i: int, j: int)
    requires
        0 <= i <= j <= s.len(),
        forall|k: int| i <= k < j ==> !is_space(s[k]),
        j == s.len() || is_space(s[j]),
    ensures
        token_end(s, i) == j,
    decreases j - i,
{
    if i < j {
        lemma_token_end_unique(s, i + 1, j);
    }
}

/// The whitespace-separated fields of `s`, from position `i` on.
pub open spec fn tokens_from(s: Seq<u8>, i: int) -> Seq<Seq<u8>>
    recommends
        0 <= i <= s.len(),
    decreases s.len() - i,
    via tokens_from_decreases
{
    if i >= s.len() {
        Seq::empty()
    } else if is_space(s[i]) {
        tokens_from(s, i + 1)
    } else {
        seq![s.subrange(i, token_end(s, i))] + tokens_from(s, token_end(s, i))
    }
}

#[via_fn]
proof fn tokens_from_decreases(s: Seq<u8>, i: int) {
    if i < s.len() && !is_space(s[i]) {
        lemma_token_end(s, i);
    }
}

/// The whitespace-separated fields of a whole line.
pub open spec fn tokens(s: Seq<u8>) -> Seq<Seq<u8>> {
    tokens_from(s, 0)
}

fn is_space_b(b: u8) -> (r: bool)
    ensures
        r == is_space(b),
{
    b == 32 || (9 <= b && b <= 13)
}

/// Splits a line into its whitespace-separated fields.
pub fn split_whitespace_bytes(s: &[u8]) -> (r: Vec<Vec<u8>>)
    ensures
        r.deep_view() == tokens(s@),
{
    let mut r: Vec<Vec<u8>> = Vec::new();
    let mut i: usize = 0;
    while i < s.len()
        invariant
            0 <= i <= s@.len(),
            tokens(s@) == r.deep_view() + tokens_from(s@, i as int),
        decreases s@.len() - i,
    {
        if is_space_b(s[i]) {
            i = i + 1;
        } else {
            proof {
                lemma_token_end(s@, i as int);
            }
            let mut j: usize = i + 1;
            while j < s.len() && !is_space_b(s[j])
                invariant
                    i < j <= s@.len(),
                    forall|k: int| i <= k < j ==> !is_space(s@[k]),
                decreases s@.len() - j,
            {
                j = j + 1;
            }
            proof {
                lemma_token_end_unique(s@, i as int, j as int);
            }
            let tok = vstd::slice::slice_to_vec(vstd::slice::slice_subrange(s, i, j));
            let ghost old_r = r.deep_view();
            r.push(tok);
            proof {
                assert(r.deep_view() =~~= old_r.push(tok@));
                assert(tokens(s@) =~~= r.deep_view() + tokens_from(s@, j as int));
            }
            i = j;
        }
    }
    proof {
        assert(tokens(s@) =~~= r.deep_view());
    }
    r
}

/// The segment of `s` after its last `:`; all of `s` when it has none.
pub open spec fn after_last_colon(s: Seq<u8>) -> Seq<u8>
    decreases s.len(),
{
    if s.len() == 0 {
        s
    } else if s.last() == 58 {
        Seq::empty()
    } else {
        after_last_colon(s.drop_last()) + seq![s.last()]
    }
}

proof fn lemma_after_last_colon(s: Seq<u8>, i: int)
    requires
        0 <= i <= s.len(),
        forall|k: int| i <= k < s.len() ==> s[k] != 58,
        i == 0 || s[i - 1] == 58,
    ensures
        after_last_colon(s) == s.subrange(i, s.len() as int),
    decreases s.len(),
{
    if s.len() == 0 {
        assert(after_last_colon(s) =~= s.subrange(i, s.len() as int));
    } else if s.last() == 58 {
        assert(i == s.len());
        assert(after_last_colon(s) =~= s.subrange(i, s.len() as int));
    } else {
        let d = s.drop_last();
        assert(i <= d.len());
        lemma_after_last_colon(d, i);
        assert(d.subrange(i, d.len() as int) =~= s.subrange(i, s.len() - 1));
        assert(after_last_colon(s) =~= s.subrange(i, s.len() as int));
    }
}

/// The tail of `s` after its last `:`.
pub fn tail_after_last_colon(s: &[u8]) -> (r: &[u8])
    ensures
        r@ == after_last_colon(s@),
{
    let mut i: usize = s.len();
    while i > 0 && s[i - 1] != 58
        invariant
            0 <= i <= s@.len(),
            forall|k: int| i <= k < s@.len() ==> s@[k] != 58,
        decreases i,
    {
        i = i - 1;
    }
    proof {
        lemma_after_last_colon(s@, i as int);
    }
    vstd::slice::slice_subrange(s, i, s.len())
}

/// The header line of the listing starts with `Proto`.
pub open spec fn is_header_line(line: Seq<u8>) -> bool {
    line.len() >= 5 && line.subrange(0, 5) == seq![80u8, 114u8, 111u8, 116u8, 111u8]
}

/// What a single line contributes: `Some` exactly for a non-blank,
/// non-header line of at least five fields whose local-address port and
/// process-id field both parse.
pub open spec fn entry_of_line(line: Seq<u8>) -> Option<(u16, i32)> {
    if line.len() == 0 || is_header_line(line) {
        None
    } else {
        let p = tokens(line);
        if p.len() < 5 {
            None
        } else {
            match parse_u16_spec(after_last_colon(p[1])) {
                None => None,
                Some(port) => match parse_i32_spec(p[4]) {
                    None => None,
                    Some(pid) => Some((port, pid)),
                },
            }
        }
    }
}

/// The entries of all lines, in line order, dropped lines contributing
/// nothing.
pub open spec fn entries_of_lines(lines: Seq<Seq<u8>>) -> Seq<(u16, i32)>
    decreases lines.len(),
{
    if lines.len() == 0 {
        Seq::empty()
    } else {
        let prev = entries_of_lines(lines.drop_last());
        match entry_of_line(lines.last()) {
            Some(e) => prev.push(e),
            None => prev,
        }
    }
}

/// Parses one line of the listing.
pub fn parse_connection_line(line: &[u8]) -> (r: Option<ConnectionEntry>)
    ensures
        match r {
            Some(e) => entry_of_line(line@) == Some(e@),
            None => entry_of_line(line@) is None,
        },
{
    if line.len() == 0 {
        return None;
    }
    if line.len() >= 5 && line[0] == 80 && line[1] == 114 && line[2] == 111 && line[3] == 116
        && line[4] == 111 {
        proof {
            assert(line@.subrange(0, 5) =~= seq![80u8, 114u8, 111u8, 116u8, 111u8]);
        }
        return None;
    }
    proof {
        if is_header_line(line@) {
            assert(line@.subrange(0, 5)[0] == line@[0]);
            assert(line@.subrange(0, 5)[1] == line@[1]);
            assert(line@.subrange(0, 5)[2] == line@[2]);
            assert(line@.subrange(0, 5)[3] == line@[3]);
            assert(line@.subrange(0, 5)[4] == line@[4]);
            assert(false);
        }
    }
    let parts = split_whitespace_bytes(line);
    if parts.len() < 5 {
        return None;
    }
    proof {
        assert(parts.deep_view()[1] =~~= parts@[1]@);
        assert(parts.deep_view()[4] =~~= parts@[4]@);
    }
    let port_str = tail_after_last_colon(parts[1].as_slice());
    match parse_u16_bytes(port_str) {
        None => None,
        Some(port) => match parse_i32_bytes(parts[4].as_slice()) {
            None => None,
            Some(pid) => Some(ConnectionEntry { port, owning_process_id: pid }),
        },
    }
}

/// Parses the whole listing, best-effort: exactly the entries of
/// `entries_of_lines`, in line order.
pub fn parse_netstat_output(lines: &Vec<Vec<u8>>) -> (r: Vec<ConnectionEntry>)
    ensures
        r.deep_view() == entries_of_lines(lines.deep_view()),
{
    let mut r: Vec<ConnectionEntry> = Vec::new();
    let ghost dv = lines.deep_view();
    let mut i: usize = 0;
    while i < lines.len()
        invariant
            0 <= i <= lines@.len(),
            dv == lines.deep_view(),
            dv.len() == lines@.len(),
            r.deep_view() == entries_of_lines(dv.subrange(0, i as int)),
        decreases lines@.len() - i,
    {
        proof {
            assert(dv[i as int] =~~= lines@[i as int]@);
        }
        let ghost old_r = r.deep_view();
        match parse_connection_line(lines[i].as_slice()) {
            Some(e) => {
                r.push(e);
                proof {
                    assert(r.deep_view() =~~= old_r.push(e@));
                }
            },
            None => {},
        }
        proof {
            let pre = dv.subrange(0, i as int);
            let cur = dv.subrange(0, i + 1);
            assert(cur.drop_last() =~= pre);
            assert(cur.last() == dv[i as int]);
        }
        i = i + 1;
    }
    proof {
        assert(dv.subrange(0, i as int) =~= dv);
    }
    r
}

/// A well-formed data line yields exactly one entry, with the port taken
/// from after the last `:` of the second field and the process id from the
/// fifth field.
pub proof fn lemma_well_formed_line_parses(
    lines: Seq<Seq<u8>>,
    line: Seq<u8>,
    port: u16,
    pid: i32,
)
    requires
        line.len() > 0,
        !is_header_line(line),
        tokens(line).len() >= 5,
        parse_u16_spec(after_last_colon(tokens(line)[1])) == Some(port),
        parse_i32_spec(tokens(line)[4]) == Some(pid),
    ensures
        entry_of_line(line) == Some((port, pid)),
        entries_of_lines(lines.push(line)) == entries_of_lines(lines).push((port, pid)),
{
    assert(lines.push(line).drop_last() =~= lines);
}

/// Header lines, blank lines and lines of fewer than five fields never
/// yield an entry.
pub proof fn lemma_non_data_line_skipped(lines: Seq<Seq<u8>>, line: Seq<u8>)
    requires
        line.len() == 0 || is_header_line(line) || tokens(line).len() < 5,
    ensures
        entry_of_line(line) is None,
        entries_of_lines(lines.push(line)) == entries_of_lines(lines),
{
    assert(lines.push(line).drop_last() =~= lines);
}

} // verus!
