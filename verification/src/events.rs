//! The event pipeline's pure parts: the query descriptor for the log
//! source, and normalization of raw log records — each rendered as an XML
//! document — into flat records.
//!
//! A raw record is expected to carry a `System` section with a `Provider`
//! element naming the provider in its `Name` attribute, an `EventID`
//! element and a `Level` element. Extraction is positional: the first
//! occurrence of each element is read. A document in which any of the three
//! parts is missing or fails to parse is skipped, never an error.

use vstd::prelude::*;
use crate::num::{parse_u32_spec, parse_u32_bytes};

verus! {

/// A logical log channel the query asks for.
#[derive(Clone, Copy, Debug, PartialEq, Eq, Structural)]
pub enum LogChannel {
    Application,
    System,
}

/// A query descriptor for the log source: the channels to read, and the
/// severity threshold. Levels are numeric, lower meaning more severe; the
/// source keeps the records whose level is at least as severe as the
/// threshold, the comparison applied identically to every channel.
pub struct LogQuery {
    pub channels: Vec<LogChannel>,
    pub min_level: u32,
}

/// The fixed query of one run: the Application and System channels, with
/// severity threshold 1.
pub fn default_event_query() -> (q: LogQuery)
    ensures
        q.channels@ == seq![LogChannel::Application, LogChannel::System],
        q.min_level == 1,
{
    let mut channels: Vec<LogChannel> = Vec::new();
    channels.push(LogChannel::Application);
    channels.push(LogChannel::System);
    proof {
        assert(channels@ =~= seq![LogChannel::Application, LogChannel::System]);
    }
    LogQuery { channels, min_level: 1 }
}

/// One normalized log record. The provider name is UTF-8 bytes.
#[derive(Debug)]
pub struct LogEventRecord {
    pub event_id: u32,
    pub provider_name: Vec<u8>,
    pub level: u32,
}

impl View for LogEventRecord {
    type V = (u32, Seq<u8>, u32);

    open spec fn view(&self) -> (u32, Seq<u8>, u32) {
        (self.event_id, self.provider_name@, self.level)
    }
}

impl DeepView for LogEventRecord {
    type V = (u32, Seq<u8>, u32);

    open spec fn deep_view(&self) -> (u32, Seq<u8>, u32) {
        self.view()
    }
}

/// The root entity written as `events.json`: the normalized records, in
/// delivery order.
pub struct EventSnapshot {
    pub events: Vec<LogEventRecord>,
}

impl View for EventSnapshot {
    type V = Seq<(u32, Seq<u8>, u32)>;

    open spec fn view(&self) -> Seq<(u32, Seq<u8>, u32)> {
        self.events.deep_view()
    }
}

/// `needle` occurs in `hay` at position `i`.
pub open spec fn match_at(hay: Seq<u8>, needle: Seq<u8>, i: int) -> bool {
    0 <= i && i + needle.len() <= hay.len() && hay.subrange(i, i + needle.len()) == needle
}

/// The first position at or after `from` where `needle` occurs in `hay`.
pub open spec fn find_from(hay: Seq<u8>, needle: Seq<u8>, from: int) -> Option<int>
    recommends
        0 <= from <= hay.len(),
    decreases hay.len() - from + 1,
{
    if from < 0 || from + needle.len() > hay.len() {
        None
    } else if match_at(hay, needle, from) {
        Some(from)
    } else {
        find_from(hay, needle, from + 1)
    }
}

fn match_at_bytes(hay: &[u8], needle: &[u8], i: usize) -> (r: bool)
    requires
        i + needle@.len() <= hay@.len(),
    ensures
        r == match_at(hay@, needle@, i as int),
{
    let n = hay.len();
    let mut k: usize = 0;
    while k < needle.len()
        invariant
            0 <= k <= needle@.len(),
            i + needle@.len() <= hay@.len(),
            n == hay@.len(),
            forall|m: int| 0 <= m < k ==> hay@[i + m] == needle@[m],
        decreases needle@.len() - k,
    {
        if hay[i + k] != needle[k] {
            proof {
                if match_at(hay@, needle@, i as int) {
                    assert(hay@.subrange(i as int, i + needle@.len())[k as int] == hay@[i + k]);
                }
            }
            return false;
        }
        k = k + 1;
    }
    proof {
        assert(hay@.subrange(i as int, i + needle@.len()) =~= needle@);
    }
    true
}

/// Finds the first occurrence of `needle` in `hay` at or after `from`.
pub fn find_sub(hay: &[u8], needle: &[u8], from: usize) -> (r: Option<usize>)
    requires
        from <= hay@.len(),
    ensures
        match r {
            Some(x) => from <= x && x + needle@.len() <= hay@.len() && find_from(
                hay@,
                needle@,
                from as int,
            ) == Some(x as int),
            None => find_from(hay@, needle@, from as int) is None,
        },
{
    if needle.len() == 0 {
        proof {
            assert(hay@.subrange(from as int, from as int) =~= needle@);
        }
        return Some(from);
    }
    let n = hay.len();
    let mut i: usize = from;
    while needle.len() <= n - i
        invariant
            from <= i <= hay@.len(),
            n == hay@.len(),
            needle@.len() >= 1,
            find_from(hay@, needle@, from as int) == find_from(hay@, needle@, i as int),
        decreases hay@.len() - i,
    {
        if match_at_bytes(hay, needle, i) {
            return Some(i);
        }
        i = i + 1;
    }
    None
}

/// `" Name="`.
pub open spec fn name_attr_pat() -> Seq<u8> {
    seq![32u8, 78u8, 97u8, 109u8, 101u8, 61u8]
}

/// `"<Provider"`.
pub open spec fn provider_open() -> Seq<u8> {
    seq![60u8, 80u8, 114u8, 111u8, 118u8, 105u8, 100u8, 101u8, 114u8]
}

/// `"<EventID"`.
pub open spec fn event_id_open() -> Seq<u8> {
    seq![60u8, 69u8, 118u8, 101u8, 110u8, 116u8, 73u8, 68u8]
}

/// `"</EventID>"`.
pub open spec fn event_id_close() -> Seq<u8> {
    seq![60u8, 47u8, 69u8, 118u8, 101u8, 110u8, 116u8, 73u8, 68u8, 62u8]
}

/// `"<Level"`.
pub open spec fn level_open() -> Seq<u8> {
    seq![60u8, 76u8, 101u8, 118u8, 101u8, 108u8]
}

/// `"</Level>"`.
pub open spec fn level_close() -> Seq<u8> {
    seq![60u8, 47u8, 76u8, 101u8, 118u8, 101u8, 108u8, 62u8]
}

/// The text between the `>` that ends the first `open` tag and the first
/// `close` tag after it.
pub open spec fn element_text(doc: Seq<u8>, open: Seq<u8>, close: Seq<u8>) -> Option<Seq<u8>> {
    match find_from(doc, open, 0) {
        None => None,
        Some(i) => match find_from(doc, seq![62u8], i + open.len()) {
            None => None,
            Some(j) => match find_from(doc, close, j + 1) {
                None => None,
                Some(k) => Some(doc.subrange(j + 1, k)),
            },
        },
    }
}

/// The value of the first `Name` attribute, quoted by `q`, at or after the
/// first `open` tag.
pub open spec fn attr_value(doc: Seq<u8>, open: Seq<u8>, q: u8) -> Option<Seq<u8>> {
    match find_from(doc, open, 0) {
        None => None,
        Some(i) => match find_from(doc, name_attr_pat() + seq![q], i + open.len()) {
            None => None,
            Some(k) => {
                let start = k + name_attr_pat().len() + 1;
                match find_from(doc, seq![q], start) {
                    None => None,
                    Some(m) => Some(doc.subrange(start, m)),
                }
            },
        },
    }
}

/// The provider name of a raw record: the `Name` attribute of its first
/// `Provider` element, double quotes tried first, then single quotes.
pub open spec fn provider_of(doc: Seq<u8>) -> Option<Seq<u8>> {
    match attr_value(doc, provider_open(), 34) {
        Some(v) => Some(v),
        None => attr_value(doc, provider_open(), 39),
    }
}

/// What one raw record normalizes to: `Some` exactly when the provider
/// name, the event id and the level are all present and the two numbers
/// parse as decimal `u32`s.
pub open spec fn normalize_spec(doc: Seq<u8>) -> Option<(u32, Seq<u8>, u32)> {
    match provider_of(doc) {
        None => None,
        Some(name) => match element_text(doc, event_id_open(), event_id_close()) {
            None => None,
            Some(ids) => match parse_u32_spec(ids) {
                None => None,
                Some(id) => match element_text(doc, level_open(), level_close()) {
                    None => None,
                    Some(ls) => match parse_u32_spec(ls) {
                        None => None,
                        Some(lvl) => Some((id, name, lvl)),
                    },
                },
            },
        },
    }
}

fn element_text_bytes(doc: &[u8], open: &[u8], close: &[u8]) -> (r: Option<Vec<u8>>)
    ensures
        match r {
            Some(v) => element_text(doc@, open@, close@) == Some(v@),
            None => element_text(doc@, open@, close@) is None,
        },
{
    let n = doc.len();
    let mut gt: Vec<u8> = Vec::new();
    gt.push(62);
    proof {
        assert(gt@ =~= seq![62u8]);
    }
    match find_sub(doc, open, 0) {
        None => None,
        Some(i) => match find_sub(doc, gt.as_slice(), i + open.len()) {
            None => None,
            Some(j) => match find_sub(doc, close, j + 1) {
                None => None,
                Some(k) => Some(
                    vstd::slice::slice_to_vec(vstd::slice::slice_subrange(doc, j + 1, k)),
                ),
            },
        },
    }
}

fn attr_value_bytes(doc: &[u8], open: &[u8], q: u8) -> (r: Option<Vec<u8>>)
    ensures
        match r {
            Some(v) => attr_value(doc@, open@, q) == Some(v@),
            None => attr_value(doc@, open@, q) is None,
        },
{
    let n = doc.len();
    let mut pat: Vec<u8> = Vec::new();
    pat.push(32);
    pat.push(78);
    pat.push(97);
    pat.push(109);
    pat.push(101);
    pat.push(61);
    pat.push(q);
    proof {
        assert(pat@ =~= name_attr_pat() + seq![q]);
    }
    match find_sub(doc, open, 0) {
        None => None,
        Some(i) => match find_sub(doc, pat.as_slice(), i + open.len()) {
            None => None,
            Some(k) => {
                let start = k + 7;
                proof {
                    assert(start == k + name_attr_pat().len() + 1);
                }
                match find_sub(doc, q_needle(q).as_slice(), start) {
                    None => None,
                    Some(m) => Some(
                        vstd::slice::slice_to_vec(vstd::slice::slice_subrange(doc, start, m)),
                    ),
                }
            },
        },
    }
}

fn q_needle(q: u8) -> (r: Vec<u8>)
    ensures
        r@ == seq![q],
{
    let mut v: Vec<u8> = Vec::new();
    v.push(q);
    proof {
        assert(v@ =~= seq![q]);
    }
    v
}

fn provider_tag_bytes() -> (r: Vec<u8>)
    ensures
        r@ == provider_open(),
{
    let mut v: Vec<u8> = Vec::new();
    v.push(60);
    v.push(80);
    v.push(114);
    v.push(111);
    v.push(118);
    v.push(105);
    v.push(100);
    v.push(101);
    v.push(114);
    proof {
        assert(v@ =~= provider_open());
    }
    v
}

fn event_id_open_bytes() -> (r: Vec<u8>)
    ensures
        r@ == event_id_open(),
{
    let mut v: Vec<u8> = Vec::new();
    v.push(60);
    v.push(69);
    v.push(118);
    v.push(101);
    v.push(110);
    v.push(116);
    v.push(73);
    v.push(68);
    proof {
        assert(v@ =~= event_id_open());
    }
    v
}

fn event_id_close_bytes() -> (r: Vec<u8>)
    ensures
        r@ == event_id_close(),
{
    let mut v: Vec<u8> = Vec::new();
    v.push(60);
    v.push(47);
    v.push(69);
    v.push(118);
    v.push(101);
    v.push(110);
    v.push(116);
    v.push(73);
    v.push(68);
    v.push(62);
    proof {
        assert(v@ =~= event_id_close());
    }
    v
}

fn level_open_bytes() -> (r: Vec<u8>)
    ensures
        r@ == level_open(),
{
    let mut v: Vec<u8> = Vec::new();
    v.push(60);
    v.push(76);
    v.push(101);
    v.push(118);
    v.push(101);
    v.push(108);
    proof {
        assert(v@ =~= level_open());
    }
    v
}

fn level_close_bytes() -> (r: Vec<u8>)
    ensures
        r@ == level_close(),
{
    let mut v: Vec<u8> = Vec::new();
    v.push(60);
    v.push(47);
    v.push(76);
    v.push(101);
    v.push(118);
    v.push(101);
    v.push(108);
    v.push(62);
    proof {
        assert(v@ =~= level_close());
    }
    v
}

/// Normalizes one raw record.
pub fn normalize_event(doc: &[u8]) -> (r: Option<LogEventRecord>)
    ensures
        match r {
            Some(rec) => normalize_spec(doc@) == Some(rec@),
            None => normalize_spec(doc@) is None,
        },
{
    let ptag = provider_tag_bytes();
    let name = match attr_value_bytes(doc, ptag.as_slice(), 34) {
        Some(n) => Some(n),
        None => attr_value_bytes(doc, ptag.as_slice(), 39),
    };
    match name {
        None => None,
        Some(nm) => {
            let eo = event_id_open_bytes();
            let ec = event_id_close_bytes();
            match element_text_bytes(doc, eo.as_slice(), ec.as_slice()) {
                None => None,
                Some(ids) => match parse_u32_bytes(ids.as_slice()) {
                    None => None,
                    Some(id) => {
                        let lo = level_open_bytes();
                        let lc = level_close_bytes();
                        match element_text_bytes(doc, lo.as_slice(), lc.as_slice()) {
                            None => None,
                            Some(ls) => match parse_u32_bytes(ls.as_slice()) {
                                None => None,
                                Some(lvl) => Some(
                                    LogEventRecord {
                                        event_id: id,
                                        provider_name: nm,
                                        level: lvl,
                                    },
                                ),
                            },
                        }
                    },
                },
            }
        },
    }
}

/// The normalized records of a batch, in delivery order.
pub open spec fn normalized_of(docs: Seq<Seq<u8>>) -> Seq<(u32, Seq<u8>, u32)>
    decreases docs.len(),
{
    if docs.len() == 0 {
        Seq::empty()
    } else {
        let prev = normalized_of(docs.drop_last());
        match normalize_spec(docs.last()) {
            Some(rec) => prev.push(rec),
            None => prev,
        }
    }
}

/// The indices of the batch's skipped records, in delivery order.
pub open spec fn skipped_of(docs: Seq<Seq<u8>>) -> Seq<int>
    decreases docs.len(),
{
    if docs.len() == 0 {
        Seq::empty()
    } else {
        let prev = skipped_of(docs.drop_last());
        match normalize_spec(docs.last()) {
            Some(rec) => prev,
            None => prev.push(docs.len() - 1),
        }
    }
}

/// Normalizes a batch of raw records: the successes in delivery order, and
/// the indices of the skipped records, for per-record diagnostics.
pub fn normalize_events(docs: &Vec<Vec<u8>>) -> (r: (Vec<LogEventRecord>, Vec<usize>))
    ensures
        r.0.deep_view() == normalized_of(docs.deep_view()),
        r.1@.map_values(|u: usize| u as int) == skipped_of(docs.deep_view()),
{
    let mut out: Vec<LogEventRecord> = Vec::new();
    let mut skipped: Vec<usize> = Vec::new();
    let ghost dv = docs.deep_view();
    let mut i: usize = 0;
    while i < docs.len()
        invariant
            0 <= i <= docs@.len(),
            dv == docs.deep_view(),
            dv.len() == docs@.len(),
            out.deep_view() == normalized_of(dv.subrange(0, i as int)),
            skipped@.map_values(|u: usize| u as int) == skipped_of(dv.subrange(0, i as int)),
        decreases docs@.len() - i,
    {
        let ghost old_out = out.deep_view();
        let ghost old_skipped = skipped@;
        proof {
            assert(dv[i as int] =~~= docs@[i as int]@);
            let cur = dv.subrange(0, i + 1);
            assert(cur.drop_last() =~= dv.subrange(0, i as int));
            assert(cur.last() == dv[i as int]);
        }
        match normalize_event(docs[i].as_slice()) {
            Some(rec) => {
                out.push(rec);
                proof {
                    assert(out.deep_view() =~~= old_out.push(rec@));
                }
            },
            None => {
                skipped.push(i);
                proof {
                    assert(skipped@.map_values(|u: usize| u as int) =~= old_skipped.map_values(
                        |u: usize| u as int,
                    ).push(i as int));
                }
            },
        }
        i = i + 1;
    }
    proof {
        assert(dv.subrange(0, i as int) =~= dv);
    }
    (out, skipped)
}

} // verus!
