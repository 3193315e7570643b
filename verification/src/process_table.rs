//! A point-in-time snapshot of the process table: process id to display
//! name, filled once per run from the live system and then only read.

use vstd::prelude::*;

verus! {

/// The mapping that a sequence of `(pid, name)` pairs denotes; a later pair
/// with the same id wins, as one insertion after another would.
pub open spec fn pairs_map(s: Seq<(i32, Seq<u8>)>) -> Map<i32, Seq<u8>>
    decreases s.len(),
{
    if s.len() == 0 {
        Map::empty()
    } else {
        pairs_map(s.drop_last()).insert(s.last().0, s.last().1)
    }
}

/// A process-id to display-name snapshot. Names are UTF-8 bytes.
pub struct ProcessTable {
    pairs: Vec<(i32, Vec<u8>)>,
}

impl View for ProcessTable {
    type V = Map<i32, Seq<u8>>;

    closed spec fn view(&self) -> Map<i32, Seq<u8>> {
        pairs_map(self.pairs.deep_view())
    }
}

/// Ids at or past `i` never being `pid`, the map's answer for `pid` is
/// settled by the pairs before `i`.
proof fn lemma_pairs_map_prefix(s: Seq<(i32, Seq<u8>)>, i: int, pid: i32)
    requires
        0 <= i <= s.len(),
        forall|k: int| i <= k < s.len() ==> (#[trigger] s[k]).0 != pid,
    ensures
        pairs_map(s).get(pid) == pairs_map(s.subrange(0, i)).get(pid),
    decreases s.len(),
{
    if i == s.len() {
        assert(s.subrange(0, i) =~= s);
    } else {
        let d = s.drop_last();
        assert(s.last().0 != pid);
        lemma_pairs_map_prefix(d, i, pid);
        assert(d.subrange(0, i) =~= s.subrange(0, i));
    }
}

impl ProcessTable {
    /// An empty snapshot.
    pub fn new() -> (r: ProcessTable)
        ensures
            r@ == Map::<i32, Seq<u8>>::empty(),
    {
        let r = ProcessTable { pairs: Vec::new() };
        proof {
            assert(r.pairs.deep_view() =~~= Seq::<(i32, Seq<u8>)>::empty());
        }
        r
    }

    /// Records one process.
    pub fn insert(&mut self, pid: i32, name: Vec<u8>)
        ensures
            final(self)@ == old(self)@.insert(pid, name@),
    {
        let ghost old_dv = self.pairs.deep_view();
        self.pairs.push((pid, name));
        proof {
            let dv = self.pairs.deep_view();
            assert(dv.drop_last() =~~= old_dv);
            assert(dv.last() == (pid, name@));
        }
    }

    /// The display name of `pid`, when the snapshot holds it.
    pub fn lookup(&self, pid: i32) -> (r: Option<Vec<u8>>)
        ensures
            match r {
                Some(name) => self@.contains_key(pid) && name@ == self@[pid],
                None => !self@.contains_key(pid),
            },
    {
        let ghost dv = self.pairs.deep_view();
        let mut i: usize = self.pairs.len();
        while i > 0
            invariant
                0 <= i <= self.pairs@.len(),
                dv == self.pairs.deep_view(),
                dv.len() == self.pairs@.len(),
                forall|k: int| i <= k < dv.len() ==> (#[trigger] dv[k]).0 != pid,
            decreases i,
        {
            proof {
                assert(dv[i - 1] == (self.pairs@[i - 1].0, self.pairs@[i - 1].1@));
            }
            if self.pairs[i - 1].0 == pid {
                let name = self.pairs[i - 1].1.clone();
                proof {
                    assert(name@ =~= self.pairs@[i - 1].1@);
                    lemma_pairs_map_prefix(dv, i as int, pid);
                    let p = dv.subrange(0, i as int);
                    assert(p.drop_last() =~= dv.subrange(0, i - 1));
                    assert(p.last() == dv[i - 1]);
                }
                return Some(name);
            }
            i = i - 1;
        }
        proof {
            lemma_pairs_map_prefix(dv, 0, pid);
            assert(dv.subrange(0, 0) =~= Seq::<(i32, Seq<u8>)>::empty());
        }
        None
    }
}

} // verus!
