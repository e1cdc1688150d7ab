//! The request correlator: turns the asynchronous outbound/inbound transport
//! into synchronous call/response.  A call takes a fresh monotonically
//! increasing id and registers a waiter; the transport's receiver loop
//! deposits responses by id; finishing a call removes both entries, so the
//! tables never retain a finished request.  The blocking itself (condition
//! variables) happens outside the crate; these are the table transitions both
//! sides drive.

use vstd::prelude::*;

verus! {

/// The map view of deposited responses.
pub open spec fn resp_map(s: Seq<(u64, String)>) -> Map<u64, Seq<char>>
    decreases s.len(),
{
    if s.len() == 0 {
        Map::empty()
    } else {
        resp_map(s.drop_last()).insert(s.last().0, s.last().1@)
    }
}

fn find_resp(v: &Vec<(u64, String)>, id: u64) -> (r: Option<usize>)
    ensures
        match r {
            Some(i) => i < v@.len() && v@[i as int].0 == id,
            None => forall|j: int| 0 <= j < v@.len() ==> (#[trigger] v@[j]).0 != id,
        },
{
    let mut i: usize = 0;
    while i < v.len()
        invariant
            i <= v@.len(),
            forall|j: int| 0 <= j < i as int ==> (#[trigger] v@[j]).0 != id,
        decreases v@.len() - i,
    {
        if v[i].0 == id {
            return Some(i);
        }
        i = i + 1;
    }
    None
}

fn find_id(v: &Vec<u64>, id: u64) -> (r: Option<usize>)
    ensures
        match r {
            Some(i) => i < v@.len() && v@[i as int] == id,
            None => forall|j: int| 0 <= j < v@.len() ==> (#[trigger] v@[j]) != id,
        },
{
    let mut i: usize = 0;
    while i < v.len()
        invariant
            i <= v@.len(),
            forall|j: int| 0 <= j < i as int ==> (#[trigger] v@[j]) != id,
        decreases v@.len() - i,
    {
        if v[i] == id {
            return Some(i);
        }
        i = i + 1;
    }
    None
}

pub struct RequestCorrelator {
    /// The next request id to hand out.
    pub next_id: u64,
    /// Ids with a registered waiter.
    pub waiters: Vec<u64>,
    /// Responses deposited by the receiver loop, not yet taken.
    pub responses: Vec<(u64, String)>,
}

impl RequestCorrelator {
    /// Every registered or answered id was handed out before, and each table
    /// holds an id at most once.
    pub open spec fn wf(&self) -> bool {
        &&& (forall|i: int| 0 <= i < self.waiters@.len() ==> #[trigger] self.waiters@[i]
            < self.next_id)
        &&& (forall|i: int, j: int|
            0 <= i < j < self.waiters@.len() ==> self.waiters@[i] != self.waiters@[j])
        &&& (forall|i: int| 0 <= i < self.responses@.len() ==> (#[trigger] self.responses@[i]).0
            < self.next_id)
        &&& (forall|i: int, j: int|
            0 <= i < j < self.responses@.len() ==> self.responses@[i].0 != self.responses@[j].0)
    }

    pub fn new() -> (r: Self)
        ensures
            r.wf(),
            r.next_id == 0,
            r.waiters@ =~= Seq::<u64>::empty(),
            r.responses@ =~= Seq::<(u64, String)>::empty(),
    {
        RequestCorrelator { next_id: 0, waiters: Vec::new(), responses: Vec::new() }
    }

    /// Allocate a fresh id and register its waiter.  The id was never handed
    /// out before: no earlier waiter or response can collide with it.
    pub fn begin_call(&mut self) -> (id: u64)
        requires
            old(self).wf(),
            old(self).next_id < u64::MAX,
        ensures
            final(self).wf(),
            id == old(self).next_id,
            final(self).next_id == old(self).next_id + 1,
            final(self).waiters@ =~= old(self).waiters@.push(id),
            final(self).responses@ == old(self).responses@,
            !old(self).waiters@.contains(id),
            !resp_map(old(self).responses@).contains_key(id),
    {
        let id = self.next_id;
        self.next_id = self.next_id + 1;
        self.waiters.push(id);
        proof {
            lemma_resp_map_ids(self.responses@, id);
        }
        id
    }

    /// The receiver loop deposits a response for a request id.
    pub fn deposit_response(&mut self, id: u64, data: String)
        requires
            old(self).wf(),
            id < old(self).next_id,
        ensures
            final(self).wf(),
            resp_map(final(self).responses@) =~= resp_map(old(self).responses@).insert(id, data@),
            final(self).waiters@ == old(self).waiters@,
            final(self).next_id == old(self).next_id,
    {
        let ghost s0 = self.responses@;
        match find_resp(&self.responses, id) {
            Some(i) => {
                self.responses.set(i, (id, data));
                proof {
                    lemma_resp_map_update(s0, i as int, self.responses@[i as int]);
                }
            },
            None => {
                self.responses.push((id, data));
                proof {
                    assert(self.responses@.drop_last() =~= s0);
                }
            },
        }
    }

    /// Whether a response for this id has arrived.
    pub fn has_response(&self, id: u64) -> (r: bool)
        ensures
            r == resp_map(self.responses@).contains_key(id),
    {
        proof {
            lemma_resp_map_ids(self.responses@, id);
        }
        find_resp(&self.responses, id).is_some()
    }

    /// Finish a call: take the deposited response (empty if none arrived) and
    /// drop both the waiter and the response entry, keeping the tables
    /// bounded whether or not the response ever came.
    pub fn finish_call(&mut self, id: u64) -> (r: String)
        requires
            old(self).wf(),
        ensures
            final(self).wf(),
            resp_map(old(self).responses@).contains_key(id) ==> r@ == resp_map(
                old(self).responses@,
            )[id],
            !resp_map(old(self).responses@).contains_key(id) ==> r@ =~= Seq::<char>::empty(),
            resp_map(final(self).responses@) =~= resp_map(old(self).responses@).remove(id),
            !final(self).waiters@.contains(id),
            forall|x: u64|
                old(self).waiters@.contains(x) && x != id ==> final(self).waiters@.contains(x),
            final(self).next_id == old(self).next_id,
    {
        proof {
            lemma_resp_map_ids(self.responses@, id);
        }
        let ghost s0 = self.responses@;
        let r: String = match find_resp(&self.responses, id) {
            Some(i) => {
                let v = self.responses[i].1.clone();
                proof {
                    lemma_resp_map_index(s0, i as int);
                }
                self.responses.remove(i);
                proof {
                    lemma_resp_map_remove(s0, i as int);
                }
                v
            },
            None => {
                proof {
                    assert(resp_map(self.responses@) =~= resp_map(s0).remove(id));
                }
                String::new()
            },
        };
        let ghost ws = self.waiters@;
        match find_id(&self.waiters, id) {
            Some(w) => {
                self.waiters.remove(w);
                proof {
                    assert forall|x: u64| ws.contains(x) && x != id implies
                        self.waiters@.contains(x) by {
                        let j = choose|j: int| 0 <= j < ws.len() && ws[j] == x;
                        if j < w as int {
                            assert(self.waiters@[j] == x);
                        } else {
                            assert(j != w as int);
                            assert(self.waiters@[j - 1] == x);
                        }
                    }
                    assert forall|j: int|
                        0 <= j < self.waiters@.len() implies (#[trigger] self.waiters@[j])
                        != id by {
                        if j < w as int {
                            assert(ws[j] == self.waiters@[j]);
                        } else {
                            assert(ws[j + 1] == self.waiters@[j]);
                        }
                    }
                }
            },
            None => {},
        }
        r
    }
}

/// A key of the response map is the id of some entry.
proof fn lemma_resp_map_ids(s: Seq<(u64, String)>, id: u64)
    ensures
        resp_map(s).contains_key(id) <==> exists|i: int| 0 <= i < s.len() && (#[trigger] s[i]).0
            == id,
    decreases s.len(),
{
    if s.len() > 0 {
        lemma_resp_map_ids(s.drop_last(), id);
        if s.last().0 != id {
            if resp_map(s).contains_key(id) {
                let i = choose|i: int|
                    0 <= i < s.drop_last().len() && (#[trigger] s.drop_last()[i]).0 == id;
                assert(s[i].0 == id);
            }
            if exists|i: int| 0 <= i < s.len() && (#[trigger] s[i]).0 == id {
                let i = choose|i: int| 0 <= i < s.len() && (#[trigger] s[i]).0 == id;
                assert(s.drop_last()[i].0 == id);
            }
        }
    }
}

proof fn lemma_resp_map_index(s: Seq<(u64, String)>, i: int)
    requires
        0 <= i < s.len(),
        forall|i2: int, j2: int| 0 <= i2 < j2 < s.len() ==> s[i2].0 != s[j2].0,
    ensures
        resp_map(s).contains_key(s[i].0),
        resp_map(s)[s[i].0] == s[i].1@,
    decreases s.len(),
{
    if i < s.len() - 1 {
        lemma_resp_map_index(s.drop_last(), i);
        assert(s.drop_last()[i] == s[i]);
        assert(s.last().0 != s[i].0);
    }
}

proof fn lemma_resp_map_update(s: Seq<(u64, String)>, i: int, pr: (u64, String))
    requires
        0 <= i < s.len(),
        forall|i2: int, j2: int| 0 <= i2 < j2 < s.len() ==> s[i2].0 != s[j2].0,
        pr.0 == s[i].0,
    ensures
        resp_map(s.update(i, pr)) =~= resp_map(s).insert(pr.0, pr.1@),
    decreases s.len(),
{
    let t = s.update(i, pr);
    if i == s.len() - 1 {
        assert(t.drop_last() =~= s.drop_last());
    } else {
        lemma_resp_map_update(s.drop_last(), i, pr);
        assert(t.drop_last() =~= s.drop_last().update(i, pr));
        assert(t.last() == s.last());
        assert(s.last().0 != pr.0);
    }
}

proof fn lemma_resp_map_remove(s: Seq<(u64, String)>, i: int)
    requires
        0 <= i < s.len(),
        forall|i2: int, j2: int| 0 <= i2 < j2 < s.len() ==> s[i2].0 != s[j2].0,
    ensures
        resp_map(s.remove(i)) =~= resp_map(s).remove(s[i].0),
    decreases s.len(),
{
    let t = s.remove(i);
    if i == s.len() - 1 {
        assert(t =~= s.drop_last());
        lemma_resp_map_ids(s.drop_last(), s[i].0);
    } else {
        lemma_resp_map_remove(s.drop_last(), i);
        assert(t.drop_last() =~= s.drop_last().remove(i));
        assert(t.last() == s.last());
        assert(s.last().0 != s[i].0);
    }
}

} // verus!
