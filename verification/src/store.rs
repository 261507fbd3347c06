//! The in-memory store: a map from keys to values, and the server's handling
//! of one request against it.
use vstd::prelude::*;
use vstd::hash_map::StringHashMap;
use crate::protocol::{ReqType, Request, RequestModel, Response, ResponseModel, Status};
use crate::text::{decimal, decimal_text};

verus! {

broadcast use vstd::hash_map::group_hash_map_axioms;

/// The entries of a store, kept in a hash map together with the list of its
/// keys (so that they can be listed) and each key's place in that list (so
/// that a key can leave the list in constant time).
struct Table {
    values: StringHashMap<String>,
    keys: Vec<String>,
    slots: StringHashMap<usize>,
}

impl Table {
    /// The list of keys holds each key of the map exactly once, at the place
    /// that `slots` gives for it.
    spec fn wf(&self) -> bool {
        &&& self.values@.dom() == self.slots@.dom()
        &&& forall|i: int|
            0 <= i < self.keys@.len() ==> {
                &&& self.slots@.contains_key(#[trigger] self.keys@[i]@)
                &&& self.slots@[self.keys@[i]@] == i
            }
        &&& forall|k: Seq<char>|
            #[trigger] self.slots@.contains_key(k) ==> {
                &&& self.slots@[k] < self.keys@.len()
                &&& self.keys@[self.slots@[k] as int]@ == k
            }
    }

    spec fn model(&self) -> Map<Seq<char>, Seq<char>> {
        self.values@.map_values(|v: String| v@)
    }

    fn new() -> (t: Table)
        ensures
            t.wf(),
            t.model() == Map::<Seq<char>, Seq<char>>::empty(),
    {
        let t = Table { values: StringHashMap::new(), keys: Vec::new(), slots: StringHashMap::new() };
        assert(t.model() =~= Map::<Seq<char>, Seq<char>>::empty());
        t
    }

    fn insert(&mut self, k: String, v: String)
        requires
            old(self).wf(),
        ensures
            final(self).wf(),
            final(self).model() == old(self).model().insert(k@, v@),
    {
        if !self.slots.contains_key(k.as_str()) {
            let n = self.keys.len();
            self.slots.insert(k.clone(), n);
            self.keys.push(k.clone());
            assert forall|i: int| 0 <= i < self.keys@.len() implies {
                &&& self.slots@.contains_key(#[trigger] self.keys@[i]@)
                &&& self.slots@[self.keys@[i]@] == i
            } by {
                if i < n {
                    assert(old(self).keys@[i] == self.keys@[i]);
                    assert(old(self).slots@.contains_key(old(self).keys@[i]@));
                }
            }
            assert forall|key: Seq<char>| #[trigger] self.slots@.contains_key(key) implies {
                &&& self.slots@[key] < self.keys@.len()
                &&& self.keys@[self.slots@[key] as int]@ == key
            } by {
                if key != k@ {
                    assert(old(self).slots@.contains_key(key));
                }
            }
        }
        let ghost kv = k@;
        self.values.insert(k, v);
        assert(self.values@.dom() =~= self.slots@.dom());
        assert(self.model() =~= old(self).model().insert(kv, v@));
    }

    fn remove(&mut self, k: &str)
        requires
            old(self).wf(),
        ensures
            final(self).wf(),
            final(self).model() == old(self).model().remove(k@),
    {
        let slot = self.slots.get(k);
        match slot {
            None => {
                assert(self.model() =~= old(self).model().remove(k@));
            },
            Some(s) => {
                let i = *s;
                let last = self.keys.len() - 1;
                let ghost moved = old(self).keys@[last as int]@;
                let _ = self.keys.swap_remove(i);
                if i < last {
                    assert(moved != k@) by {
                        assert(old(self).slots@.contains_key(old(self).keys@[last as int]@));
                    }
                    let m = self.keys[i].clone();
                    self.slots.insert(m, i);
                }
                self.slots.remove(k);
                self.values.remove(k);
                assert forall|j: int| 0 <= j < self.keys@.len() implies {
                    &&& self.slots@.contains_key(#[trigger] self.keys@[j]@)
                    &&& self.slots@[self.keys@[j]@] == j
                } by {
                    if j != i {
                        assert(self.keys@[j] == old(self).keys@[j]);
                        assert(old(self).slots@.contains_key(old(self).keys@[j]@));
                        assert(old(self).slots@.contains_key(old(self).keys@[last as int]@));
                    }
                }
                assert forall|key: Seq<char>| #[trigger] self.slots@.contains_key(key) implies {
                    &&& self.slots@[key] < self.keys@.len()
                    &&& self.keys@[self.slots@[key] as int]@ == key
                } by {
                    assert(old(self).slots@.contains_key(key));
                    if key != moved {
                        let j = old(self).slots@[key] as int;
                        assert(old(self).keys@[j]@ == key);
                        assert(j != last);
                        assert(j != i);
                        assert(self.keys@[j] == old(self).keys@[j]);
                    }
                }
                assert(self.values@.dom() =~= self.slots@.dom());
                assert(self.model() =~= old(self).model().remove(k@));
            },
        }
    }
}

impl Table {
    fn entries(&self) -> (r: Vec<(String, String)>)
        requires
            self.wf(),
        ensures
            r@.len() == self.keys@.len(),
            forall|i: int|
                0 <= i < r@.len() ==> {
                    &&& (#[trigger] r@[i]).0@ == self.keys@[i]@
                    &&& self.model().contains_key(r@[i].0@)
                    &&& r@[i].1@ == self.model()[r@[i].0@]
                },
    {
        let mut r: Vec<(String, String)> = Vec::new();
        let mut i: usize = 0;
        while i < self.keys.len()
            invariant
                self.wf(),
                i <= self.keys@.len(),
                r@.len() == i,
                forall|j: int|
                    0 <= j < i ==> {
                        &&& (#[trigger] r@[j]).0@ == self.keys@[j]@
                        &&& self.model().contains_key(r@[j].0@)
                        &&& r@[j].1@ == self.model()[r@[j].0@]
                    },
            decreases self.keys@.len() - i,
        {
            let k = self.keys[i].clone();
            assert(self.slots@.contains_key(self.keys@[i as int]@));
            let v = match self.values.get(k.as_str()) {
                Some(v) => v.clone(),
                None => {
                    assert(false);
                    String::new()
                },
            };
            r.push((k, v));
            i = i + 1;
        }
        r
    }
}

/// The store of the server: a map from keys to values.
pub struct Store {
    db: Table,
}

impl Store {
    #[verifier::type_invariant]
    spec fn inv(self) -> bool {
        self.db.wf()
    }
}

impl View for Store {
    type V = Map<Seq<char>, Seq<char>>;

    closed spec fn view(&self) -> Map<Seq<char>, Seq<char>> {
        self.db.model()
    }
}

impl Store {
    /// An empty store.
    pub fn new() -> (s: Store)
        ensures
            s@ == Map::<Seq<char>, Seq<char>>::empty(),
    {
        Store { db: Table::new() }
    }

    /// The value stored under `key`, if any.
    pub fn get(&self, key: &str) -> (v: Option<&String>)
        ensures
            match v {
                Some(v) => self@.contains_key(key@) && self@[key@] == v@,
                None => !self@.contains_key(key@),
            },
    {
        self.db.values.get(key)
    }

    /// Whether a value is stored under `key`.
    pub fn contains_key(&self, key: &str) -> (b: bool)
        ensures
            b == self@.contains_key(key@),
    {
        self.db.values.contains_key(key)
    }

    /// The number of keys in the store.
    pub fn len(&self) -> (n: usize)
        ensures
            n == self@.len(),
    {
        proof {
            assert(self.db.values@.dom() =~= self@.dom());
        }
        self.db.values.len()
    }

    /// Stores `value` under `key`, replacing any value stored there.
    pub fn set(&mut self, key: String, value: String)
        ensures
            final(self)@ == old(self)@.insert(key@, value@),
    {
        proof {
            use_type_invariant(&*self);
        }
        let mut t = Table::new();
        std::mem::swap(&mut t, &mut self.db);
        t.insert(key, value);
        self.db = t;
    }

    /// Removes `key` and its value; nothing changes when `key` is absent.
    pub fn del(&mut self, key: &str)
        ensures
            final(self)@ == old(self)@.remove(key@),
    {
        proof {
            use_type_invariant(&*self);
        }
        let mut t = Table::new();
        std::mem::swap(&mut t, &mut self.db);
        t.remove(key);
        self.db = t;
    }

    /// Lists the store's entries, each key once, in no particular order.
    pub fn entries(&self) -> (r: Vec<(String, String)>)
        ensures
            self@.dom().finite(),
            pairs_text(r@).len() == self@.len(),
            entries_of(pairs_text(r@), self@),
    {
        proof {
            use_type_invariant(self);
        }
        let r = self.db.entries();
        proof {
            let ps = pairs_text(r@);
            let m = self@;
            assert forall|i: int, j: int| 0 <= i < j < ps.len() implies ps[i].0 != ps[j].0 by {
                assert(self.db.slots@[self.db.keys@[i]@] == i);
                assert(self.db.slots@[self.db.keys@[j]@] == j);
                assert(r@[i].0@ == self.db.keys@[i]@);
                assert(r@[j].0@ == self.db.keys@[j]@);
            }
            assert forall|k: Seq<char>| #[trigger] m.contains_key(k) implies exists|i: int|
                0 <= i < ps.len() && ps[i].0 == k by {
                let i = self.db.slots@[k] as int;
                assert(self.db.slots@.contains_key(k));
                assert(r@[i].0@ == self.db.keys@[i]@);
                assert(ps[i].0 == k);
            }
            assert forall|i: int| 0 <= i < ps.len() implies m.contains_key(#[trigger] ps[i].0)
                && m[ps[i].0] == ps[i].1 by {
                assert(r@[i].0@ == ps[i].0);
            }
            lemma_entries_len(ps, m);
        }
        r
    }

    /// A store holding the given entries; where a key occurs more than once,
    /// its last value is kept.
    pub fn from_entries(entries: Vec<(String, String)>) -> (s: Store)
        ensures
            s@ == map_of_pairs(pairs_text(entries@)),
    {
        let mut s = Store::new();
        let mut i: usize = 0;
        while i < entries.len()
            invariant
                i <= entries@.len(),
                s@ == map_of_pairs(pairs_text(entries@).take(i as int)),
            decreases entries@.len() - i,
        {
            let k = entries[i].0.clone();
            let v = entries[i].1.clone();
            s.set(k, v);
            proof {
                let ps = pairs_text(entries@);
                assert(ps.take(i + 1).drop_last() =~= ps.take(i as int));
            }
            i = i + 1;
        }
        proof {
            assert(pairs_text(entries@).take(entries@.len() as int) =~= pairs_text(entries@));
        }
        s
    }

    /// Answers a request that only reads (`GET`, `EXISTS` or `TOTAL`) as the
    /// server does.
    pub fn query(&self, req: &Request) -> (res: Response)
        requires
            req.op == ReqType::GET || req.op == ReqType::EXISTS || req.op == ReqType::TOTAL,
        ensures
            res@ == apply_request(self@, req@).1,
    {
        match req.op {
            ReqType::GET => match self.get(req.key.as_str()) {
                Some(v) => Response { status: Status::OK, value: Some(v.clone()) },
                None => Response { status: Status::NotFound, value: None },
            },
            ReqType::EXISTS => {
                let found = self.contains_key(req.key.as_str());
                let text = if found {
                    "true".to_owned()
                } else {
                    "false".to_owned()
                };
                proof {
                    reveal_strlit("true");
                    reveal_strlit("false");
                }
                assert(text@ == bool_text(found));
                Response { status: Status::OK, value: Some(text) }
            },
            _ => {
                let n = self.len();
                Response { status: Status::OK, value: Some(decimal_text(n as u64)) }
            },
        }
    }

    /// Handles one request as the server does: reads and counts leave the store
    /// as it is; `SET` stores, `DEL` removes; the response is as
    /// [`apply_request`] says.
    pub fn apply(&mut self, req: Request) -> (res: Response)
        requires
            req.op == ReqType::SET ==> req.value is Some,
        ensures
            (final(self)@, res@) == apply_request(old(self)@, req@),
    {
        match req.op {
            ReqType::SET => {
                let value = match req.value {
                    Some(v) => v,
                    None => String::new(),
                };
                self.set(req.key, value);
                Response { status: Status::OK, value: None }
            },
            ReqType::DEL => {
                self.del(req.key.as_str());
                Response { status: Status::OK, value: None }
            },
            _ => self.query(&req),
        }
    }
}

/// The texts of a list of key-value pairs.
pub open spec fn pairs_text(ps: Seq<(String, String)>) -> Seq<(Seq<char>, Seq<char>)> {
    ps.map_values(|p: (String, String)| (p.0@, p.1@))
}

/// The map that stores the pairs one after the other, later ones winning.
pub open spec fn map_of_pairs(ps: Seq<(Seq<char>, Seq<char>)>) -> Map<Seq<char>, Seq<char>>
    decreases ps.len(),
{
    if ps.len() == 0 {
        Map::empty()
    } else {
        map_of_pairs(ps.drop_last()).insert(ps.last().0, ps.last().1)
    }
}

/// `ps` lists the entries of `m`: each key once, each with its value, and
/// every key of `m`.
pub open spec fn entries_of(ps: Seq<(Seq<char>, Seq<char>)>, m: Map<Seq<char>, Seq<char>>) -> bool {
    &&& forall|i: int, j: int| 0 <= i < j < ps.len() ==> ps[i].0 != ps[j].0
    &&& forall|i: int| 0 <= i < ps.len() ==> m.contains_key(#[trigger] ps[i].0) && m[ps[i].0] == ps[i].1
    &&& forall|k: Seq<char>| #[trigger] m.contains_key(k) ==> exists|i: int| 0 <= i < ps.len() && ps[i].0 == k
}

/// A list of the entries of a map restores the map.
pub proof fn lemma_entries_restore(ps: Seq<(Seq<char>, Seq<char>)>, m: Map<Seq<char>, Seq<char>>)
    requires
        entries_of(ps, m),
    ensures
        map_of_pairs(ps) == m,
    decreases ps.len(),
{
    if ps.len() == 0 {
        assert(m.dom() =~= Set::<Seq<char>>::empty()) by {
            assert forall|k: Seq<char>| !m.contains_key(k) by {
                if m.contains_key(k) {
                    let i = choose|i: int| 0 <= i < ps.len() && ps[i].0 == k;
                }
            }
        }
        assert(map_of_pairs(ps) =~= m);
    } else {
        let last = ps.last();
        let init = ps.drop_last();
        let m0 = m.remove(last.0);
        assert(entries_of(init, m0)) by {
            assert forall|i: int| 0 <= i < init.len() implies m0.contains_key(#[trigger] init[i].0)
                && m0[init[i].0] == init[i].1 by {
                assert(init[i] == ps[i]);
                assert(ps[i].0 != ps[ps.len() - 1].0);
            }
            assert forall|k: Seq<char>| #[trigger] m0.contains_key(k) implies exists|i: int|
                0 <= i < init.len() && init[i].0 == k by {
                assert(m.contains_key(k));
                let i = choose|i: int| 0 <= i < ps.len() && ps[i].0 == k;
                assert(i != ps.len() - 1);
                assert(init[i] == ps[i]);
            }
            assert forall|i: int, j: int| 0 <= i < j < init.len() implies init[i].0 != init[j].0 by {
                assert(init[i] == ps[i]);
                assert(init[j] == ps[j]);
            }
        }
        lemma_entries_restore(init, m0);
        assert(m.contains_key(last.0) && m[last.0] == last.1) by {
            assert(ps[ps.len() - 1] == last);
        }
        assert(map_of_pairs(ps) =~= m);
    }
}

/// A list of the entries of a map is as long as the map.
proof fn lemma_entries_len(ps: Seq<(Seq<char>, Seq<char>)>, m: Map<Seq<char>, Seq<char>>)
    requires
        entries_of(ps, m),
    ensures
        m.dom().finite(),
        ps.len() == m.len(),
    decreases ps.len(),
{
    if ps.len() == 0 {
        assert(m.dom() =~= Set::<Seq<char>>::empty()) by {
            assert forall|k: Seq<char>| !m.contains_key(k) by {
                if m.contains_key(k) {
                    let i = choose|i: int| 0 <= i < ps.len() && ps[i].0 == k;
                }
            }
        }
    } else {
        let last = ps.last();
        let init = ps.drop_last();
        let m0 = m.remove(last.0);
        assert(entries_of(init, m0)) by {
            assert forall|i: int| 0 <= i < init.len() implies m0.contains_key(#[trigger] init[i].0)
                && m0[init[i].0] == init[i].1 by {
                assert(init[i] == ps[i]);
                assert(ps[i].0 != ps[ps.len() - 1].0);
            }
            assert forall|k: Seq<char>| #[trigger] m0.contains_key(k) implies exists|i: int|
                0 <= i < init.len() && init[i].0 == k by {
                assert(m.contains_key(k));
                let i = choose|i: int| 0 <= i < ps.len() && ps[i].0 == k;
                assert(i != ps.len() - 1);
                assert(init[i] == ps[i]);
            }
            assert forall|i: int, j: int| 0 <= i < j < init.len() implies init[i].0 != init[j].0 by {
                assert(init[i] == ps[i]);
                assert(init[j] == ps[j]);
            }
        }
        lemma_entries_len(init, m0);
        assert(m.contains_key(last.0)) by {
            assert(ps[ps.len() - 1] == last);
        }
        assert(m.dom() =~= m0.dom().insert(last.0));
    }
}

/// The text the server answers an `EXISTS` with.
pub open spec fn bool_text(b: bool) -> Seq<char> {
    if b {
        seq!['t', 'r', 'u', 'e']
    } else {
        seq!['f', 'a', 'l', 's', 'e']
    }
}

/// What the server does with one request: the store afterwards and the
/// response.
pub open spec fn apply_request(m: Map<Seq<char>, Seq<char>>, r: RequestModel) -> (
    Map<Seq<char>, Seq<char>>,
    ResponseModel,
) {
    match r.op {
        ReqType::GET => if m.contains_key(r.key) {
            (m, ResponseModel { status: Status::OK, value: Some(m[r.key]) })
        } else {
            (m, ResponseModel { status: Status::NotFound, value: None })
        },
        ReqType::SET => (
            m.insert(r.key, r.value.unwrap()),
            ResponseModel { status: Status::OK, value: None },
        ),
        ReqType::DEL => (m.remove(r.key), ResponseModel { status: Status::OK, value: None }),
        ReqType::EXISTS => (
            m,
            ResponseModel { status: Status::OK, value: Some(bool_text(m.contains_key(r.key))) },
        ),
        ReqType::TOTAL => (
            m,
            ResponseModel { status: Status::OK, value: Some(decimal(m.len())) },
        ),
    }
}

} // verus!
