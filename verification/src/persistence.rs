//! Snapshots of the store: the bytes that bincode writes for the store's
//! entries, and the store read back from such bytes.
use vstd::prelude::*;
use vstd::utf8::*;
use crate::store::{entries_of, map_of_pairs, pairs_text, Store};

verus! {

/// The eight bytes of `n`, least significant first.
pub open spec fn le64(n: u64) -> Seq<u8> {
    seq![
        n as u8,
        (n >> 8u64) as u8,
        (n >> 16u64) as u8,
        (n >> 24u64) as u8,
        (n >> 32u64) as u8,
        (n >> 40u64) as u8,
        (n >> 48u64) as u8,
        (n >> 56u64) as u8,
    ]
}

/// A string as bincode writes it: its byte length as a little-endian `u64`,
/// then its UTF-8 bytes.
pub open spec fn bincode_str(s: Seq<char>) -> Seq<u8> {
    le64(encode_utf8(s).len() as u64) + encode_utf8(s)
}

/// Key-value pairs as bincode writes them one after the other.
pub open spec fn pairs_bytes(ps: Seq<(Seq<char>, Seq<char>)>) -> Seq<u8>
    decreases ps.len(),
{
    if ps.len() == 0 {
        Seq::empty()
    } else {
        bincode_str(ps[0].0) + bincode_str(ps[0].1) + pairs_bytes(ps.drop_first())
    }
}

/// A list of key-value pairs as bincode writes it (a map is written the same
/// way): the number of pairs as a little-endian `u64`, then the pairs.
pub open spec fn snapshot_bytes(ps: Seq<(Seq<char>, Seq<char>)>) -> Seq<u8> {
    le64(ps.len() as u64) + pairs_bytes(ps)
}

/// The entries a snapshot starting `bytes` holds, if `bytes` starts with a
/// snapshot (there is at most one such list, see [`lemma_snapshot_unique`]).
pub open spec fn snapshot_entries(bytes: Seq<u8>) -> Option<Seq<(Seq<char>, Seq<char>)>> {
    if exists|ps: Seq<(Seq<char>, Seq<char>)>| (#[trigger] snapshot_bytes(ps)).is_prefix_of(bytes) {
        Some(choose|ps: Seq<(Seq<char>, Seq<char>)>| (#[trigger] snapshot_bytes(ps)).is_prefix_of(bytes))
    } else {
        None
    }
}

proof fn lemma_concat_prefix(p: Seq<u8>, q: Seq<u8>, x: Seq<u8>)
    requires
        (p + q).is_prefix_of(x),
    ensures
        p.is_prefix_of(x),
        q.is_prefix_of(x.skip(p.len() as int)),
{
    assert(p =~= x.subrange(0, p.len() as int)) by {
        assert forall|i: int| 0 <= i < p.len() implies p[i] == x[i] by {
            assert((p + q)[i] == x[i]);
        }
    }
    assert(q =~= x.skip(p.len() as int).subrange(0, q.len() as int)) by {
        assert forall|i: int| 0 <= i < q.len() implies q[i] == x[p.len() + i] by {
            assert((p + q)[p.len() + i] == x[p.len() + i]);
        }
    }
}

proof fn lemma_le64_prefix(n: u64, m: u64, x: Seq<u8>)
    requires
        le64(n).is_prefix_of(x),
        le64(m).is_prefix_of(x),
    ensures
        n == m,
{
    assert(le64(n) =~= le64(m)) by {
        assert forall|i: int| 0 <= i < 8 implies le64(n)[i] == le64(m)[i] by {
            assert(le64(n)[i] == x[i]);
            assert(le64(m)[i] == x[i]);
        }
    }
    assert(le64(n)[0] == le64(m)[0]);
    assert(le64(n)[1] == le64(m)[1]);
    assert(le64(n)[2] == le64(m)[2]);
    assert(le64(n)[3] == le64(m)[3]);
    assert(le64(n)[4] == le64(m)[4]);
    assert(le64(n)[5] == le64(m)[5]);
    assert(le64(n)[6] == le64(m)[6]);
    assert(le64(n)[7] == le64(m)[7]);
    assert(n == m) by (bit_vector)
        requires
            n as u8 == m as u8,
            (n >> 8u64) as u8 == (m >> 8u64) as u8,
            (n >> 16u64) as u8 == (m >> 16u64) as u8,
            (n >> 24u64) as u8 == (m >> 24u64) as u8,
            (n >> 32u64) as u8 == (m >> 32u64) as u8,
            (n >> 40u64) as u8 == (m >> 40u64) as u8,
            (n >> 48u64) as u8 == (m >> 48u64) as u8,
            (n >> 56u64) as u8 == (m >> 56u64) as u8,
    ;
}

proof fn lemma_bincode_str_prefix(s: Seq<char>, t: Seq<char>, x: Seq<u8>)
    requires
        bincode_str(s).is_prefix_of(x),
        bincode_str(t).is_prefix_of(x),
        x.len() <= u64::MAX,
    ensures
        s == t,
{
    let bs = encode_utf8(s);
    let bt = encode_utf8(t);
    lemma_concat_prefix(le64(bs.len() as u64), bs, x);
    lemma_concat_prefix(le64(bt.len() as u64), bt, x);
    lemma_le64_prefix(bs.len() as u64, bt.len() as u64, x);
    assert(bs =~= bt) by {
        assert forall|i: int| 0 <= i < bs.len() implies bs[i] == bt[i] by {
            assert(bs[i] == x.skip(8)[i]);
            assert(bt[i] == x.skip(8)[i]);
        }
    }
    encode_utf8_decode_utf8(s);
    encode_utf8_decode_utf8(t);
}

proof fn lemma_pairs_bytes_len(ps: Seq<(Seq<char>, Seq<char>)>)
    ensures
        pairs_bytes(ps).len() >= 16 * ps.len(),
    decreases ps.len(),
{
    if ps.len() > 0 {
        lemma_pairs_bytes_len(ps.drop_first());
    }
}

proof fn lemma_pairs_prefix(a: Seq<(Seq<char>, Seq<char>)>, b: Seq<(Seq<char>, Seq<char>)>, x: Seq<u8>)
    requires
        a.len() == b.len(),
        pairs_bytes(a).is_prefix_of(x),
        pairs_bytes(b).is_prefix_of(x),
        x.len() <= u64::MAX,
    ensures
        a == b,
    decreases a.len(),
{
    if a.len() > 0 {
        let ka = bincode_str(a[0].0);
        let va = bincode_str(a[0].1);
        let kb = bincode_str(b[0].0);
        let vb = bincode_str(b[0].1);
        let ra = pairs_bytes(a.drop_first());
        let rb = pairs_bytes(b.drop_first());
        assert(pairs_bytes(a) =~= ka + (va + ra));
        assert(pairs_bytes(b) =~= kb + (vb + rb));
        lemma_concat_prefix(ka, va + ra, x);
        lemma_concat_prefix(kb, vb + rb, x);
        lemma_bincode_str_prefix(a[0].0, b[0].0, x);
        let x1 = x.skip(ka.len() as int);
        lemma_concat_prefix(va, ra, x1);
        lemma_concat_prefix(vb, rb, x1);
        lemma_bincode_str_prefix(a[0].1, b[0].1, x1);
        let x2 = x1.skip(va.len() as int);
        lemma_pairs_prefix(a.drop_first(), b.drop_first(), x2);
        assert(a =~= b) by {
            assert forall|i: int| 0 <= i < a.len() implies a[i] == b[i] by {
                if i > 0 {
                    assert(a[i] == a.drop_first()[i - 1]);
                    assert(b[i] == b.drop_first()[i - 1]);
                }
            }
        }
    }
}

/// At most one list of pairs has a snapshot that starts given bytes: a
/// snapshot is read back as the list it was written from.
pub proof fn lemma_snapshot_unique(
    a: Seq<(Seq<char>, Seq<char>)>,
    b: Seq<(Seq<char>, Seq<char>)>,
    x: Seq<u8>,
)
    requires
        snapshot_bytes(a).is_prefix_of(x),
        snapshot_bytes(b).is_prefix_of(x),
        x.len() <= u64::MAX,
    ensures
        a == b,
{
    lemma_concat_prefix(le64(a.len() as u64), pairs_bytes(a), x);
    lemma_concat_prefix(le64(b.len() as u64), pairs_bytes(b), x);
    lemma_pairs_bytes_len(a);
    lemma_pairs_bytes_len(b);
    lemma_le64_prefix(a.len() as u64, b.len() as u64, x);
    lemma_pairs_prefix(a, b, x.skip(8));
}

/// A snapshot of a store, followed by anything, is read back as exactly the
/// entries it was written from, and they restore the store.
pub proof fn lemma_restore_after_snapshot(
    ps: Seq<(Seq<char>, Seq<char>)>,
    m: Map<Seq<char>, Seq<char>>,
    rest: Seq<u8>,
)
    requires
        entries_of(ps, m),
        snapshot_bytes(ps).len() + rest.len() <= u64::MAX,
    ensures
        snapshot_entries(snapshot_bytes(ps) + rest) == Some(ps),
        map_of_pairs(ps) == m,
{
    let x = snapshot_bytes(ps) + rest;
    assert(snapshot_bytes(ps).is_prefix_of(x)) by {
        assert(snapshot_bytes(ps) =~= x.subrange(0, snapshot_bytes(ps).len() as int));
    }
    let qs = choose|qs: Seq<(Seq<char>, Seq<char>)>| (#[trigger] snapshot_bytes(qs)).is_prefix_of(x);
    lemma_snapshot_unique(qs, ps, x);
    crate::store::lemma_entries_restore(ps, m);
}

/// `bincode::serialize` on a list of string pairs. With bincode's default
/// (unbounded) size limit nothing in the serialisation of a list of strings
/// can fail: the size check always passes, a list always has a length, and
/// writing into a `Vec` does not fail. So it gives bytes, and they are the
/// list's encoding: the count, then each string as its length and UTF-8 bytes,
/// all lengths little-endian `u64`.
#[verifier::external_body]
fn bincode_serialize_pairs(entries: &Vec<(String, String)>) -> (r: Option<Vec<u8>>)
    ensures
        r is Some,
        r matches Some(b) ==> b@ == snapshot_bytes(pairs_text(entries@)),
{
    bincode::serialize(entries).ok()
}

/// `bincode::deserialize` into a list of string pairs. It succeeds exactly
/// when the bytes start with the encoding of such a list (bytes after it are
/// left unread), and then gives that list.
#[verifier::external_body]
fn bincode_deserialize_pairs(bytes: &[u8]) -> (r: Option<Vec<(String, String)>>)
    ensures
        match r {
            Some(v) => snapshot_bytes(pairs_text(v@)).is_prefix_of(bytes@),
            None => forall|ps: Seq<(Seq<char>, Seq<char>)>| !(#[trigger] snapshot_bytes(ps)).is_prefix_of(bytes@),
        },
{
    bincode::deserialize(bytes).ok()
}

impl Store {
    /// The snapshot of the store: its entries, in some order, as bincode
    /// writes them. It is always given.
    pub fn snapshot(&self) -> (r: Option<Vec<u8>>)
        ensures
            r is Some,
            r matches Some(b) ==> exists|ps: Seq<(Seq<char>, Seq<char>)>|
                entries_of(ps, self@) && b@ == snapshot_bytes(ps),
    {
        let entries = self.entries();
        let r = bincode_serialize_pairs(&entries);
        proof {
            if r is Some {
                assert(entries_of(pairs_text(entries@), self@));
            }
        }
        r
    }

    /// The store a snapshot holds; `None` when the bytes do not start with a
    /// snapshot. Where a key occurs more than once, its last value is kept.
    pub fn restore(bytes: &[u8]) -> (r: Option<Store>)
        ensures
            match r {
                Some(s) => snapshot_entries(bytes@) matches Some(ps) && s@ == map_of_pairs(ps),
                None => snapshot_entries(bytes@) is None,
            },
    {
        let _len = bytes.len();
        assert(bytes@.len() <= u64::MAX);
        match bincode_deserialize_pairs(bytes) {
            Some(entries) => {
                let ghost ps = pairs_text(entries@);
                let s = Store::from_entries(entries);
                proof {
                    let qs = choose|qs: Seq<(Seq<char>, Seq<char>)>|
                        (#[trigger] snapshot_bytes(qs)).is_prefix_of(bytes@);
                    lemma_snapshot_unique(qs, ps, bytes@);
                }
                Some(s)
            },
            None => None,
        }
    }

    /// The store the server starts with: the one the snapshot file holds, or
    /// an empty store when there is no snapshot file (`None`) or its bytes do
    /// not start with a snapshot.
    pub fn restore_or_empty(file: Option<&[u8]>) -> (s: Store)
        ensures
            s@ == match file {
                Some(bytes) => match snapshot_entries(bytes@) {
                    Some(ps) => map_of_pairs(ps),
                    None => Map::empty(),
                },
                None => Map::empty(),
            },
    {
        match file {
            Some(bytes) => match Store::restore(bytes) {
                Some(s) => s,
                None => Store::new(),
            },
            None => Store::new(),
        }
    }
}

} // verus!
