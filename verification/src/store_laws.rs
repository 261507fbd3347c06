//! Laws of the store as the server applies requests to it.
use vstd::prelude::*;
use crate::protocol::{ReqType, RequestModel, ResponseModel, Status};
use crate::store::{apply_request, bool_text};
use crate::text::decimal;

verus! {

/// The request of kind `op` on `key`, with `value` for `SET`.
pub open spec fn req(op: ReqType, key: Seq<char>, value: Option<Seq<char>>) -> RequestModel {
    RequestModel { op, key, value }
}

/// A `GET` after a `SET` of the same key answers the value that was set.
pub proof fn lemma_get_after_set(m: Map<Seq<char>, Seq<char>>, k: Seq<char>, v: Seq<char>)
    ensures
        ({
            let m1 = apply_request(m, req(ReqType::SET, k, Some(v))).0;
            apply_request(m1, req(ReqType::GET, k, None)).1 == ResponseModel {
                status: Status::OK,
                value: Some(v),
            }
        }),
{
}

/// After a `DEL` of a key, a `GET` of it is answered `NotFound` and an
/// `EXISTS` of it `false`.
pub proof fn lemma_get_after_del(m: Map<Seq<char>, Seq<char>>, k: Seq<char>)
    ensures
        ({
            let m1 = apply_request(m, req(ReqType::DEL, k, None)).0;
            &&& apply_request(m1, req(ReqType::GET, k, None)).1 == ResponseModel {
                status: Status::NotFound,
                value: None,
            }
            &&& apply_request(m1, req(ReqType::EXISTS, k, None)).1 == ResponseModel {
                status: Status::OK,
                value: Some(bool_text(false)),
            }
        }),
{
}

/// `SET` and `DEL` of one key leave what a `GET` of any other key answers.
pub proof fn lemma_write_leaves_other_keys(
    m: Map<Seq<char>, Seq<char>>,
    r: RequestModel,
    k: Seq<char>,
)
    requires
        r.op == ReqType::SET || r.op == ReqType::DEL,
        r.key != k,
    ensures
        apply_request(apply_request(m, r).0, req(ReqType::GET, k, None)).1 == apply_request(
            m,
            req(ReqType::GET, k, None),
        ).1,
{
}

/// `GET`, `EXISTS` and `TOTAL` leave the store as it was.
pub proof fn lemma_reads_leave_store(m: Map<Seq<char>, Seq<char>>, r: RequestModel)
    requires
        r.op == ReqType::GET || r.op == ReqType::EXISTS || r.op == ReqType::TOTAL,
    ensures
        apply_request(m, r).0 == m,
{
}

/// `EXISTS` answers `true` exactly when a `GET` of the same key succeeds.
pub proof fn lemma_exists_agrees_with_get(m: Map<Seq<char>, Seq<char>>, k: Seq<char>)
    ensures
        (apply_request(m, req(ReqType::EXISTS, k, None)).1.value == Some(bool_text(true)))
            == (apply_request(m, req(ReqType::GET, k, None)).1.status == Status::OK),
{
    assert(bool_text(true) != bool_text(false)) by {
        assert(bool_text(true).len() != bool_text(false).len());
    }
}

/// `TOTAL` counts the keys: a `SET` of a new key raises the count by one,
/// a `SET` of a present key leaves it.
pub proof fn lemma_total_after_set(m: Map<Seq<char>, Seq<char>>, k: Seq<char>, v: Seq<char>)
    requires
        m.dom().finite(),
    ensures
        ({
            let m1 = apply_request(m, req(ReqType::SET, k, Some(v))).0;
            apply_request(m1, req(ReqType::TOTAL, Seq::empty(), None)).1 == ResponseModel {
                status: Status::OK,
                value: Some(
                    decimal(
                        if m.contains_key(k) {
                            m.len()
                        } else {
                            m.len() + 1
                        },
                    ),
                ),
            }
        }),
{
    let m1 = m.insert(k, v);
    if m.contains_key(k) {
        assert(m1.dom() =~= m.dom());
    } else {
        assert(m1.dom() =~= m.dom().insert(k));
    }
}

/// A `DEL` undoes a `SET` of a key that was absent.
pub proof fn lemma_del_undoes_set(m: Map<Seq<char>, Seq<char>>, k: Seq<char>, v: Seq<char>)
    requires
        !m.contains_key(k),
    ensures
        apply_request(
            apply_request(m, req(ReqType::SET, k, Some(v))).0,
            req(ReqType::DEL, k, None),
        ).0 == m,
{
    assert(m.insert(k, v).remove(k) =~= m);
}

/// Every `SET` is answered `OK` with no value, whether the key was present
/// (and its value is overwritten) or not, and afterwards the key holds the new
/// value while every other key keeps its value.
pub proof fn lemma_set_answer(m: Map<Seq<char>, Seq<char>>, k: Seq<char>, v: Seq<char>)
    ensures
        ({
            let (m1, res) = apply_request(m, req(ReqType::SET, k, Some(v)));
            &&& res.status == Status::OK
            &&& res.value is None
            &&& m1.contains_key(k)
            &&& m1[k] == v
            &&& forall|k2: Seq<char>| k2 != k ==> (#[trigger] m1.contains_key(k2)) == m.contains_key(k2)
            &&& forall|k2: Seq<char>| k2 != k && m.contains_key(k2) ==> #[trigger] m1[k2] == m[k2]
        }),
{
}

} // verus!
