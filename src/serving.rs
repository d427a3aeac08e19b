//! Answering a batch request of the serving process: for every entity and
//! every requested feature, the values in the feature's time range.
use vstd::prelude::*;
use vstd::string::StringSliceAdditionalSpecFns;
use vstd::utf8::encode_utf8;
use crate::keys::{bounds_of, KeyOrder};
use crate::scan::scan_outcome;
use crate::store::{DbInterface, StoreError};

verus! {

/// The key prefix of a feature of an entity: `"<id>.<feature>"`, or the id
/// alone for an unnamed feature.
pub open spec fn feature_prefix_of(id: Seq<char>, feature: Seq<char>) -> Seq<char> {
    if feature.len() == 0 {
        id
    } else {
        id + seq!['.'] + feature
    }
}

/// The key prefix of `feature` of entity `id`.
pub fn feature_prefix(id: &str, feature: &str) -> (r: String)
    ensures
        r@ == feature_prefix_of(id@, feature@),
{
    let mut p = String::from_str(id);
    if !feature.is_empty() {
        p.append(".");
        p.append(feature);
        proof {
            reveal_strlit(".");
        }
        assert(p@ =~= feature_prefix_of(id@, feature@));
    }
    p
}

/// One requested feature and its inclusive time range.
pub struct FeatureQuery {
    /// Feature name; empty for an entity's unnamed series.
    pub name: String,
    /// First timestamp of the range.
    pub start_ts: u16,
    /// Last timestamp of the range.
    pub end_ts: u16,
}

/// Why a batch request got no answer.
#[derive(Debug, PartialEq, Eq)]
pub enum ServeError {
    /// Some entity has no record of some feature in the requested range.
    NotFound,
    /// The store failed.
    Store(StoreError),
}

/// What a request makes of one scan: an empty result is "not found".
pub open spec fn admitted(res: Result<Vec<u32>, StoreError>, r: Result<Vec<u32>, ServeError>) -> bool {
    match res {
        Ok(v) => if v@.len() == 0 {
            r == Err::<Vec<u32>, ServeError>(ServeError::NotFound)
        } else {
            r == Ok::<Vec<u32>, ServeError>(v)
        },
        Err(e) => r == Err::<Vec<u32>, ServeError>(ServeError::Store(e)),
    }
}

/// Turns the result of one scan into the answer for one entity and feature:
/// values are kept, an empty sequence is "not found", a store error passes.
pub fn admit_values(res: Result<Vec<u32>, StoreError>) -> (r: Result<Vec<u32>, ServeError>)
    ensures
        admitted(res, r),
{
    match res {
        Ok(v) => if v.len() == 0 {
            Err(ServeError::NotFound)
        } else {
            Ok(v)
        },
        Err(e) => Err(ServeError::Store(e)),
    }
}

/// The scan bounds of a feature of an entity.
pub open spec fn query_bounds(id: Seq<char>, q: FeatureQuery) -> (Seq<u8>, Seq<u8>) {
    bounds_of(KeyOrder::Reverse, encode_utf8(feature_prefix_of(id, q.name@)), q.start_ts, q.end_ts)
}

/// For each entity of `ids`, in order, the values of each feature of
/// `features`, in order; entity by entity, the first feature of an entity
/// with no record in range makes the whole answer "not found".
pub fn lookup_features<D: DbInterface + ?Sized>(db: &D, ids: &[String], features: &[FeatureQuery]) -> (r: Result<Vec<Vec<Vec<u32>>>, ServeError>)
    ensures
        ids@.len() == 0 || features@.len() == 0 ==> r is Ok,
        r matches Ok(rows) ==> {
            &&& rows@.len() == ids@.len()
            &&& forall|i: int|
                0 <= i < ids@.len() ==> {
                    &&& (#[trigger] rows@[i])@.len() == features@.len()
                    &&& forall|f: int|
                        0 <= f < features@.len() ==> {
                            let v = (#[trigger] rows@[i]@[f]);
                            let (lo, hi) = query_bounds(ids@[i]@, features@[f]);
                            &&& v@.len() > 0
                            &&& scan_outcome(Ok(v), lo, hi)
                        }
                }
        },
{
    let mut rows: Vec<Vec<Vec<u32>>> = Vec::new();
    let mut i: usize = 0;
    while i < ids.len()
        invariant
            i <= ids@.len(),
            rows@.len() == i,
            forall|a: int|
                0 <= a < i ==> {
                    &&& (#[trigger] rows@[a])@.len() == features@.len()
                    &&& forall|f: int|
                        0 <= f < features@.len() ==> {
                            let v = (#[trigger] rows@[a]@[f]);
                            let (lo, hi) = query_bounds(ids@[a]@, features@[f]);
                            &&& v@.len() > 0
                            &&& scan_outcome(Ok(v), lo, hi)
                        }
                },
        decreases ids@.len() - i,
    {
        let id = &ids[i];
        let mut row: Vec<Vec<u32>> = Vec::new();
        let mut f: usize = 0;
        while f < features.len()
            invariant
                i < ids@.len(),
                id == ids@[i as int],
                f <= features@.len(),
                row@.len() == f,
                forall|b: int|
                    0 <= b < f ==> {
                        let v = (#[trigger] row@[b]);
                        let (lo, hi) = query_bounds(id@, features@[b]);
                        &&& v@.len() > 0
                        &&& scan_outcome(Ok(v), lo, hi)
                    },
            decreases features@.len() - f,
        {
            let q = &features[f];
            let prefix = feature_prefix(id.as_str(), q.name.as_str());
            let res = db.prefix_seek(prefix.as_str(), q.start_ts, q.end_ts);
            match admit_values(res) {
                Ok(v) => {
                    row.push(v);
                },
                Err(e) => {
                    return Err(e);
                },
            }
            f = f + 1;
        }
        rows.push(row);
        i = i + 1;
    }
    Ok(rows)
}

} // verus!
