//! Workload generation: deterministic key suffixes, and the batching plan of
//! a writer that fills a store with them.
use vstd::prelude::*;
use vstd::string::StringSliceAdditionalSpecFns;
use crate::keys::{digits, push_digits};
use crate::scan::record_views;

verus! {

/// Records per write batch.
pub const WRITE_BATCH_SIZE: usize = 1000;

/// Entity indexes are written with this many digits.
pub const ENTITY_WIDTH: usize = 10;

/// Replica indexes are written with this many digits.
pub const REPLICA_WIDTH: usize = 2;

/// The byte between a key prefix and its suffix.
pub const DOT: u8 = 46;

/// The largest number of entities whose indexes fit in `ENTITY_WIDTH` digits.
pub const MAX_ENTITIES: u64 = 10_000_000_000;

/// The suffix of replica `j` of entity `i`: `i` on ten digits, then `j` on two.
pub open spec fn suffix_of(i: nat, j: nat) -> Seq<u8> {
    digits(i, ENTITY_WIDTH as nat) + digits(j, REPLICA_WIDTH as nat)
}

/// The key `"<prefix>.<suffix>"` of replica `j` of entity `i`.
pub open spec fn entity_key(prefix: Seq<u8>, i: nat, j: nat) -> Seq<u8> {
    prefix + seq![DOT] + suffix_of(i, j)
}

fn push_suffix(out: &mut Vec<u8>, i: usize, j: usize)
    ensures
        final(out)@ == old(out)@ + suffix_of(i as nat, j as nat),
{
    push_digits(out, i as u64, ENTITY_WIDTH);
    push_digits(out, j as u64, REPLICA_WIDTH);
    assert(final(out)@ =~= old(out)@ + suffix_of(i as nat, j as nat));
}

/// The suffixes of `num_per_key` replicas of each of `num_keys` entities, entity
/// by entity: replica `j` of entity `i` stands at `i * num_per_key + j`.
pub fn generate_keys(num_keys: usize, num_per_key: usize) -> (r: Vec<Vec<u8>>)
    requires
        num_per_key < 100,
        num_keys <= MAX_ENTITIES,
        num_keys * num_per_key <= usize::MAX,
    ensures
        r@.len() == num_keys * num_per_key,
        forall|i: int, j: int|
            0 <= i < num_keys && 0 <= j < num_per_key ==> (#[trigger] r@[i * num_per_key + j])@
                == suffix_of(i as nat, j as nat),
{
    let mut out: Vec<Vec<u8>> = Vec::new();
    let mut i: usize = 0;
    while i < num_keys
        invariant
            i <= num_keys,
            num_keys * num_per_key <= usize::MAX,
            out@.len() == i * num_per_key,
            forall|a: int, b: int|
                0 <= a < i && 0 <= b < num_per_key ==> (#[trigger] out@[a * num_per_key + b])@
                    == suffix_of(a as nat, b as nat),
        decreases num_keys - i,
    {
        let mut j: usize = 0;
        while j < num_per_key
            invariant
                i < num_keys,
                j <= num_per_key,
                num_keys * num_per_key <= usize::MAX,
                out@.len() == i * num_per_key + j,
                forall|a: int, b: int|
                    (0 <= a < i && 0 <= b < num_per_key) || (a == i && 0 <= b < j) ==> (
                    #[trigger] out@[a * num_per_key + b])@ == suffix_of(a as nat, b as nat),
            decreases num_per_key - j,
        {
            let mut s: Vec<u8> = Vec::new();
            push_suffix(&mut s, i, j);
            assert(s@ =~= suffix_of(i as nat, j as nat));
            let ghost before = out@;
            out.push(s);
            proof {
                assert forall|a: int, b: int|
                    (0 <= a < i && 0 <= b < num_per_key) || (a == i && 0 <= b < j + 1) implies (
                    #[trigger] out@[a * num_per_key + b])@ == suffix_of(a as nat, b as nat) by {
                    if a < i {
                        assert(a * num_per_key + b < i * num_per_key) by (nonlinear_arith)
                            requires
                                a < i,
                                b < num_per_key,
                        ;
                        assert(out@[a * num_per_key + b] == before[a * num_per_key + b]);
                    } else if b < j {
                        assert(out@[a * num_per_key + b] == before[a * num_per_key + b]);
                    }
                }
            }
            j = j + 1;
        }
        assert((i + 1) * num_per_key == i * num_per_key + num_per_key) by (nonlinear_arith);
        i = i + 1;
        assert(i * num_per_key <= num_keys * num_per_key) by (nonlinear_arith)
            requires
                i <= num_keys,
        ;
    }
    out
}

/// The records and canonical keys of a writer that fills a store with
/// `num_per_key` replicas of each of `num_keys` entities, in batches of
/// `WRITE_BATCH_SIZE`. The canonical key of an entity is its replica `0`.
pub struct KeyWriter {
    /// Key prefix, written before a `.` and the suffix.
    pub prefix: Vec<u8>,
    /// Number of entities.
    pub num_keys: usize,
    /// Replicas per entity.
    pub num_per_key: usize,
    /// Entity of the next key.
    pub entity: usize,
    /// Replica of the next key.
    pub replica: usize,
    /// Records not yet handed out.
    pub batch: Vec<(Vec<u8>, Vec<u8>)>,
    /// Canonical keys of the entities begun so far, in order.
    pub canonical: Vec<Vec<u8>>,
}

impl KeyWriter {
    /// The writer's invariant.
    pub open spec fn wf(&self) -> bool {
        &&& self.num_per_key < 100
        &&& self.num_keys <= MAX_ENTITIES
        &&& self.entity <= self.num_keys
        &&& self.replica < self.num_per_key || self.replica == 0
        &&& self.entity == self.num_keys ==> self.replica == 0
        &&& self.batch@.len() < WRITE_BATCH_SIZE
        &&& self.canonical@.len() == self.entity + if self.replica > 0 {
            1int
        } else {
            0int
        }
        &&& forall|m: int|
            0 <= m < self.canonical@.len() ==> (#[trigger] self.canonical@[m])@ == entity_key(
                self.prefix@,
                m as nat,
                0,
            )
    }

    /// Whether keys remain to be written.
    pub open spec fn remaining(&self) -> bool {
        self.num_per_key > 0 && self.entity < self.num_keys
    }

    /// A writer at the first key under `prefix`, with nothing batched.
    pub fn new(prefix: &str, num_keys: usize, num_per_key: usize) -> (r: KeyWriter)
        requires
            num_per_key < 100,
            num_keys <= MAX_ENTITIES,
        ensures
            r.wf(),
            r.prefix@ == prefix.spec_bytes(),
            r.num_keys == num_keys,
            r.num_per_key == num_per_key,
            r.entity == 0,
            r.replica == 0,
            r.batch@.len() == 0,
    {
        let mut p: Vec<u8> = Vec::new();
        let bytes = prefix.as_bytes();
        let mut k: usize = 0;
        while k < bytes.len()
            invariant
                k <= bytes@.len(),
                p@ == bytes@.subrange(0, k as int),
            decreases bytes@.len() - k,
        {
            p.push(bytes[k]);
            k = k + 1;
            assert(p@ =~= bytes@.subrange(0, k as int));
        }
        assert(p@ =~= bytes@);
        KeyWriter {
            prefix: p,
            num_keys,
            num_per_key,
            entity: 0,
            replica: 0,
            batch: Vec::new(),
            canonical: Vec::new(),
        }
    }

    /// Whether keys remain to be written.
    pub fn has_next(&self) -> (r: bool)
        ensures
            r == self.remaining(),
    {
        self.num_per_key > 0 && self.entity < self.num_keys
    }

    /// The next key: `"<prefix>.<entity><replica>"`.
    pub fn next_key(&self) -> (r: Vec<u8>)
        ensures
            r@ == entity_key(self.prefix@, self.entity as nat, self.replica as nat),
    {
        let mut k: Vec<u8> = self.prefix.clone();
        k.push(DOT);
        push_suffix(&mut k, self.entity, self.replica);
        assert(k@ =~= entity_key(self.prefix@, self.entity as nat, self.replica as nat));
        k
    }

    /// Adds the next key with `value` to the batch and moves on to the key
    /// after it; hands the batch out once it holds `WRITE_BATCH_SIZE` records.
    pub fn push(&mut self, value: Vec<u8>) -> (r: Option<Vec<(Vec<u8>, Vec<u8>)>>)
        requires
            old(self).wf(),
            old(self).remaining(),
        ensures
            final(self).wf(),
            final(self).prefix == old(self).prefix,
            final(self).num_keys == old(self).num_keys,
            final(self).num_per_key == old(self).num_per_key,
            old(self).replica + 1 < old(self).num_per_key ==> final(self).entity == old(self).entity
                && final(self).replica == old(self).replica + 1,
            old(self).replica + 1 == old(self).num_per_key ==> final(self).entity == old(
                self,
            ).entity + 1 && final(self).replica == 0,
            ({
                let rec = (
                    entity_key(old(self).prefix@, old(self).entity as nat, old(self).replica as nat),
                    value@,
                );
                let all = record_views(old(self).batch@).push(rec);
                if all.len() == WRITE_BATCH_SIZE {
                    &&& r is Some
                    &&& record_views(r->Some_0@) == all
                    &&& final(self).batch@.len() == 0
                } else {
                    &&& r is None
                    &&& record_views(final(self).batch@) == all
                }
            }),
    {
        let key = self.next_key();
        let ghost rec = (key@, value@);
        let ghost all = record_views(self.batch@).push(rec);
        if self.replica == 0 {
            self.canonical.push(key.clone());
        }
        self.batch.push((key, value));
        assert(record_views(self.batch@) =~= all);
        if self.replica + 1 < self.num_per_key {
            self.replica = self.replica + 1;
        } else {
            self.entity = self.entity + 1;
            self.replica = 0;
        }
        if self.batch.len() == WRITE_BATCH_SIZE {
            let mut full: Vec<(Vec<u8>, Vec<u8>)> = Vec::new();
            std::mem::swap(&mut full, &mut self.batch);
            Some(full)
        } else {
            None
        }
    }

    /// The records still batched and the canonical keys of the entities begun.
    pub fn finish(self) -> (r: (Vec<(Vec<u8>, Vec<u8>)>, Vec<Vec<u8>>))
        ensures
            r.0 == self.batch,
            r.1 == self.canonical,
    {
        (self.batch, self.canonical)
    }
}

} // verus!
