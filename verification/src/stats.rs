//! Schema statistics: the read-only oracle the planner costs plans against.
//!
//! Counts are keyed by type identifiers; a missing entry reads as zero.

use vstd::prelude::*;

verus! {

/// A schema type, as the type-annotation oracle reports it.
#[derive(Clone, Copy, Debug, PartialEq, Eq, Structural)]
pub enum SchemaType {
    Entity(u64),
    Relation(u64),
    Attribute(u64),
    RoleType(u64),
}

/// A count keyed by one type id; a missing key reads as zero.
#[derive(Clone, Debug, PartialEq, Eq)]
pub struct CountMap {
    entries: Vec<(u64, u64)>,
}

/// The count of `key` in `entries`: the first entry, or zero when absent.
pub open spec fn spec_count_of(entries: Seq<(u64, u64)>, key: u64) -> u64
    decreases entries.len(),
{
    if entries.len() == 0 {
        0
    } else if entries[0].0 == key {
        entries[0].1
    } else {
        spec_count_of(entries.drop_first(), key)
    }
}

impl CountMap {
    pub closed spec fn view(&self) -> Seq<(u64, u64)> {
        self.entries@
    }

    pub open spec fn spec_get(&self, key: u64) -> u64 {
        spec_count_of(self@, key)
    }

    pub fn new() -> (r: Self)
        ensures
            r@.len() == 0,
    {
        CountMap { entries: Vec::new() }
    }

    /// Records `count` for `key`, overriding an earlier record.
    pub fn set(&mut self, key: u64, count: u64)
        ensures
            final(self)@ == old(self)@.insert(0, (key, count)),
            final(self).spec_get(key) == count,
            forall|k: u64| k != key ==> final(self).spec_get(k) == old(self).spec_get(k),
    {
        self.entries.insert(0, (key, count));
        proof {
            assert(self.entries@.drop_first() =~= old(self).entries@);
        }
    }

    pub fn get(&self, key: u64) -> (r: u64)
        ensures
            r == self.spec_get(key),
    {
        let mut i: usize = 0;
        proof {
            assert(self.entries@.skip(0) =~= self.entries@);
        }
        while i < self.entries.len()
            invariant
                0 <= i <= self.entries@.len(),
                spec_count_of(self.entries@, key)
                    == spec_count_of(self.entries@.skip(i as int), key),
            decreases self.entries@.len() - i,
        {
            proof {
                assert(self.entries@.skip(i as int).drop_first()
                    =~= self.entries@.skip(i as int + 1));
            }
            if self.entries[i].0 == key {
                return self.entries[i].1;
            }
            i += 1;
        }
        0
    }
}

/// A count keyed by an ordered pair of type ids; a missing key reads as zero.
#[derive(Clone, Debug, PartialEq, Eq)]
pub struct PairCountMap {
    entries: Vec<(u64, u64, u64)>,
}

/// The count of `(a, b)` in `entries`: the first entry, or zero when absent.
pub open spec fn spec_pair_count_of(entries: Seq<(u64, u64, u64)>, a: u64, b: u64) -> u64
    decreases entries.len(),
{
    if entries.len() == 0 {
        0
    } else if entries[0].0 == a && entries[0].1 == b {
        entries[0].2
    } else {
        spec_pair_count_of(entries.drop_first(), a, b)
    }
}

impl PairCountMap {
    pub closed spec fn view(&self) -> Seq<(u64, u64, u64)> {
        self.entries@
    }

    pub open spec fn spec_get(&self, a: u64, b: u64) -> u64 {
        spec_pair_count_of(self@, a, b)
    }

    pub fn new() -> (r: Self)
        ensures
            r@.len() == 0,
    {
        PairCountMap { entries: Vec::new() }
    }

    /// Records `count` for `(a, b)`, overriding an earlier record.
    pub fn set(&mut self, a: u64, b: u64, count: u64)
        ensures
            final(self)@ == old(self)@.insert(0, (a, b, count)),
            final(self).spec_get(a, b) == count,
            forall|x: u64, y: u64| !(x == a && y == b)
                ==> final(self).spec_get(x, y) == old(self).spec_get(x, y),
    {
        self.entries.insert(0, (a, b, count));
        proof {
            assert(self.entries@.drop_first() =~= old(self).entries@);
        }
    }

    pub fn get(&self, a: u64, b: u64) -> (r: u64)
        ensures
            r == self.spec_get(a, b),
    {
        let mut i: usize = 0;
        proof {
            assert(self.entries@.skip(0) =~= self.entries@);
        }
        while i < self.entries.len()
            invariant
                0 <= i <= self.entries@.len(),
                spec_pair_count_of(self.entries@, a, b)
                    == spec_pair_count_of(self.entries@.skip(i as int), a, b),
            decreases self.entries@.len() - i,
        {
            proof {
                assert(self.entries@.skip(i as int).drop_first()
                    =~= self.entries@.skip(i as int + 1));
            }
            if self.entries[i].0 == a && self.entries[i].1 == b {
                return self.entries[i].2;
            }
            i += 1;
        }
        0
    }
}

/// The statistics oracle: per-type instance counts and per-edge-kind counts
/// consumed from storage. Missing entries read as zero.
#[derive(Clone, Debug, PartialEq, Eq)]
pub struct Statistics {
    pub entity_counts: CountMap,
    pub relation_counts: CountMap,
    pub attribute_counts: CountMap,
    /// `has` edges per (owner type, attribute type).
    pub has_edge_counts: PairCountMap,
    /// Role-player (`links`) edges per (relation type, player type).
    pub links_edge_counts: PairCountMap,
    /// Schema `owns` declarations per (owner type, attribute type).
    pub owns_edge_counts: PairCountMap,
    /// Schema `plays` declarations per (player type, role type).
    pub plays_edge_counts: PairCountMap,
    /// Schema `relates` declarations per (relation type, role type).
    pub relates_edge_counts: PairCountMap,
    /// Schema `sub` edges per (subtype, supertype).
    pub sub_edge_counts: PairCountMap,
}

impl Statistics {
    pub fn new() -> (r: Self)
        ensures
            r.entity_counts@.len() == 0,
            r.relation_counts@.len() == 0,
            r.attribute_counts@.len() == 0,
            r.has_edge_counts@.len() == 0,
            r.links_edge_counts@.len() == 0,
            r.owns_edge_counts@.len() == 0,
            r.plays_edge_counts@.len() == 0,
            r.relates_edge_counts@.len() == 0,
            r.sub_edge_counts@.len() == 0,
    {
        Statistics {
            entity_counts: CountMap::new(),
            relation_counts: CountMap::new(),
            attribute_counts: CountMap::new(),
            has_edge_counts: PairCountMap::new(),
            links_edge_counts: PairCountMap::new(),
            owns_edge_counts: PairCountMap::new(),
            plays_edge_counts: PairCountMap::new(),
            relates_edge_counts: PairCountMap::new(),
            sub_edge_counts: PairCountMap::new(),
        }
    }
}

/// The number of stored instances of `type_of`. Role types have no stored
/// instances of their own; they read as zero.
pub open spec fn spec_instance_count(type_of: SchemaType, statistics: &Statistics) -> u64 {
    match type_of {
        SchemaType::Entity(id) => statistics.entity_counts.spec_get(id),
        SchemaType::Relation(id) => statistics.relation_counts.spec_get(id),
        SchemaType::Attribute(id) => statistics.attribute_counts.spec_get(id),
        SchemaType::RoleType(_) => 0,
    }
}

/// The number of stored instances of `type_of` under `statistics`.
pub fn instance_count(type_of: SchemaType, statistics: &Statistics) -> (r: u64)
    ensures
        r == spec_instance_count(type_of, statistics),
{
    match type_of {
        SchemaType::Entity(id) => statistics.entity_counts.get(id),
        SchemaType::Relation(id) => statistics.relation_counts.get(id),
        SchemaType::Attribute(id) => statistics.attribute_counts.get(id),
        SchemaType::RoleType(_) => 0,
    }
}

/// The type annotations oracle: for each variable, the set of types it may
/// take, as inferred upstream.
#[derive(Clone, Debug, PartialEq, Eq)]
pub struct TypeAnnotations {
    entries: Vec<(crate::ir::Variable, Vec<SchemaType>)>,
}

/// The annotated types of `v`: the first entry, or empty when absent.
pub open spec fn spec_annotations_of(
    entries: Seq<(crate::ir::Variable, Seq<SchemaType>)>,
    v: crate::ir::Variable,
) -> Seq<SchemaType>
    decreases entries.len(),
{
    if entries.len() == 0 {
        Seq::empty()
    } else if entries[0].0 == v {
        entries[0].1
    } else {
        spec_annotations_of(entries.drop_first(), v)
    }
}

impl TypeAnnotations {
    pub closed spec fn view(&self) -> Seq<(crate::ir::Variable, Seq<SchemaType>)> {
        self.entries@.map_values(|e: (crate::ir::Variable, Vec<SchemaType>)| (e.0, e.1@))
    }

    pub open spec fn spec_get(&self, v: crate::ir::Variable) -> Seq<SchemaType> {
        spec_annotations_of(self@, v)
    }

    pub fn new() -> (r: Self)
        ensures
            r@.len() == 0,
    {
        TypeAnnotations { entries: Vec::new() }
    }

    /// Records the annotated types of `v`, overriding an earlier record.
    pub fn annotate(&mut self, v: crate::ir::Variable, types: Vec<SchemaType>)
        ensures
            final(self)@ == old(self)@.insert(0, (v, types@)),
            final(self).spec_get(v) == types@,
            forall|w: crate::ir::Variable| w != v
                ==> final(self).spec_get(w) == old(self).spec_get(w),
    {
        self.entries.insert(0, (v, types));
        proof {
            assert(self@.drop_first() =~= old(self)@);
            assert(self@[0] == (v, self.entries@[0].1@));
        }
    }

    /// The annotated types of `v`, empty when none were recorded.
    pub fn get(&self, v: crate::ir::Variable) -> (r: Vec<SchemaType>)
        ensures
            r@ == self.spec_get(v),
    {
        let mut i: usize = 0;
        proof {
            assert(self@.skip(0) =~= self@);
        }
        while i < self.entries.len()
            invariant
                0 <= i <= self.entries@.len(),
                spec_annotations_of(self@, v)
                    == spec_annotations_of(self@.skip(i as int), v),
                self@.len() == self.entries@.len(),
                forall|k: int| 0 <= k < self.entries@.len()
                    ==> self@[k] == (#[trigger] self.entries@[k].0, self.entries@[k].1@),
            decreases self.entries@.len() - i,
        {
            proof {
                assert(self@.skip(i as int).drop_first() =~= self@.skip(i as int + 1));
                assert(self@.skip(i as int)[0] == self@[i as int]);
            }
            if self.entries[i].0 == v {
                let r = crate::ids::copy_vec(&self.entries[i].1);
                return r;
            }
            i += 1;
        }
        Vec::new()
    }

    /// The total instance count over the annotated types of `v`, saturating.
    pub fn instance_total(&self, v: crate::ir::Variable, statistics: &Statistics) -> (r: u64)
        ensures
            r == spec_instance_total(self.spec_get(v), statistics),
    {
        let types = self.get(v);
        let ghost all = types@;
        let mut total: u64 = 0;
        let mut i: usize = 0;
        while i < types.len()
            invariant
                0 <= i <= types@.len(),
                types@ == all,
                total == spec_instance_total(all.take(i as int), statistics),
            decreases types@.len() - i,
        {
            proof {
                assert(all.take(i as int + 1).drop_last() =~= all.take(i as int));
                assert(all.take(i as int + 1).last() == all[i as int]);
            }
            total = crate::cost::sat_add(total, instance_count(types[i], statistics));
            i += 1;
        }
        proof {
            assert(all.take(all.len() as int) =~= all);
        }
        total
    }
}

/// The saturating sum of the instance counts of `types`.
pub open spec fn spec_instance_total(types: Seq<SchemaType>, statistics: &Statistics) -> u64
    decreases types.len(),
{
    if types.len() == 0 {
        0
    } else {
        crate::cost::sat64(
            spec_instance_total(types.drop_last(), statistics)
                + spec_instance_count(types.last(), statistics),
        )
    }
}

} // verus!
