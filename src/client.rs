use vstd::prelude::*;

use crate::metadata::{Metadata as RegistryEntry, MetadataView};

verus! {

broadcast use vstd::seq::group_seq_axioms;

/// The value that `path` has in a list of `(path, id)` pairs where later
/// pairs override earlier ones.
pub open spec fn lookup(s: Seq<(Seq<char>, u32)>, path: Seq<char>) -> Option<u32>
    decreases s.len(),
{
    if s.len() == 0 {
        None
    } else if s[s.len() - 1].0 == path {
        Some(s[s.len() - 1].1)
    } else {
        lookup(s.subrange(0, s.len() - 1), path)
    }
}

/// The client-local cache a snapshot of registry entries yields.
pub open spec fn snapshot_cache(entries: Seq<MetadataView>) -> Map<Seq<char>, u32>
    decreases entries.len(),
{
    if entries.len() == 0 {
        Map::empty()
    } else {
        let e = entries[entries.len() - 1];
        snapshot_cache(entries.subrange(0, entries.len() - 1)).insert(e.path, e.id)
    }
}

/// After a snapshot whose paths are distinct, every path of the snapshot
/// resolves to the id it came with.
pub proof fn lemma_snapshot_resolves(entries: Seq<MetadataView>)
    requires
        forall|i: int, j: int|
            0 <= i < entries.len() && 0 <= j < entries.len() && i != j ==> (#[trigger] entries[i]).path
                != (#[trigger] entries[j]).path,
    ensures
        forall|i: int|
            0 <= i < entries.len() ==> snapshot_cache(entries).contains_key(
                (#[trigger] entries[i]).path,
            ) && snapshot_cache(entries)[entries[i].path] == entries[i].id,
    decreases entries.len(),
{
    if entries.len() > 0 {
        let front = entries.subrange(0, entries.len() - 1);
        lemma_snapshot_resolves(front);
        assert forall|i: int| 0 <= i < entries.len() implies snapshot_cache(entries).contains_key(
            (#[trigger] entries[i]).path,
        ) && snapshot_cache(entries)[entries[i].path] == entries[i].id by {
            if i < entries.len() - 1 {
                assert(front[i] == entries[i]);
            }
        }
    }
}

/// A path absent from the snapshot resolves to nothing, whatever the cache
/// held before.
pub proof fn lemma_snapshot_absent(entries: Seq<MetadataView>, path: Seq<char>)
    requires
        forall|i: int| 0 <= i < entries.len() ==> (#[trigger] entries[i]).path != path,
    ensures
        !snapshot_cache(entries).contains_key(path),
    decreases entries.len(),
{
    if entries.len() > 0 {
        let front = entries.subrange(0, entries.len() - 1);
        assert forall|i: int| 0 <= i < front.len() implies (#[trigger] front[i]).path != path by {
            assert(front[i] == entries[i]);
        }
        lemma_snapshot_absent(front, path);
    }
}

/// The client-local cache from path to id.
pub struct Metadata {
    id_map: Vec<(String, u32)>,
}

impl Metadata {
    closed spec fn pairs(&self) -> Seq<(Seq<char>, u32)> {
        self.id_map@.map_values(|e: (String, u32)| (e.0@, e.1))
    }
}

impl View for Metadata {
    type V = Map<Seq<char>, u32>;

    closed spec fn view(&self) -> Map<Seq<char>, u32> {
        Map::new(
            |p: Seq<char>| lookup(self.pairs(), p) is Some,
            |p: Seq<char>| lookup(self.pairs(), p)->Some_0,
        )
    }
}

impl Metadata {
    pub fn new() -> (m: Self)
        ensures
            m@ == Map::<Seq<char>, u32>::empty(),
    {
        let m = Metadata { id_map: Vec::new() };
        assert(m@ =~= Map::<Seq<char>, u32>::empty());
        m
    }

    /// Maps `path` to `id`, replacing an earlier id for it.
    pub fn add(&mut self, path: String, id: u32)
        ensures
            final(self)@ == old(self)@.insert(path@, id),
    {
        let ghost before = self.pairs();
        self.id_map.push((path, id));
        proof {
            let after = self.pairs();
            assert(after =~= before.push((path@, id)));
            assert(after.subrange(0, after.len() - 1) =~= before);
            assert forall|p: Seq<char>| #[trigger] lookup(after, p) == if p == path@ {
                Some(id)
            } else {
                lookup(before, p)
            } by {}
        }
        assert(self@ =~= old(self)@.insert(path@, id));
    }

    pub fn get(&self, path: &String) -> (r: Option<u32>)
        ensures
            r == (if self@.contains_key(path@) {
                Some(self@[path@])
            } else {
                None
            }),
    {
        let mut i: usize = self.id_map.len();
        assert(self.pairs().subrange(0, i as int) =~= self.pairs());
        while i > 0
            invariant
                i <= self.id_map.len(),
                lookup(self.pairs(), path@) == lookup(self.pairs().subrange(0, i as int), path@),
            decreases i,
        {
            let ghost s = self.pairs().subrange(0, i as int);
            assert(s.subrange(0, i - 1) =~= self.pairs().subrange(0, i - 1));
            if self.id_map[i - 1].0 == *path {
                return Some(self.id_map[i - 1].1);
            }
            i = i - 1;
        }
        None
    }
}

/// The client's hand-off point between the subscription and the producer:
/// the producer may read the cache only once a snapshot has been applied.
pub struct SubscriptionGate {
    ready: bool,
    metadata: Metadata,
}

impl SubscriptionGate {
    pub closed spec fn spec_ready(&self) -> bool {
        self.ready
    }

    pub closed spec fn spec_cache(&self) -> Map<Seq<char>, u32> {
        self.metadata@
    }

    pub fn new() -> (g: Self)
        ensures
            !g.spec_ready(),
            g.spec_cache() == Map::<Seq<char>, u32>::empty(),
    {
        SubscriptionGate { ready: false, metadata: Metadata::new() }
    }

    pub fn is_ready(&self) -> (r: bool)
        ensures
            r == self.spec_ready(),
    {
        self.ready
    }

    /// The id the cache holds for `path`; nothing before a snapshot arrived.
    pub fn resolve(&self, path: &String) -> (r: Option<u32>)
        ensures
            r == (if self.spec_ready() && self.spec_cache().contains_key(path@) {
                Some(self.spec_cache()[path@])
            } else {
                None
            }),
    {
        if self.ready {
            self.metadata.get(path)
        } else {
            None
        }
    }
}

/// Applies a registry snapshot: the cache is replaced by one that holds
/// exactly `entries`, and the ready flag is set last.
pub fn on_sub_applied(gate: &mut SubscriptionGate, entries: &Vec<RegistryEntry>)
    ensures
        final(gate).spec_ready(),
        final(gate).spec_cache() == snapshot_cache(entries@.map_values(
            |m: RegistryEntry| m@,
        )),
{
    let ghost views = entries@.map_values(|m: RegistryEntry| m@);
    let mut cache = Metadata::new();
    let mut i: usize = 0;
    while i < entries.len()
        invariant
            i <= entries.len(),
            views == entries@.map_values(|m: RegistryEntry| m@),
            cache@ == snapshot_cache(views.subrange(0, i as int)),
        decreases entries.len() - i,
    {
        let ghost prev = views.subrange(0, i as int);
        cache.add(entries[i].path.clone(), entries[i].id);
        assert(views.subrange(0, i + 1).subrange(0, i as int) =~= prev);
        i = i + 1;
    }
    assert(views.subrange(0, entries.len() as int) =~= views);
    gate.metadata = cache;
    gate.ready = true;
}

/// The highest speed the synthetic signal reaches before it wraps to zero.
pub const MAX_SPEED_KPH: u32 = 250;

/// The next value of the sawtooth signal: one more, back to zero once the
/// ceiling would be exceeded.
pub fn next_vehicle_speed(speed: u32) -> (r: u32)
    ensures
        r == (if speed + 1 > MAX_SPEED_KPH {
            0
        } else {
            speed + 1
        }),
{
    if speed >= MAX_SPEED_KPH {
        0
    } else {
        speed + 1
    }
}

} // verus!
