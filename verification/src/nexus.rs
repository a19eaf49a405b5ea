//! The content-addressed registry.
//!
//! Containers are keyed by the SHA-256 hash of their payload.  Keys are
//! unique; a later `put` with a colliding hash overwrites the earlier
//! entry — hash collision is the intended deduplication signal, not an
//! error.  A lookup miss is a normal result, not a failure.
//!
//! The registry is a plain value behind `&mut`; Rust's exclusive borrows
//! give the single-writer discipline the store asks for, and a process
//! that shares one instance across tasks wraps it in its own lock.
//!
//! The store has no capacity bound and no eviction policy: entries live
//! until explicitly overwritten.  A deployment that needs a bound must
//! add one on top.

use vstd::prelude::*;
use crate::m8::M8Container;
use crate::m8::M8ContainerV;
use crate::m8::M8ContentType;
use crate::m8::hash_consistent;

verus! {

/// Statistics of the engine behind the registry, reported verbatim.
#[derive(Clone, Copy, Debug)]
pub struct Mem8Stats {
    pub total_memories: u64,
    pub grid_dimensions: (usize, usize),
}

/// How many stored containers carry each content-type tag.
#[derive(Clone, Copy, Debug, PartialEq, Eq, Structural)]
pub struct TypeCounts {
    pub marqant: usize,
    pub wave_pattern: usize,
    pub language: usize,
    pub visual: usize,
    pub audio: usize,
    pub compound: usize,
}

/// A point-in-time snapshot of the registry's aggregate state.
#[derive(Clone, Copy, Debug)]
pub struct NexusStats {
    pub total_containers: usize,
    pub type_counts: TypeCounts,
    pub mem8_stats: Mem8Stats,
}

/// Whether an entry list holds no two containers with the same hash.
pub open spec fn sigs_unique(s: Seq<M8Container>) -> bool {
    forall|i: int, j: int| 0 <= i < j < s.len()
        ==> (#[trigger] s[i])@.wave_signature != (#[trigger] s[j])@.wave_signature
}

/// Whether some entry carries the hash `k`.
pub open spec fn has_sig(s: Seq<M8Container>, k: Seq<u8>) -> bool {
    exists|i: int| 0 <= i < s.len() && (#[trigger] s[i])@.wave_signature == k
}

/// The index of the entry carrying the hash `k`.
pub open spec fn idx_of(s: Seq<M8Container>, k: Seq<u8>) -> int {
    choose|i: int| 0 <= i < s.len() && (#[trigger] s[i])@.wave_signature == k
}

/// The entry list as a map from content hash to container.
pub open spec fn nexus_map(s: Seq<M8Container>) -> Map<Seq<u8>, M8ContainerV> {
    Map::new(|k: Seq<u8>| has_sig(s, k), |k: Seq<u8>| s[idx_of(s, k)]@)
}

/// In a list without duplicate hashes, each entry is the one its own
/// hash maps to.
proof fn lemma_nexus_map_at(s: Seq<M8Container>, i: int)
    requires
        sigs_unique(s),
        0 <= i < s.len(),
    ensures
        nexus_map(s).contains_key(s[i]@.wave_signature),
        nexus_map(s)[s[i]@.wave_signature] == s[i]@,
{
    let k = s[i]@.wave_signature;
    assert(has_sig(s, k));
    let j = idx_of(s, k);
    assert(0 <= j < s.len() && s[j]@.wave_signature == k);
    if i != j {
        assert(false);
    }
}

/// Appending an entry with a fresh hash inserts it into the map.
proof fn lemma_nexus_map_push(s: Seq<M8Container>, c: M8Container)
    requires
        sigs_unique(s),
        !has_sig(s, c@.wave_signature),
    ensures
        sigs_unique(s.push(c)),
        nexus_map(s.push(c)) == nexus_map(s).insert(c@.wave_signature, c@),
{
    let t = s.push(c);
    let k = c@.wave_signature;
    assert forall|i: int, j: int| 0 <= i < j < t.len() implies (#[trigger] t[i])@.wave_signature
        != (#[trigger] t[j])@.wave_signature by {
        if j < s.len() {
            assert(t[i] == s[i] && t[j] == s[j]);
        } else {
            assert(t[j] == c && t[i] == s[i]);
            assert(has_sig(s, s[i]@.wave_signature));
        }
    }
    let m1 = nexus_map(t);
    let m2 = nexus_map(s).insert(k, c@);
    assert forall|q: Seq<u8>| #[trigger] m1.contains_key(q) implies m2.contains_key(q) by {
        let i = idx_of(t, q);
        if i < s.len() {
            assert(has_sig(s, q));
        }
    }
    assert forall|q: Seq<u8>| #[trigger] m2.contains_key(q) implies m1.contains_key(q) by {
        if q == k {
            assert(t[s.len() as int]@.wave_signature == q);
            assert(has_sig(t, q));
        } else {
            let i = idx_of(s, q);
            assert(t[i]@.wave_signature == q);
            assert(has_sig(t, q));
        }
    }
    assert forall|q: Seq<u8>| m1.contains_key(q) && m2.contains_key(q) implies #[trigger] m1[q]
        == #[trigger] m2[q] by {
        lemma_nexus_map_at(t, idx_of(t, q));
        if q == k {
            lemma_nexus_map_at(t, s.len() as int);
        } else {
            let i = idx_of(s, q);
            assert(0 <= i < s.len() && s[i]@.wave_signature == q);
            assert(t[i] == s[i]);
            lemma_nexus_map_at(t, i);
            lemma_nexus_map_at(s, i);
        }
    }
    assert(m1 =~= m2);
}

/// Replacing the entry that carries a hash overwrites it in the map.
proof fn lemma_nexus_map_update(s: Seq<M8Container>, j: int, c: M8Container)
    requires
        sigs_unique(s),
        0 <= j < s.len(),
        s[j]@.wave_signature == c@.wave_signature,
    ensures
        sigs_unique(s.update(j, c)),
        nexus_map(s.update(j, c)) == nexus_map(s).insert(c@.wave_signature, c@),
{
    let t = s.update(j, c);
    let k = c@.wave_signature;
    assert forall|a: int, b: int| 0 <= a < b < t.len() implies (#[trigger] t[a])@.wave_signature
        != (#[trigger] t[b])@.wave_signature by {
        assert(s[a]@.wave_signature != s[b]@.wave_signature);
        if a != j && b != j {
            assert(t[a] == s[a] && t[b] == s[b]);
        } else if a == j {
            assert(t[b] == s[b] && t[a] == c);
        } else {
            assert(t[a] == s[a] && t[b] == c);
        }
    }
    let m1 = nexus_map(t);
    let m2 = nexus_map(s).insert(k, c@);
    assert forall|q: Seq<u8>| #[trigger] m1.contains_key(q) implies m2.contains_key(q) by {
        let i = idx_of(t, q);
        if i != j {
            assert(t[i] == s[i]);
            assert(has_sig(s, q));
        }
    }
    assert forall|q: Seq<u8>| #[trigger] m2.contains_key(q) implies m1.contains_key(q) by {
        if q == k {
            assert(t[j]@.wave_signature == q);
            assert(has_sig(t, q));
        } else {
            let i = idx_of(s, q);
            assert(i != j);
            assert(t[i]@.wave_signature == q);
            assert(has_sig(t, q));
        }
    }
    assert forall|q: Seq<u8>| m1.contains_key(q) && m2.contains_key(q) implies #[trigger] m1[q]
        == #[trigger] m2[q] by {
        if q == k {
            lemma_nexus_map_at(t, j);
        } else {
            let i = idx_of(s, q);
            assert(0 <= i < s.len() && s[i]@.wave_signature == q);
            assert(i != j);
            assert(t[i] == s[i]);
            lemma_nexus_map_at(t, i);
            lemma_nexus_map_at(s, i);
        }
    }
    assert(m1 =~= m2);
}

/// How many entries of the list carry the tag.
pub open spec fn count_type(s: Seq<M8Container>, t: M8ContentType) -> nat
    decreases s.len(),
{
    if s.len() == 0 {
        0
    } else {
        count_type(s.drop_last(), t) + (if s.last().header.content_type == t {
            1nat
        } else {
            0nat
        })
    }
}

/// Appending an entry raises exactly its own tag's count.
proof fn lemma_count_type_push(s: Seq<M8Container>, c: M8Container, t: M8ContentType)
    ensures
        count_type(s.push(c), t) == count_type(s, t) + (if c.header.content_type == t {
            1nat
        } else {
            0nat
        }),
{
    assert(s.push(c).drop_last() =~= s);
    assert(s.push(c).last() == c);
}

/// Replacing an entry raises the new tag's count and lowers the old
/// entry's.
proof fn lemma_count_type_update(s: Seq<M8Container>, j: int, c: M8Container, t: M8ContentType)
    requires
        0 <= j < s.len(),
    ensures
        count_type(s.update(j, c), t) as int == count_type(s, t) as int + (
        if c.header.content_type == t {
            1int
        } else {
            0int
        }) - (if s[j].header.content_type == t {
            1int
        } else {
            0int
        }),
    decreases s.len(),
{
    let u = s.update(j, c);
    if j == s.len() - 1 {
        assert(u.drop_last() =~= s.drop_last());
        assert(u.last() == c);
        assert(s.last() == s[j]);
    } else {
        assert(u.drop_last() =~= s.drop_last().update(j, c));
        assert(u.last() == s.last());
        assert(s.drop_last()[j] == s[j]);
        lemma_count_type_update(s.drop_last(), j, c, t);
    }
}

/// Compares two content hashes byte for byte.
fn sig_eq(a: &[u8; 32], b: &[u8; 32]) -> (r: bool)
    ensures
        r <==> a@ == b@,
{
    let mut i: usize = 0;
    while i < 32
        invariant
            i <= 32,
            forall|j: int| 0 <= j < i ==> a@[j] == b@[j],
        decreases 32 - i,
    {
        if a[i] != b[i] {
            return false;
        }
        i = i + 1;
    }
    proof {
        assert(a@ =~= b@);
    }
    true
}

/// The content-addressed store.
pub struct M8Nexus {
    containers: Vec<M8Container>,
}

impl View for M8Nexus {
    type V = Map<Seq<u8>, M8ContainerV>;

    closed spec fn view(&self) -> Map<Seq<u8>, M8ContainerV> {
        nexus_map(self.containers@)
    }
}

impl M8Nexus {
    /// No two stored containers carry the same hash.  Constructors
    /// establish this and every method preserves it.
    pub closed spec fn wf(&self) -> bool {
        sigs_unique(self.containers@)
    }

    /// How many containers the registry holds.
    pub closed spec fn count(&self) -> nat {
        self.containers@.len()
    }

    /// How many stored containers carry the tag.
    pub closed spec fn tag_count(&self, t: M8ContentType) -> nat {
        count_type(self.containers@, t)
    }

    /// An empty registry.
    pub fn new() -> (n: M8Nexus)
        ensures
            n.wf(),
            n@ == Map::<Seq<u8>, M8ContainerV>::empty(),
            n.count() == 0,
            forall|t: M8ContentType| #[trigger] n.tag_count(t) == 0,
    {
        let n = M8Nexus { containers: Vec::new() };
        proof {
            assert(n@ =~= Map::<Seq<u8>, M8ContainerV>::empty());
            assert forall|t: M8ContentType| #[trigger] n.tag_count(t) == 0 by {
                assert(count_type(n.containers@, t) == 0);
            }
        }
        n
    }

    /// Inserts or overwrites by content hash and returns the hash as
    /// the retrieval key.  Overwriting leaves the size unchanged; a
    /// fresh hash grows it by one.  The per-tag counts move with it:
    /// the stored container's tag gains one, and on overwrite the
    /// replaced container's tag loses one.
    pub fn store(&mut self, container: M8Container) -> (sig: [u8; 32])
        requires
            old(self).wf(),
        ensures
            final(self).wf(),
            sig == container.wave_signature,
            final(self)@ == old(self)@.insert(container@.wave_signature, container@),
            old(self)@.contains_key(container@.wave_signature)
                ==> final(self).count() == old(self).count(),
            !old(self)@.contains_key(container@.wave_signature)
                ==> final(self).count() == old(self).count() + 1,
            forall|t: M8ContentType| #[trigger] final(self).tag_count(t) as int
                == old(self).tag_count(t) as int + (
                if container@.header.content_type == t {
                    1int
                } else {
                    0int
                }) - (if old(self)@.contains_key(container@.wave_signature)
                    && old(self)@[container@.wave_signature].header.content_type == t {
                    1int
                } else {
                    0int
                }),
    {
        let sig = container.wave_signature;
        let mut i: usize = 0;
        while i < self.containers.len()
            invariant
                self.wf(),
                self.containers@ == old(self).containers@,
                sig == container.wave_signature,
                i <= self.containers@.len(),
                forall|j: int| 0 <= j < i
                    ==> (#[trigger] self.containers@[j])@.wave_signature != sig@,
        decreases self.containers@.len() - i,
        {
            if sig_eq(&self.containers[i].wave_signature, &sig) {
                proof {
                    assert(self.containers@[i as int]@.wave_signature == container@.wave_signature);
                    lemma_nexus_map_update(self.containers@, i as int, container);
                    lemma_nexus_map_at(self.containers@, i as int);
                    assert(has_sig(self.containers@, container@.wave_signature));
                    assert(old(self)@.contains_key(container@.wave_signature));
                    assert(old(self)@[container@.wave_signature]
                        == self.containers@[i as int]@);
                    assert forall|t: M8ContentType| #[trigger] count_type(
                        self.containers@.update(i as int, container),
                        t,
                    ) as int == count_type(self.containers@, t) as int + (
                    if container.header.content_type == t {
                        1int
                    } else {
                        0int
                    }) - (if self.containers@[i as int].header.content_type == t {
                        1int
                    } else {
                        0int
                    }) by {
                        lemma_count_type_update(self.containers@, i as int, container, t);
                    }
                }
                *vstd::std_specs::vec::vec_index_mut(&mut self.containers, i) = container;
                return sig;
            }
            i = i + 1;
        }
        proof {
            assert(!has_sig(self.containers@, sig@));
            assert(sig@ == container@.wave_signature);
            assert(!old(self)@.contains_key(container@.wave_signature));
            lemma_nexus_map_push(self.containers@, container);
            assert forall|t: M8ContentType| #[trigger] count_type(
                self.containers@.push(container),
                t,
            ) == count_type(self.containers@, t) + (if container.header.content_type == t {
                1nat
            } else {
                0nat
            }) by {
                lemma_count_type_push(self.containers@, container, t);
            }
        }
        self.containers.push(container);
        sig
    }

    /// Exact-key lookup; an absent key is a miss, not a failure.
    pub fn retrieve(&self, signature: &[u8; 32]) -> (r: Option<&M8Container>)
        requires
            self.wf(),
        ensures
            r matches Some(c) ==> self@.contains_key(signature@) && c@ == self@[signature@],
            r is None ==> !self@.contains_key(signature@),
    {
        let mut i: usize = 0;
        while i < self.containers.len()
            invariant
                self.wf(),
                i <= self.containers@.len(),
                forall|j: int| 0 <= j < i
                    ==> (#[trigger] self.containers@[j])@.wave_signature != signature@,
            decreases self.containers@.len() - i,
        {
            if sig_eq(&self.containers[i].wave_signature, signature) {
                proof {
                    lemma_nexus_map_at(self.containers@, i as int);
                }
                return Some(&self.containers[i]);
            }
            i = i + 1;
        }
        proof {
            assert(!has_sig(self.containers@, signature@));
        }
        None
    }

    /// A point-in-time snapshot of every entry's hash, tag, and
    /// creation timestamp; the order carries no meaning.
    pub fn list(&self) -> (r: Vec<([u8; 32], M8ContentType, u64)>)
        requires
            self.wf(),
        ensures
            r@.len() == self.count(),
            forall|i: int| 0 <= i < r@.len() ==> self@.contains_key((#[trigger] r@[i]).0@)
                && self@[r@[i].0@].header.content_type == r@[i].1
                && self@[r@[i].0@].header.timestamp == r@[i].2,
            forall|i: int, j: int| 0 <= i < j < r@.len()
                ==> (#[trigger] r@[i]).0@ != (#[trigger] r@[j]).0@,
    {
        let mut r: Vec<([u8; 32], M8ContentType, u64)> = Vec::new();
        let mut i: usize = 0;
        while i < self.containers.len()
            invariant
                i <= self.containers@.len(),
                sigs_unique(self.containers@),
                r@.len() == i,
                forall|j: int| 0 <= j < i ==> (#[trigger] r@[j]).0@
                    == self.containers@[j]@.wave_signature
                    && r@[j].1 == self.containers@[j]@.header.content_type
                    && r@[j].2 == self.containers@[j]@.header.timestamp,
            decreases self.containers@.len() - i,
        {
            let c = &self.containers[i];
            r.push((c.wave_signature, c.header.content_type, c.header.timestamp));
            i = i + 1;
        }
        proof {
            assert forall|i: int| 0 <= i < r@.len() implies self@.contains_key(
                (#[trigger] r@[i]).0@,
            ) && self@[r@[i].0@].header.content_type == r@[i].1
                && self@[r@[i].0@].header.timestamp == r@[i].2 by {
                lemma_nexus_map_at(self.containers@, i);
            }
        }
        r
    }

    /// Counts per content-type tag plus a total; the counts always sum
    /// to the total, so no partially inserted container is ever seen.
    /// Engine statistics are reported verbatim.
    pub fn stats(&self, mem8_stats: Mem8Stats) -> (r: NexusStats)
        ensures
            r.total_containers == self.count(),
            r.type_counts.marqant == self.tag_count(M8ContentType::Marqant),
            r.type_counts.wave_pattern == self.tag_count(M8ContentType::WavePattern),
            r.type_counts.language == self.tag_count(M8ContentType::Language),
            r.type_counts.visual == self.tag_count(M8ContentType::Visual),
            r.type_counts.audio == self.tag_count(M8ContentType::Audio),
            r.type_counts.compound == self.tag_count(M8ContentType::Compound),
            r.type_counts.marqant + r.type_counts.wave_pattern + r.type_counts.language
                + r.type_counts.visual + r.type_counts.audio + r.type_counts.compound
                == r.total_containers,
            r.mem8_stats == mem8_stats,
    {
        let mut counts = TypeCounts {
            marqant: 0,
            wave_pattern: 0,
            language: 0,
            visual: 0,
            audio: 0,
            compound: 0,
        };
        let mut i: usize = 0;
        while i < self.containers.len()
            invariant
                i <= self.containers@.len(),
                counts.marqant == count_type(
                    self.containers@.take(i as int),
                    M8ContentType::Marqant,
                ),
                counts.wave_pattern == count_type(
                    self.containers@.take(i as int),
                    M8ContentType::WavePattern,
                ),
                counts.language == count_type(
                    self.containers@.take(i as int),
                    M8ContentType::Language,
                ),
                counts.visual == count_type(
                    self.containers@.take(i as int),
                    M8ContentType::Visual,
                ),
                counts.audio == count_type(self.containers@.take(i as int), M8ContentType::Audio),
                counts.compound == count_type(
                    self.containers@.take(i as int),
                    M8ContentType::Compound,
                ),
                counts.marqant + counts.wave_pattern + counts.language + counts.visual
                    + counts.audio + counts.compound == i,
            decreases self.containers@.len() - i,
        {
            proof {
                let t = self.containers@.take(i + 1int);
                assert(t.drop_last() =~= self.containers@.take(i as int));
                assert(t.last() == self.containers@[i as int]);
            }
            match self.containers[i].header.content_type {
                M8ContentType::Marqant => {
                    counts.marqant = counts.marqant + 1;
                },
                M8ContentType::WavePattern => {
                    counts.wave_pattern = counts.wave_pattern + 1;
                },
                M8ContentType::Language => {
                    counts.language = counts.language + 1;
                },
                M8ContentType::Visual => {
                    counts.visual = counts.visual + 1;
                },
                M8ContentType::Audio => {
                    counts.audio = counts.audio + 1;
                },
                M8ContentType::Compound => {
                    counts.compound = counts.compound + 1;
                },
            }
            i = i + 1;
        }
        proof {
            assert(self.containers@.take(self.containers@.len() as int) =~= self.containers@);
        }
        NexusStats { total_containers: self.containers.len(), type_counts: counts, mem8_stats }
    }
}

/// After `put`, `get` with the returned key yields a container with an
/// identical header, hash, and payload, and a key that was never
/// inserted stays a miss.
pub proof fn lemma_put_get(m: Map<Seq<u8>, M8ContainerV>, c: M8ContainerV, k: Seq<u8>)
    ensures
        m.insert(c.wave_signature, c).contains_key(c.wave_signature),
        m.insert(c.wave_signature, c)[c.wave_signature] == c,
        k != c.wave_signature && !m.contains_key(k)
            ==> !m.insert(c.wave_signature, c).contains_key(k),
{
}

/// Containers built from byte-identical payloads carry the same content
/// hash, whatever construction path produced them, and therefore
/// collide in the registry.
pub proof fn lemma_payload_determines_hash(c1: M8ContainerV, c2: M8ContainerV)
    requires
        hash_consistent(c1),
        hash_consistent(c2),
        c1.data == c2.data,
    ensures
        c1.wave_signature == c2.wave_signature,
{
}

} // verus!
