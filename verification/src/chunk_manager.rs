//! Registry of drawable objects sharing one vertex buffer and one
//! index buffer.
//!
//! Each object is keyed by its hash. Adding an object folds its
//! vertices into the shared, deduplicated vertex buffer
//! ([`crate::indexing::spec_dedup_into`]) and appends its indices as a
//! contiguous chunk; re-adding an object only refreshes the batch
//! sequence number of its chunk. A batch update bumps the sequence,
//! registers every object of the batch, and then sweeps out the chunks
//! that were not touched, parking them on a free list.

use crate::indexing::find_first;
use crate::indexing::spec_dedup_into;
use std::hash::Hash;
use std::hash::Hasher;
use vstd::laws_eq::obeys_concrete_eq;
use vstd::prelude::*;

verus! {

/// One allocated span of the index buffer: `size` indices starting at
/// `offset`, last touched by the batch numbered `sequence`.
#[derive(Clone, Copy, Debug)]
pub struct Chunk {
    pub offset: usize,
    pub size: usize,
    pub sequence: u64,
}

/// The mathematical state of a [`ChunkManager`]: the two buffers, the
/// key-to-chunk table in insertion order, the batch sequence number,
/// and the chunks freed by sweeps.
pub struct ChunkModel<Ver> {
    pub vertices: Seq<Ver>,
    pub indices: Seq<usize>,
    pub map: Seq<(u64, Chunk)>,
    pub sequence: u64,
    pub free: Seq<Chunk>,
}

/// Some entry of `m` carries the key `key`.
pub open spec fn map_has_key(m: Seq<(u64, Chunk)>, key: u64) -> bool {
    exists|i: int| 0 <= i < m.len() && (#[trigger] m[i]).0 == key
}

/// The index of the entry carrying `key`; meaningful when
/// [`map_has_key`] holds and keys are unique.
pub open spec fn key_index(m: Seq<(u64, Chunk)>, key: u64) -> int {
    choose|i: int| 0 <= i < m.len() && (#[trigger] m[i]).0 == key
}

/// No two entries of `m` carry the same key.
pub open spec fn keys_unique(m: Seq<(u64, Chunk)>) -> bool {
    forall|i: int, j: int|
        0 <= i < j < m.len() ==> (#[trigger] m[i]).0 != (#[trigger] m[j]).0
}

/// The state after registering the object with key `key` and vertices
/// `vs`: a known key only has its chunk's sequence refreshed; a new
/// key has its vertices folded into the buffer, its indices appended
/// as one chunk, and the chunk recorded under the key.
pub open spec fn spec_add_object<Ver>(m: ChunkModel<Ver>, key: u64, vs: Seq<Ver>) -> ChunkModel<
    Ver,
> {
    if map_has_key(m.map, key) {
        let i = key_index(m.map, key);
        ChunkModel {
            map: m.map.update(
                i,
                (key, Chunk { sequence: m.sequence, ..m.map[i].1 }),
            ),
            ..m
        }
    } else {
        let d = spec_dedup_into(m.vertices, vs);
        ChunkModel {
            vertices: d.0,
            indices: m.indices + d.1,
            map: m.map.push(
                (
                    key,
                    Chunk {
                        offset: m.indices.len() as usize,
                        size: vs.len() as usize,
                        sequence: m.sequence,
                    },
                ),
            ),
            ..m
        }
    }
}

/// The state after registering `keys[t]` with vertices `vss[t]`, for
/// `t` rising, starting from `m`.
pub open spec fn spec_add_all<Ver>(
    m: ChunkModel<Ver>,
    keys: Seq<u64>,
    vss: Seq<Seq<Ver>>,
) -> ChunkModel<Ver>
    decreases keys.len(),
{
    if keys.len() == 0 {
        m
    } else {
        spec_add_object(
            spec_add_all(m, keys.drop_last(), vss.drop_last()),
            keys.last(),
            vss.last(),
        )
    }
}

/// The state with the batch sequence number advanced by one.
pub open spec fn spec_bump<Ver>(m: ChunkModel<Ver>) -> ChunkModel<Ver> {
    ChunkModel { sequence: (m.sequence + 1) as u64, ..m }
}

/// The entries of `m` whose chunk was touched by batch `seq`, in
/// order.
pub open spec fn spec_sweep_map(m: Seq<(u64, Chunk)>, seq: u64) -> Seq<(u64, Chunk)>
    decreases m.len(),
{
    if m.len() == 0 {
        Seq::empty()
    } else {
        let prev = spec_sweep_map(m.drop_last(), seq);
        if m.last().1.sequence == seq {
            prev.push(m.last())
        } else {
            prev
        }
    }
}

/// The chunks of `m` that batch `seq` did not touch, in order.
pub open spec fn spec_sweep_free(m: Seq<(u64, Chunk)>, seq: u64) -> Seq<Chunk>
    decreases m.len(),
{
    if m.len() == 0 {
        Seq::empty()
    } else {
        let prev = spec_sweep_free(m.drop_last(), seq);
        if m.last().1.sequence == seq {
            prev
        } else {
            prev.push(m.last().1)
        }
    }
}

/// The state after sweeping: untouched chunks leave the table and are
/// parked on the free list.
pub open spec fn spec_sweep<Ver>(m: ChunkModel<Ver>) -> ChunkModel<Ver> {
    ChunkModel {
        map: spec_sweep_map(m.map, m.sequence),
        free: m.free + spec_sweep_free(m.map, m.sequence),
        ..m
    }
}

proof fn lemma_sweep_map_keys(m: Seq<(u64, Chunk)>, seq: u64)
    ensures
        forall|k: u64| map_has_key(spec_sweep_map(m, seq), k) ==> map_has_key(m, k),
        keys_unique(m) ==> keys_unique(spec_sweep_map(m, seq)),
    decreases m.len(),
{
    if m.len() == 0 {
    } else {
        lemma_sweep_map_keys(m.drop_last(), seq);
        assert forall|k: u64| map_has_key(spec_sweep_map(m, seq), k) implies map_has_key(
            m,
            k,
        ) by {
            let s = spec_sweep_map(m, seq);
            let i = choose|i: int| 0 <= i < s.len() && (#[trigger] s[i]).0 == k;
            let prev = spec_sweep_map(m.drop_last(), seq);
            if i < prev.len() {
                assert(map_has_key(m.drop_last(), k));
                let j = choose|j: int|
                    0 <= j < m.drop_last().len() && (#[trigger] m.drop_last()[j]).0 == k;
                assert(m[j].0 == k);
            } else {
                assert(m[m.len() - 1].0 == k);
            }
        }
        if keys_unique(m) {
            assert(keys_unique(m.drop_last())) by {
                assert forall|i: int, j: int|
                    0 <= i < j < m.drop_last().len() implies (#[trigger] m.drop_last()[i]).0 != (
                #[trigger] m.drop_last()[j]).0 by {
                    assert(m[i].0 != m[j].0);
                }
            }
            let prev = spec_sweep_map(m.drop_last(), seq);
            if m.last().1.sequence == seq {
                assert forall|i: int, j: int|
                    0 <= i < j < spec_sweep_map(m, seq).len() implies (#[trigger] spec_sweep_map(
                    m,
                    seq,
                )[i]).0 != (#[trigger] spec_sweep_map(m, seq)[j]).0 by {
                    if j == spec_sweep_map(m, seq).len() - 1 {
                        if map_has_key(m.drop_last(), prev[i].0) {
                            let t = choose|t: int|
                                0 <= t < m.drop_last().len() && (#[trigger] m.drop_last()[t]).0
                                    == prev[i].0;
                            assert(m[t].0 != m[m.len() - 1].0);
                        }
                        assert(map_has_key(m.drop_last(), prev[i].0)) by {
                            assert(map_has_key(prev, prev[i].0));
                        }
                    }
                }
            }
        }
    }
}

/// Objects register themselves by producing the vertices that make
/// them up; the manager folds those into its shared buffers.
pub trait VertexGenerator<Ver> {
    fn get_vertices(&self) -> Vec<Ver>;
}

/// Relies on std's `DefaultHasher`: feeds the value to a freshly
/// created default hasher and returns the 64-bit digest, which the
/// manager uses as an opaque identity key. Nothing is assumed about
/// the digest: it depends on the type's `Hash` implementation.
#[verifier::external_body]
fn hash<T: Hash>(t: &T) -> u64 {
    let mut s = std::collections::hash_map::DefaultHasher::new();
    t.hash(&mut s);
    s.finish()
}

fn find_key(map: &Vec<(u64, Chunk)>, key: u64) -> (r: Option<usize>)
    ensures
        match r {
            Some(i) => i < map@.len() && map@[i as int].0 == key,
            None => !map_has_key(map@, key),
        },
{
    let mut j: usize = 0;
    while j < map.len()
        invariant
            j <= map@.len(),
            forall|t: int| 0 <= t < j ==> (#[trigger] map@[t]).0 != key,
        decreases map@.len() - j,
    {
        if map[j].0 == key {
            return Some(j);
        }
        j += 1;
    }
    None
}

/// Shared storage for a set of keyed objects: one deduplicated vertex
/// buffer, one index buffer made of per-object chunks, and the table
/// mapping each object's key to its chunk.
pub struct ChunkManager<Ver> {
    vertices: Vec<Ver>,
    indices: Vec<usize>,
    map: Vec<(u64, Chunk)>,
    sequence: u64,
    free: Vec<Chunk>,
}

impl<Ver> View for ChunkManager<Ver> {
    type V = ChunkModel<Ver>;

    closed spec fn view(&self) -> ChunkModel<Ver> {
        ChunkModel {
            vertices: self.vertices@,
            indices: self.indices@,
            map: self.map@,
            sequence: self.sequence,
            free: self.free@,
        }
    }
}

impl<Ver> ChunkManager<Ver> where Ver: PartialEq {
    /// The key table never carries a key twice.
    pub open spec fn wf(self) -> bool {
        keys_unique(self@.map)
    }

    /// An empty manager: no vertices, no indices, no chunks, sequence
    /// number zero.
    pub fn new() -> (r: ChunkManager<Ver>)
        ensures
            r.wf(),
            r@.vertices == Seq::<Ver>::empty(),
            r@.indices == Seq::<usize>::empty(),
            r@.map == Seq::<(u64, Chunk)>::empty(),
            r@.sequence == 0,
            r@.free == Seq::<Chunk>::empty(),
    {
        let r = ChunkManager {
            vertices: Vec::new(),
            indices: Vec::new(),
            map: Vec::new(),
            sequence: 0,
            free: Vec::with_capacity(0),
        };
        proof {
            assert(r@.vertices =~= Seq::<Ver>::empty());
            assert(r@.indices =~= Seq::<usize>::empty());
            assert(r@.map =~= Seq::<(u64, Chunk)>::empty());
            assert(r@.free =~= Seq::<Chunk>::empty());
        }
        r
    }

    /// Appends `indices` to the index buffer as one chunk and returns
    /// the chunk's bookkeeping record; `indices` is drained.
    fn insert_chunk(&mut self, indices: &mut Vec<usize>) -> (c: Chunk)
        ensures
            c.offset == old(self)@.indices.len(),
            c.size == old(indices)@.len(),
            c.sequence == old(self)@.sequence,
            final(self)@ == (ChunkModel { indices: old(self)@.indices + old(indices)@, ..old(self)@ }),
            final(indices)@.len() == 0,
    {
        let chunk = Chunk {
            offset: self.indices.len(),
            size: indices.len(),
            sequence: self.sequence,
        };
        self.indices.append(indices);
        chunk
    }

    /// Registers vertices under an explicit key: the verified core of
    /// [`ChunkManager::add_object`], taking the key and the vertices
    /// as plain values.
    fn add_keyed(&mut self, key: u64, vertices: Vec<Ver>)
        requires
            old(self).wf(),
        ensures
            final(self).wf(),
            final(self)@.sequence == old(self)@.sequence,
            final(self)@.free == old(self)@.free,
            obeys_concrete_eq::<Ver>() ==> final(self)@ == spec_add_object(
                old(self)@,
                key,
                vertices@,
            ),
    {
        match find_key(&self.map, key) {
            Some(i) => {
                let mut entry = self.map[i];
                entry.1.sequence = self.sequence;
                self.map.set(i, entry);
                proof {
                    assert(key_index(old(self)@.map, key) == i);
                    assert(self@.map =~= spec_add_object(old(self)@, key, vertices@).map);
                }
            },
            None => {
                let ghost orig = vertices@;
                let ghost base = self.vertices@;
                let mut rest = vertices;
                let mut obj_indx: Vec<usize> = Vec::new();
                let total = rest.len();
                proof {
                    assert(orig.take(0) =~= Seq::<Ver>::empty());
                }
                let mut t: usize = 0;
                while rest.len() > 0
                    invariant
                        t <= total,
                        total == orig.len(),
                        rest@.len() == total - t,
                        rest@ =~= orig.skip(t as int),
                        obj_indx@.len() == t,
                        obeys_concrete_eq::<Ver>() ==> {
                            let d = spec_dedup_into(base, orig.take(t as int));
                            self.vertices@ == d.0 && obj_indx@ == d.1
                        },
                        self.indices@ == old(self)@.indices,
                        self.map@ == old(self)@.map,
                        self.sequence == old(self)@.sequence,
                        self.free@ == old(self)@.free,
                    decreases rest@.len(),
                {
                    let ghost old_rest = rest@;
                    let v = rest.remove(0);
                    let pos = find_first(&self.vertices, &v);
                    match pos {
                        None => {
                            obj_indx.push(self.vertices.len());
                            self.vertices.push(v);
                        },
                        Some(i) => {
                            obj_indx.push(i);
                        },
                    }
                    t += 1;
                    proof {
                        assert(rest@ == old_rest.remove(0));
                        assert forall|n: int| 0 <= n < rest@.len() implies rest@[n] == orig.skip(
                            t as int,
                        )[n] by {
                            assert(old_rest[n + 1] == orig[t - 1 + n + 1]);
                        }
                        assert(rest@ =~= orig.skip(t as int));
                        assert(v == orig[t - 1]);
                        assert(orig.take(t as int).drop_last() =~= orig.take(t - 1));
                        assert(orig.take(t as int).last() == orig[t - 1]);
                        if obeys_concrete_eq::<Ver>() {
                            let d = spec_dedup_into(base, orig.take(t as int));
                            assert(self.vertices@ == d.0 && obj_indx@ == d.1) by {
                                match pos {
                                    None => {
                                        assert(self.vertices@ =~= d.0);
                                        assert(obj_indx@ =~= d.1);
                                    },
                                    Some(i) => {
                                        assert(obj_indx@ =~= d.1);
                                    },
                                }
                            }
                        }
                    }
                }
                proof {
                    assert(orig.take(total as int) =~= orig);
                }
                let chunk = self.insert_chunk(&mut obj_indx);
                self.map.push((key, chunk));
                proof {
                    if obeys_concrete_eq::<Ver>() {
                        let want = spec_add_object(old(self)@, key, orig);
                        assert(self@.map =~= want.map);
                        assert(self@ == want);
                    }
                    assert forall|i: int, j: int|
                        0 <= i < j < self@.map.len() implies (#[trigger] self@.map[i]).0 != (
                    #[trigger] self@.map[j]).0 by {
                        if j == self@.map.len() - 1 {
                            assert(old(self)@.map[i].0 != key);
                        } else {
                            assert(old(self)@.map[i].0 != old(self)@.map[j].0);
                        }
                    }
                }
            },
        }
    }

    /// Registers one object: its hash is its key, its vertices come
    /// from [`VertexGenerator::get_vertices`]. Registering an object
    /// that is already present only refreshes its chunk's sequence
    /// number; nothing is stored twice.
    pub fn add_object<O>(&mut self, object: &O) where O: VertexGenerator<Ver> + Hash
        requires
            old(self).wf(),
        ensures
            final(self).wf(),
            final(self)@.sequence == old(self)@.sequence,
            final(self)@.free == old(self)@.free,
            obeys_concrete_eq::<Ver>() ==> exists|key: u64, vs: Seq<Ver>|
                final(self)@ == #[trigger] spec_add_object(old(self)@, key, vs),
    {
        let key = hash(object);
        let vertices = object.get_vertices();
        let ghost vs = vertices@;
        self.add_keyed(key, vertices);
        proof {
            if obeys_concrete_eq::<Ver>() {
                assert(self@ == spec_add_object(old(self)@, key, vs));
            }
        }
    }

    /// Registers a whole batch under a fresh sequence number, then
    /// sweeps: every chunk the batch did not touch leaves the table
    /// and is parked on the free list.
    pub fn add_batch<O>(&mut self, objects: &Vec<O>) where O: VertexGenerator<Ver> + Hash
        requires
            old(self).wf(),
            old(self)@.sequence < u64::MAX,
        ensures
            final(self).wf(),
            final(self)@.sequence == old(self)@.sequence + 1,
            obeys_concrete_eq::<Ver>() ==> exists|keys: Seq<u64>, vss: Seq<Seq<Ver>>|
                keys.len() == objects@.len() && vss.len() == objects@.len() && final(self)@
                    == #[trigger] spec_sweep(spec_add_all(spec_bump(old(self)@), keys, vss)),
    {
        self.sequence = self.sequence + 1;
        let ghost bumped = self@;
        let ghost mut keys: Seq<u64> = Seq::empty();
        let ghost mut vss: Seq<Seq<Ver>> = Seq::empty();
        let mut t: usize = 0;
        while t < objects.len()
            invariant
                t <= objects@.len(),
                self.wf(),
                self@.sequence == bumped.sequence,
                bumped == spec_bump(old(self)@),
                obeys_concrete_eq::<Ver>() ==> {
                    &&& keys.len() == t
                    &&& vss.len() == t
                    &&& self@ == spec_add_all(bumped, keys, vss)
                },
            decreases objects@.len() - t,
        {
            let ghost prev = self@;
            self.add_object(&objects[t]);
            t += 1;
            proof {
                if obeys_concrete_eq::<Ver>() {
                    let (k2, v2): (u64, Seq<Ver>) = choose|k2: u64, v2: Seq<Ver>|
                        self@ == #[trigger] spec_add_object(prev, k2, v2);
                    let keys0 = keys;
                    let vss0 = vss;
                    keys = keys.push(k2);
                    vss = vss.push(v2);
                    assert(keys.drop_last() =~= keys0);
                    assert(vss.drop_last() =~= vss0);
                    assert(spec_add_all(bumped, keys, vss) == spec_add_object(
                        spec_add_all(bumped, keys0, vss0),
                        k2,
                        v2,
                    ));
                }
            }
        }
        let ghost registered = self@;
        let mut new_map: Vec<(u64, Chunk)> = Vec::new();
        let mut j: usize = 0;
        while j < self.map.len()
            invariant
                j <= self.map@.len(),
                self.map@ == registered.map,
                self.vertices@ == registered.vertices,
                self.indices@ == registered.indices,
                self.sequence == registered.sequence,
                new_map@ == spec_sweep_map(registered.map.take(j as int), registered.sequence),
                self.free@ == registered.free + spec_sweep_free(
                    registered.map.take(j as int),
                    registered.sequence,
                ),
            decreases self.map@.len() - j,
        {
            let e = self.map[j];
            if e.1.sequence != self.sequence {
                self.free.push(e.1);
            } else {
                new_map.push(e);
            }
            j += 1;
            proof {
                assert(registered.map.take(j as int).drop_last() =~= registered.map.take(j - 1));
                assert(registered.map.take(j as int).last() == registered.map[j - 1]);
            }
        }
        self.map = new_map;
        proof {
            assert(registered.map.take(registered.map.len() as int) =~= registered.map);
            assert(self@ == spec_sweep(registered));
            lemma_sweep_map_keys(registered.map, registered.sequence);
        }
    }

    /// The shared vertex buffer.
    pub fn vertices(&self) -> (r: &Vec<Ver>)
        ensures
            r@ == self@.vertices,
    {
        &self.vertices
    }

    /// The shared index buffer.
    pub fn indices(&self) -> (r: &Vec<usize>)
        ensures
            r@ == self@.indices,
    {
        &self.indices
    }

    /// How many swept-out chunks sit on the free list.
    pub fn free_len(&self) -> (n: usize)
        ensures
            n == self@.free.len(),
    {
        self.free.len()
    }
}

} // verus!
