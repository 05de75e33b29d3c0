//! Vertex indexing: turning a flat list of vertices into a deduplicated
//! vertex buffer plus an index buffer, the usual mesh representation.
//!
//! The deduplication is specified by [`spec_dedup_into`], a fold that
//! appends each incoming vertex to the buffer unless an equal one is
//! already there, and records the index either way. The executable
//! functions are generic over the vertex type; their exact contracts
//! hold whenever the type's `==` agrees with mathematical equality
//! (and, where cloning is involved, its `clone` returns its argument).

use vstd::laws_eq::obeys_concrete_eq;
use vstd::pervasive::cloned;
use vstd::prelude::*;

verus! {

/// Every clone of a `T` value equals the value it was cloned from.
/// Holds for all the plain data types meshes are made of.
pub open spec fn clone_is_identity<T: Clone>() -> bool {
    forall|x: T, y: T| #[trigger] cloned::<T>(x, y) ==> y == x
}

/// Folds the vertices `vs`, in order, into the buffer `base`: a vertex
/// already present keeps the index of its first occurrence, a new one
/// is appended and indexed at its position. Returns the grown buffer
/// and one index per element of `vs`.
pub open spec fn spec_dedup_into<T>(base: Seq<T>, vs: Seq<T>) -> (Seq<T>, Seq<usize>)
    decreases vs.len(),
{
    if vs.len() == 0 {
        (base, Seq::empty())
    } else {
        let prev = spec_dedup_into(base, vs.drop_last());
        let v = vs.last();
        match prev.0.index_of_first(v) {
            Some(i) => (prev.0, prev.1.push(i as usize)),
            None => (prev.0.push(v), prev.1.push(prev.0.len() as usize)),
        }
    }
}

/// Scans `vs` front to back for an element equal to `v` and returns
/// the index of the first hit.
pub fn find_first<T: PartialEq>(vs: &Vec<T>, v: &T) -> (r: Option<usize>)
    ensures
        obeys_concrete_eq::<T>() ==> match r {
            Some(j) => vs@.index_of_first(*v) == Some(j as int),
            None => vs@.index_of_first(*v) == None::<int>,
        },
        r matches Some(j) ==> j < vs@.len(),
{
    let mut j: usize = 0;
    while j < vs.len()
        invariant
            j <= vs@.len(),
            obeys_concrete_eq::<T>() ==> forall|t: int| 0 <= t < j ==> vs@[t] != *v,
        decreases vs@.len() - j,
    {
        let hit = vs[j] == *v;
        proof {
            reveal(vstd::laws_eq::obeys_concrete_eq);
            if obeys_concrete_eq::<T>() {
                assert(hit <==> vs@[j as int] == *v);
            }
        }
        if hit {
            proof {
                if obeys_concrete_eq::<T>() {
                    vs@.index_of_first_ensures(*v);
                    assert(vs@.contains(*v));
                }
            }
            return Some(j);
        }
        j += 1;
    }
    proof {
        if obeys_concrete_eq::<T>() {
            vs@.index_of_first_ensures(*v);
            if vs@.contains(*v) {
                let w = choose|t: int| 0 <= t < vs@.len() && vs@[t] == *v;
                assert(vs@[w] != *v);
            }
        }
    }
    None
}

/// Builds a deduplicated vertex buffer and an index buffer from a flat
/// vertex list: the result has one index per input vertex, each index
/// in range, and — for vertex types whose `==` and `clone` are the
/// mathematical ones — the two buffers are exactly the fold
/// [`spec_dedup_into`] over an empty buffer.
pub fn index_vertex_list<T: PartialEq + Clone>(vertices_org: &[T]) -> (r: (Vec<T>, Vec<u32>))
    requires
        vertices_org@.len() <= u32::MAX,
    ensures
        r.1@.len() == vertices_org@.len(),
        r.0@.len() <= vertices_org@.len(),
        forall|k: int| 0 <= k < r.1@.len() ==> (r.1@[k] as int) < r.0@.len(),
        obeys_concrete_eq::<T>() && clone_is_identity::<T>() ==> {
            let model = spec_dedup_into(Seq::empty(), vertices_org@);
            r.0@ == model.0 && r.1@.map_values(|u: u32| u as usize) == model.1
        },
{
    let mut vertices: Vec<T> = Vec::new();
    let mut indices: Vec<u32> = Vec::new();
    let mut k: usize = 0;
    proof {
        assert(vertices_org@.take(0) =~= Seq::<T>::empty());
        assert(indices@.map_values(|u: u32| u as usize) =~= Seq::<usize>::empty());
    }
    while k < vertices_org.len()
        invariant
            k <= vertices_org@.len(),
            vertices_org@.len() <= u32::MAX,
            indices@.len() == k,
            vertices@.len() <= k,
            forall|t: int| 0 <= t < indices@.len() ==> (indices@[t] as int) < vertices@.len(),
            obeys_concrete_eq::<T>() && clone_is_identity::<T>() ==> {
                let model = spec_dedup_into(Seq::empty(), vertices_org@.take(k as int));
                vertices@ == model.0 && indices@.map_values(|u: u32| u as usize) == model.1
            },
        decreases vertices_org@.len() - k,
    {
        let ghost prefix = vertices_org@.take(k as int);
        let ghost old_vertices = vertices@;
        let ghost old_indices = indices@;
        let v = &vertices_org[k];
        let pos = find_first(&vertices, v);
        match pos {
            None => {
                indices.push(vertices.len() as u32);
                vertices.push(v.clone());
            },
            Some(i) => {
                indices.push(i as u32);
            },
        }
        k += 1;
        proof {
            assert(vertices_org@.take(k as int).drop_last() =~= prefix);
            assert(vertices_org@.take(k as int).last() == vertices_org@[k - 1]);
            if obeys_concrete_eq::<T>() && clone_is_identity::<T>() {
                let model = spec_dedup_into(Seq::empty(), vertices_org@.take(k as int));
                assert(vertices@ == model.0 && indices@.map_values(|u: u32| u as usize)
                    == model.1) by {
                    let prev = spec_dedup_into(Seq::empty(), prefix);
                    match pos {
                        None => {
                            assert(cloned::<T>(*v, vertices@.last()));
                            assert(vertices@ =~= prev.0.push(*v));
                        },
                        Some(i) => {
                            assert(vertices@ == prev.0);
                        },
                    }
                    assert(indices@.map_values(|u: u32| u as usize) =~= model.1);
                }
            }
        }
    }
    proof {
        assert(vertices_org@.take(k as int) =~= vertices_org@);
    }
    (vertices, indices)
}

} // verus!
