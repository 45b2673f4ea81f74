//! The staged mutation engine.
//!
//! A [`Mutation`] owns a raw aggregate extracted from a consistent mesh. Its
//! primitives and composite operations edit the aggregate freely — the
//! consistency conditions may transiently not hold — and `commit` re-runs
//! the full validation, yielding a [`Mesh`] again exactly when every
//! condition holds.

use crate::geometry::Vector3;
use crate::mesh::{cyc_next, cyc_prev, fresh_edge, wired_edge, Core, Edge, Face, Mesh, Vertex};
use crate::storage::{EdgeKey, FaceKey, VertexKey};
use crate::GraphError;
use vstd::prelude::*;

verus! {

/// Marker for aggregates that promise to be in a consistent state: only
/// ever mutated through the mutation engine and therefore validated.
pub trait Consistent {

}

/// Marker for consistent aggregates that the mutation engine can take apart
/// and reassemble.
pub trait Mutable: Consistent {

}

impl Consistent for Mesh {

}

impl<'a, T: Consistent> Consistent for &'a T {

}

impl Mutable for Mesh {

}

/// A staged topological transaction over a raw aggregate.
pub struct Mutation {
    raw: Core,
}

impl Mutation {
    /// The staged aggregate.
    pub closed spec fn store(self) -> Core {
        self.raw
    }

    /// The staged storages are well formed.
    pub open spec fn inv(self) -> bool {
        self.store().inv()
    }

    /// Opens a transaction by taking a consistent mesh apart; the mesh
    /// binding is consumed.
    pub fn new(mesh: Mesh) -> (r: Mutation)
        requires
            mesh.inv(),
        ensures
            r.inv(),
            r.store() == mesh.store(),
            r.store().consistent(),
    {
        proof {
            mesh.lemma_raw_is_store();
        }
        Mutation { raw: mesh.raw }
    }

    /// The number of live vertices of the staged aggregate.
    pub fn vertex_count(&self) -> (r: usize)
        ensures
            r == self.store().vertex_len(),
    {
        self.raw.vertex_count()
    }

    /// The number of live arcs of the staged aggregate.
    pub fn edge_count(&self) -> (r: usize)
        ensures
            r == self.store().edge_len(),
    {
        self.raw.edge_count()
    }

    /// The number of live faces of the staged aggregate.
    pub fn face_count(&self) -> (r: usize)
        ensures
            r == self.store().face_len(),
    {
        self.raw.face_count()
    }

    /// The record of one arc of the staged aggregate.
    pub fn edge(&self, k: EdgeKey) -> (r: Option<Edge>)
        requires
            self.inv(),
        ensures
            r == if self.store().em().contains_key(k) {
                Some(self.store().em()[k])
            } else {
                None::<Edge>
            },
    {
        self.raw.edge_get(k)
    }

    /// The record of one vertex of the staged aggregate.
    pub fn vertex(&self, k: VertexKey) -> (r: Option<Vertex>)
        ensures
            r == if self.store().vm().contains_key(k) {
                Some(self.store().vm()[k])
            } else {
                None::<Vertex>
            },
    {
        self.raw.vertex_get(k)
    }

    /// The record of one face of the staged aggregate.
    pub fn face(&self, k: FaceKey) -> (r: Option<Face>)
        ensures
            r == if self.store().fm().contains_key(k) {
                Some(self.store().fm()[k])
            } else {
                None::<Face>
            },
    {
        self.raw.face_get(k)
    }

    /// Inserts an isolated vertex under a fresh key.
    pub fn insert_vertex(&mut self, geometry: Vector3) -> (k: VertexKey)
        requires
            old(self).inv(),
            old(self).store().vertex_next() < u64::MAX,
        ensures
            final(self).inv(),
            k == VertexKey(old(self).store().vertex_next()),
            !old(self).store().vm().contains_key(k),
            final(self).store().vm() == old(self).store().vm().insert(
                k,
                Vertex { geometry, edge: None },
            ),
            final(self).store().em() == old(self).store().em(),
            final(self).store().fm() == old(self).store().fm(),
            final(self).store().vertex_len() == old(self).store().vertex_len() + 1,
            final(self).store().edge_len() == old(self).store().edge_len(),
            final(self).store().face_len() == old(self).store().face_len(),
            final(self).store().vertex_next() == old(self).store().vertex_next() + 1,
            final(self).store().face_next() == old(self).store().face_next(),
    {
        self.raw.insert_vertex_rec(geometry)
    }

    /// Inserts the directed arc from `span.0` toward `span.1`. The arc is
    /// rejected when degenerate, when an endpoint does not resolve, or when
    /// the same directed arc is already live; otherwise it is paired with
    /// the reverse arc if that arc is live, and it becomes the leading arc
    /// of its source vertex.
    pub fn insert_edge(&mut self, span: (VertexKey, VertexKey), geometry: Vector3) -> (r: Result<
        EdgeKey,
        GraphError,
    >)
        requires
            old(self).inv(),
        ensures
            final(self).inv(),
            ({
                let a = span.0;
                let b = span.1;
                let k = EdgeKey { source: a, destination: b };
                let rev = k.spec_reversed();
                let o = old(self).store();
                let n = final(self).store();
                if a == b {
                    r == Err::<EdgeKey, GraphError>(GraphError::TopologyMalformed) && n == o
                } else if !o.vm().contains_key(a) || !o.vm().contains_key(b) {
                    r == Err::<EdgeKey, GraphError>(GraphError::TopologyNotFound) && n == o
                } else if o.em().contains_key(k) {
                    r == Err::<EdgeKey, GraphError>(GraphError::TopologyConflict) && n == o
                } else {
                    &&& r == Ok::<EdgeKey, GraphError>(k)
                    &&& n.em() == if o.em().contains_key(rev) {
                        o.em().insert(k, fresh_edge(geometry, b, Some(rev))).insert(
                            rev,
                            Edge { opposite: Some(k), ..o.em()[rev] },
                        )
                    } else {
                        o.em().insert(k, fresh_edge(geometry, b, None))
                    }
                    &&& n.vm() == o.vm().insert(a, Vertex { edge: Some(k), ..o.vm()[a] })
                    &&& n.fm() == o.fm()
                    &&& n.edge_len() == o.edge_len() + 1
                    &&& n.vertex_len() == o.vertex_len()
                    &&& n.face_len() == o.face_len()
                    &&& n.vertex_next() == o.vertex_next()
                    &&& n.face_next() == o.face_next()
                }
            }),
    {
        self.raw.insert_edge_rec(span, geometry)
    }

    /// Inserts a face over an ordered arc sequence of arity at least three,
    /// wiring each arc's `next`, `previous` and `face` pointers around the
    /// cycle. Fails when an arc is missing, listed twice, or already claimed
    /// by a face.
    pub fn insert_face(&mut self, boundary: &Vec<EdgeKey>, geometry: Vector3) -> (r: Result<
        FaceKey,
        GraphError,
    >)
        requires
            old(self).inv(),
            old(self).store().face_next() < u64::MAX,
        ensures
            final(self).inv(),
            ({
                let o = old(self).store();
                let n = final(self).store();
                let bs = boundary@;
                if bs.len() < 3 {
                    r == Err::<FaceKey, GraphError>(
                        GraphError::ArityConflict { expected: 3, actual: bs.len() as usize },
                    ) && n == o
                } else if exists|i: int| 0 <= i < bs.len() && !o.em().contains_key(bs[i]) {
                    r == Err::<FaceKey, GraphError>(GraphError::TopologyNotFound) && n == o
                } else if exists|i: int, j: int| 0 <= i < j < bs.len() && bs[i] == bs[j] {
                    r == Err::<FaceKey, GraphError>(GraphError::TopologyMalformed) && n == o
                } else if exists|i: int| 0 <= i < bs.len() && o.em()[bs[i]].face is Some {
                    r == Err::<FaceKey, GraphError>(GraphError::TopologyMalformed) && n == o
                } else {
                    let f = FaceKey(o.face_next());
                    &&& r == Ok::<FaceKey, GraphError>(f)
                    &&& n.fm() == o.fm().insert(f, Face { geometry, edge: bs[0] })
                    &&& n.vm() == o.vm()
                    &&& forall|k: EdgeKey| #[trigger]
                        n.em().contains_key(k) <==> o.em().contains_key(k)
                    &&& forall|k: EdgeKey|
                        o.em().contains_key(k) && !bs.contains(k) ==> n.em()[k] == o.em()[k]
                    &&& forall|i: int|
                        0 <= i < bs.len() ==> n.em()[bs[i]] == wired_edge(
                            o.em()[bs[i]],
                            bs[crate::mesh::cyc_next(bs.len() as int, i)],
                            bs[crate::mesh::cyc_prev(bs.len() as int, i)],
                            f,
                        )
                    &&& n.edge_len() == o.edge_len()
                    &&& n.face_len() == o.face_len() + 1
                    &&& n.vertex_len() == o.vertex_len()
                    &&& n.vertex_next() == o.vertex_next()
                    &&& n.face_next() == o.face_next() + 1
                }
            }),
    {
        self.raw.insert_face_rec(boundary, geometry)
    }

    /// Removes one vertex record; dangling references elsewhere are the
    /// caller's to clear.
    pub fn remove_vertex(&mut self, k: VertexKey) -> (r: Result<Vertex, GraphError>)
        requires
            old(self).inv(),
        ensures
            final(self).inv(),
            ({
                let o = old(self).store();
                let n = final(self).store();
                if o.vm().contains_key(k) {
                    &&& r == Ok::<Vertex, GraphError>(o.vm()[k])
                    &&& n.vm() == o.vm().remove(k)
                    &&& n.em() == o.em()
                    &&& n.fm() == o.fm()
                    &&& n.vertex_len() + 1 == o.vertex_len()
                    &&& n.edge_len() == o.edge_len()
                    &&& n.face_len() == o.face_len()
                    &&& n.vertex_next() == o.vertex_next()
                    &&& n.face_next() == o.face_next()
                } else {
                    r == Err::<Vertex, GraphError>(GraphError::TopologyNotFound) && n == o
                }
            }),
    {
        self.raw.remove_vertex_rec(k)
    }

    /// Removes one arc record; dangling references elsewhere are the
    /// caller's to clear.
    pub fn remove_edge(&mut self, k: EdgeKey) -> (r: Result<Edge, GraphError>)
        requires
            old(self).inv(),
        ensures
            final(self).inv(),
            ({
                let o = old(self).store();
                let n = final(self).store();
                if o.em().contains_key(k) {
                    &&& r == Ok::<Edge, GraphError>(o.em()[k])
                    &&& n.em() == o.em().remove(k)
                    &&& n.vm() == o.vm()
                    &&& n.fm() == o.fm()
                    &&& n.edge_len() + 1 == o.edge_len()
                    &&& n.vertex_len() == o.vertex_len()
                    &&& n.face_len() == o.face_len()
                    &&& n.vertex_next() == o.vertex_next()
                    &&& n.face_next() == o.face_next()
                } else {
                    r == Err::<Edge, GraphError>(GraphError::TopologyNotFound) && n == o
                }
            }),
    {
        self.raw.remove_edge_rec(k)
    }

    /// Removes one face record; dangling references elsewhere are the
    /// caller's to clear.
    pub fn remove_face(&mut self, k: FaceKey) -> (r: Result<Face, GraphError>)
        requires
            old(self).inv(),
        ensures
            final(self).inv(),
            ({
                let o = old(self).store();
                let n = final(self).store();
                if o.fm().contains_key(k) {
                    &&& r == Ok::<Face, GraphError>(o.fm()[k])
                    &&& n.fm() == o.fm().remove(k)
                    &&& n.vm() == o.vm()
                    &&& n.em() == o.em()
                    &&& n.face_len() + 1 == o.face_len()
                    &&& n.vertex_len() == o.vertex_len()
                    &&& n.edge_len() == o.edge_len()
                    &&& n.vertex_next() == o.vertex_next()
                    &&& n.face_next() == o.face_next()
                } else {
                    r == Err::<Face, GraphError>(GraphError::TopologyNotFound) && n == o
                }
            }),
    {
        self.raw.remove_face_rec(k)
    }

    /// Re-validates the staged aggregate and reassembles a consistent mesh,
    /// or reports the failure; the staged aggregate is discarded either way.
    pub fn commit(self) -> (r: Result<Mesh, GraphError>)
        requires
            self.inv(),
        ensures
            r is Ok <==> self.store().consistent(),
            match r {
                Ok(m) => m.inv() && m.store() == self.store(),
                Err(e) => e == GraphError::TopologyMalformed,
            },
    {
        if self.raw.validate() {
            let m = Mesh { raw: self.raw };
            proof {
                m.lemma_raw_is_store();
            }
            Ok(m)
        } else {
            Err(GraphError::TopologyMalformed)
        }
    }

    /// Drops the staged aggregate without committing; the staged changes
    /// vanish.
    pub fn discard(self) {
    }
}

} // verus!

use crate::geometry::{in_bounds, spec_midpoint};
use vstd::prelude::*;

verus! {

/// The key of the arc from the source of `k` toward the split vertex `m`.
pub open spec fn split_arc_out(k: EdgeKey, m: VertexKey) -> EdgeKey {
    EdgeKey { source: k.source, destination: m }
}

/// The key of the arc from the split vertex `m` toward the destination of
/// `k`.
pub open spec fn split_arc_in(k: EdgeKey, m: VertexKey) -> EdgeKey {
    EdgeKey { source: m, destination: k.destination }
}

/// The arc map after one directed arc `k` is replaced by its two halves
/// through `m`, inheriting linkage and face, with the neighbors relinked.
pub open spec fn split_half_em(
    em0: Map<EdgeKey, Edge>,
    k: EdgeKey,
    m: VertexKey,
    paired: bool,
) -> Map<EdgeKey, Edge> {
    let e = em0[k];
    let am = split_arc_out(k, m);
    let mb = split_arc_in(k, m);
    let em1 = em0.remove(k).insert(
        am,
        Edge {
            geometry: e.geometry,
            vertex: m,
            opposite: if paired {
                Some(am.spec_reversed())
            } else {
                None
            },
            next: Some(mb),
            previous: e.previous,
            face: e.face,
        },
    ).insert(
        mb,
        Edge {
            geometry: e.geometry,
            vertex: k.destination,
            opposite: if paired {
                Some(mb.spec_reversed())
            } else {
                None
            },
            next: e.next,
            previous: Some(am),
            face: e.face,
        },
    );
    let em2 = if e.previous is Some {
        em1.insert(e.previous->Some_0, Edge { next: Some(am), ..em1[e.previous->Some_0] })
    } else {
        em1
    };
    if e.next is Some {
        em2.insert(e.next->Some_0, Edge { previous: Some(mb), ..em2[e.next->Some_0] })
    } else {
        em2
    }
}

/// The vertex map after a split of `k` at `m`: the source leads through the
/// first half, `m` leads through the second.
pub open spec fn split_half_vm(vm0: Map<VertexKey, Vertex>, k: EdgeKey, m: VertexKey) -> Map<
    VertexKey,
    Vertex,
> {
    vm0.insert(k.source, Vertex { edge: Some(split_arc_out(k, m)), ..vm0[k.source] }).insert(
        m,
        Vertex { edge: Some(split_arc_in(k, m)), ..vm0[m] },
    )
}

/// The face map after a split of `k` at `m`: a face whose boundary entry was
/// the removed arc is repointed to the first half.
pub open spec fn split_half_fm(fm0: Map<FaceKey, Face>, e: Edge, k: EdgeKey, m: VertexKey) -> Map<
    FaceKey,
    Face,
> {
    match e.face {
        Some(f) => if fm0[f].edge == k {
            fm0.insert(f, Face { edge: split_arc_out(k, m), ..fm0[f] })
        } else {
            fm0
        },
        None => fm0,
    }
}

impl Mutation {
    /// Replaces arc `k` by its two halves through the fresh vertex `m`.
    fn split_half(&mut self, k: EdgeKey, m: VertexKey, paired: bool)
        requires
            old(self).inv(),
            old(self).store().em().contains_key(k),
            k.source != k.destination,
            k.source != m,
            k.destination != m,
            old(self).store().vm().contains_key(k.source),
            old(self).store().vm().contains_key(m),
            !old(self).store().em().contains_key(split_arc_out(k, m)),
            !old(self).store().em().contains_key(split_arc_in(k, m)),
            match old(self).store().em()[k].previous {
                Some(p) => p != k && old(self).store().em().contains_key(p),
                None => true,
            },
            match old(self).store().em()[k].next {
                Some(nx) => nx != k && old(self).store().em().contains_key(nx),
                None => true,
            },
            match old(self).store().em()[k].face {
                Some(f) => old(self).store().fm().contains_key(f),
                None => true,
            },
        ensures
            final(self).inv(),
            final(self).store().em() == split_half_em(old(self).store().em(), k, m, paired),
            final(self).store().vm() == split_half_vm(old(self).store().vm(), k, m),
            final(self).store().fm() == split_half_fm(
                old(self).store().fm(),
                old(self).store().em()[k],
                k,
                m,
            ),
            final(self).store().edge_len() == old(self).store().edge_len() + 1,
            final(self).store().vertex_len() == old(self).store().vertex_len(),
            final(self).store().face_len() == old(self).store().face_len(),
            final(self).store().vertex_next() == old(self).store().vertex_next(),
            final(self).store().face_next() == old(self).store().face_next(),
    {
        let e = match self.raw.edge_get(k) {
            Some(e) => e,
            None => {
                proof {
                    assert(false);
                }
                return ;
            },
        };
        let am = EdgeKey::new(k.source, m);
        let mb = EdgeKey::new(m, k.destination);
        let opp_am = if paired {
            Some(am.reversed())
        } else {
            None
        };
        let opp_mb = if paired {
            Some(mb.reversed())
        } else {
            None
        };
        let removed = self.raw.remove_edge_rec(k);
        proof {
            assert(removed is Ok);
        }
        self.raw.insert_edge_raw(
            am,
            Edge {
                geometry: e.geometry,
                vertex: m,
                opposite: opp_am,
                next: Some(mb),
                previous: e.previous,
                face: e.face,
            },
        );
        self.raw.insert_edge_raw(
            mb,
            Edge {
                geometry: e.geometry,
                vertex: k.destination,
                opposite: opp_mb,
                next: e.next,
                previous: Some(am),
                face: e.face,
            },
        );
        match e.previous {
            Some(p) => {
                match self.raw.edge_get(p) {
                    Some(ep) => {
                        let done = self.raw.update_edge_rec(p, Edge { next: Some(am), ..ep });
                        proof {
                            assert(done);
                        }
                    },
                    None => {
                        proof {
                            assert(false);
                        }
                    },
                }
            },
            None => {},
        }
        match e.next {
            Some(nx) => {
                match self.raw.edge_get(nx) {
                    Some(en) => {
                        let done = self.raw.update_edge_rec(nx, Edge { previous: Some(mb), ..en });
                        proof {
                            assert(done);
                        }
                    },
                    None => {
                        proof {
                            assert(false);
                        }
                    },
                }
            },
            None => {},
        }
        match self.raw.vertex_get(k.source) {
            Some(vr) => {
                let done = self.raw.update_vertex_rec(k.source, Vertex { edge: Some(am), ..vr });
                proof {
                    assert(done);
                }
            },
            None => {
                proof {
                    assert(false);
                }
            },
        }
        match self.raw.vertex_get(m) {
            Some(mr) => {
                let done = self.raw.update_vertex_rec(m, Vertex { edge: Some(mb), ..mr });
                proof {
                    assert(done);
                }
            },
            None => {
                proof {
                    assert(false);
                }
            },
        }
        match e.face {
            Some(f) => {
                match self.raw.face_get(f) {
                    Some(fr) => {
                        if fr.edge == k {
                            let done = self.raw.update_face_rec(f, Face { edge: am, ..fr });
                            proof {
                                assert(done);
                            }
                        }
                    },
                    None => {
                        proof {
                            assert(false);
                        }
                    },
                }
            },
            None => {},
        }
    }
}

} // verus!

verus! {

impl Mutation {
    /// Splits an edge at its midpoint: one new vertex is inserted at the
    /// midpoint of the endpoints' positions, and each live arc of the pair
    /// is replaced by two arcs that inherit its linkage and face. A staged
    /// aggregate whose pointers alias the split arcs themselves, or whose
    /// opposite is not the exact reverse arc, is refused as malformed.
    pub fn split(&mut self, k: EdgeKey) -> (r: Result<VertexKey, GraphError>)
        requires
            old(self).inv(),
            old(self).store().vertex_next() < u64::MAX,
            ({
                let o = old(self).store();
                (o.em().contains_key(k) && o.vm().contains_key(k.source) && o.vm().contains_key(
                    k.destination,
                )) ==> (in_bounds(o.vm()[k.source].geometry) && in_bounds(
                    o.vm()[k.destination].geometry,
                ))
            }),
        ensures
            final(self).inv(),
            ({
                let o = old(self).store();
                let n = final(self).store();
                match split_check(o, k) {
                    Some(e) => r == Err::<VertexKey, GraphError>(e) && n == o,
                    None => split_effects(o, n, k, r),
                }
            }),
    {
        let e = match self.raw.edge_get(k) {
            Some(e) => e,
            None => {
                return Err(GraphError::TopologyNotFound);
            },
        };
        let a = k.source;
        let b = k.destination;
        if a.0 == b.0 {
            return Err(GraphError::TopologyMalformed);
        }
        let va = match self.raw.vertex_get(a) {
            Some(v) => v,
            None => {
                return Err(GraphError::TopologyNotFound);
            },
        };
        let vb = match self.raw.vertex_get(b) {
            Some(v) => v,
            None => {
                return Err(GraphError::TopologyNotFound);
            },
        };
        let rev = k.reversed();
        let full = match e.opposite {
            None => false,
            Some(j) => {
                if !(j == rev) {
                    return Err(GraphError::TopologyMalformed);
                }
                if self.raw.edge_get(rev).is_none() {
                    return Err(GraphError::TopologyNotFound);
                }
                true
            },
        };
        match e.previous {
            Some(p) => {
                if p == k || p == rev {
                    return Err(GraphError::TopologyMalformed);
                }
                if self.raw.edge_get(p).is_none() {
                    return Err(GraphError::TopologyNotFound);
                }
            },
            None => {},
        }
        match e.next {
            Some(nx) => {
                if nx == k || nx == rev {
                    return Err(GraphError::TopologyMalformed);
                }
                if self.raw.edge_get(nx).is_none() {
                    return Err(GraphError::TopologyNotFound);
                }
            },
            None => {},
        }
        if full {
            let e2 = match self.raw.edge_get(rev) {
                Some(x) => x,
                None => {
                    proof {
                        assert(false);
                    }
                    return Err(GraphError::TopologyNotFound);
                },
            };
            match e2.previous {
                Some(p2) => {
                    if p2 == k || p2 == rev {
                        return Err(GraphError::TopologyMalformed);
                    }
                    if self.raw.edge_get(p2).is_none() {
                        return Err(GraphError::TopologyNotFound);
                    }
                },
                None => {},
            }
            match e2.next {
                Some(n2) => {
                    if n2 == k || n2 == rev {
                        return Err(GraphError::TopologyMalformed);
                    }
                    if self.raw.edge_get(n2).is_none() {
                        return Err(GraphError::TopologyNotFound);
                    }
                },
                None => {},
            }
        }
        match e.face {
            Some(f) => {
                if self.raw.face_get(f).is_none() {
                    return Err(GraphError::TopologyNotFound);
                }
            },
            None => {},
        }
        if full {
            let e2 = match self.raw.edge_get(rev) {
                Some(x) => x,
                None => {
                    proof {
                        assert(false);
                    }
                    return Err(GraphError::TopologyNotFound);
                },
            };
            match e2.face {
                Some(f2) => {
                    if self.raw.face_get(f2).is_none() {
                        return Err(GraphError::TopologyNotFound);
                    }
                },
                None => {},
            }
        }
        let m = VertexKey(self.raw.vertex_next_key());
        let am = EdgeKey::new(a, m);
        let mb = EdgeKey::new(m, b);
        if self.raw.edge_get(am).is_some() || self.raw.edge_get(mb).is_some() {
            return Err(GraphError::TopologyConflict);
        }
        if full {
            let bm = EdgeKey::new(b, m);
            let ma = EdgeKey::new(m, a);
            if self.raw.edge_get(bm).is_some() || self.raw.edge_get(ma).is_some() {
                return Err(GraphError::TopologyConflict);
            }
        }
        proof {
            old(self).store().lemma_vertex_keys_issued();
            assert(a.0 < m.0);
            assert(b.0 < m.0);
        }
        let mid = va.geometry.midpoint(vb.geometry);
        let m_got = self.raw.insert_vertex_rec(mid);
        proof {
            assert(m_got == m);
        }
        self.split_half(k, m, full);
        if full {
            proof {
                let em_mid = split_half_em(old(self).store().em(), k, m, true);
                assert(em_mid[rev] == old(self).store().em()[rev]);
                assert(em_mid.contains_key(rev));
                assert(!em_mid.contains_key(split_arc_out(rev, m)));
                assert(!em_mid.contains_key(split_arc_in(rev, m)));
            }
            self.split_half(rev, m, true);
        }
        Ok(m)
    }
}

} // verus!

use crate::geometry::{spec_add, spec_lateral, spec_scale, COORD_LIMIT, DIST_LIMIT};

verus! {

/// The arc map after inserting arc `k` with payload `geometry`: the fresh
/// record, paired with the reverse arc when that arc is live.
pub open spec fn insert_edge_em(em0: Map<EdgeKey, Edge>, k: EdgeKey, geometry: Vector3) -> Map<
    EdgeKey,
    Edge,
> {
    let rev = k.spec_reversed();
    if em0.contains_key(rev) {
        em0.insert(k, fresh_edge(geometry, k.destination, Some(rev))).insert(
            rev,
            Edge { opposite: Some(k), ..em0[rev] },
        )
    } else {
        em0.insert(k, fresh_edge(geometry, k.destination, None))
    }
}

/// The vertex map after inserting arc `k`: the source vertex leads through
/// the new arc.
pub open spec fn insert_edge_vm(vm0: Map<VertexKey, Vertex>, k: EdgeKey) -> Map<
    VertexKey,
    Vertex,
> {
    vm0.insert(k.source, Vertex { edge: Some(k), ..vm0[k.source] })
}

/// The arc map after wiring the triangle `b0 -> b1 -> b2` into face `f`.
pub open spec fn wire_face_em(
    em0: Map<EdgeKey, Edge>,
    b0: EdgeKey,
    b1: EdgeKey,
    b2: EdgeKey,
    f: FaceKey,
) -> Map<EdgeKey, Edge> {
    em0.insert(b0, wired_edge(em0[b0], b1, b2, f)).insert(b1, wired_edge(em0[b1], b2, b0, f))
        .insert(b2, wired_edge(em0[b2], b0, b1, f))
}

/// The arc map after the six bridging arcs between the spans `a -> b` and
/// `c -> d` are inserted.
pub open spec fn bridge_em(
    em0: Map<EdgeKey, Edge>,
    a: VertexKey,
    b: VertexKey,
    c: VertexKey,
    d: VertexKey,
    eg: Vector3,
) -> Map<EdgeKey, Edge> {
    let ba = EdgeKey { source: b, destination: a };
    let ad = EdgeKey { source: a, destination: d };
    let db = EdgeKey { source: d, destination: b };
    let bd = EdgeKey { source: b, destination: d };
    let dc = EdgeKey { source: d, destination: c };
    let cb = EdgeKey { source: c, destination: b };
    insert_edge_em(
        insert_edge_em(
            insert_edge_em(
                insert_edge_em(insert_edge_em(insert_edge_em(em0, ba, eg), ad, eg), db, eg),
                bd,
                eg,
            ),
            dc,
            eg,
        ),
        cb,
        eg,
    )
}

/// The six bridging arc keys, in insertion order.
pub open spec fn bridge_keys(a: VertexKey, b: VertexKey, c: VertexKey, d: VertexKey) -> Seq<
    EdgeKey,
> {
    seq![
        EdgeKey { source: b, destination: a },
        EdgeKey { source: a, destination: d },
        EdgeKey { source: d, destination: b },
        EdgeKey { source: b, destination: d },
        EdgeKey { source: d, destination: c },
        EdgeKey { source: c, destination: b },
    ]
}

/// The vertex map after the six bridging arcs are inserted.
pub open spec fn bridge_vm(
    vm0: Map<VertexKey, Vertex>,
    a: VertexKey,
    b: VertexKey,
    c: VertexKey,
    d: VertexKey,
) -> Map<VertexKey, Vertex> {
    let ba = EdgeKey { source: b, destination: a };
    let ad = EdgeKey { source: a, destination: d };
    let db = EdgeKey { source: d, destination: b };
    let bd = EdgeKey { source: b, destination: d };
    let dc = EdgeKey { source: d, destination: c };
    let cb = EdgeKey { source: c, destination: b };
    insert_edge_vm(
        insert_edge_vm(
            insert_edge_vm(
                insert_edge_vm(insert_edge_vm(insert_edge_vm(vm0, ba), ad), db),
                bd,
            ),
            dc,
        ),
        cb,
    )
}

impl Mutation {
    /// Inserts the six bridging arcs between the spans `a -> b` and
    /// `c -> d`.
    #[verifier::rlimit(60)]
    #[verifier::spinoff_prover]
    fn bridge_edges(&mut self, a: VertexKey, b: VertexKey, c: VertexKey, d: VertexKey, eg: Vector3)
        requires
            old(self).inv(),
            old(self).store().vm().contains_key(a),
            old(self).store().vm().contains_key(b),
            old(self).store().vm().contains_key(c),
            old(self).store().vm().contains_key(d),
            a != b && a != c && a != d && b != c && b != d && c != d,
            !old(self).store().em().contains_key(EdgeKey { source: b, destination: a }),
            !old(self).store().em().contains_key(EdgeKey { source: a, destination: d }),
            !old(self).store().em().contains_key(EdgeKey { source: d, destination: b }),
            !old(self).store().em().contains_key(EdgeKey { source: b, destination: d }),
            !old(self).store().em().contains_key(EdgeKey { source: d, destination: c }),
            !old(self).store().em().contains_key(EdgeKey { source: c, destination: b }),
        ensures
            final(self).inv(),
            final(self).store().em() == bridge_em(old(self).store().em(), a, b, c, d, eg),
            final(self).store().vm() == bridge_vm(old(self).store().vm(), a, b, c, d),
            final(self).store().fm() == old(self).store().fm(),
            final(self).store().edge_len() == old(self).store().edge_len() + 6,
            final(self).store().face_len() == old(self).store().face_len(),
            final(self).store().vertex_len() == old(self).store().vertex_len(),
            final(self).store().vertex_next() == old(self).store().vertex_next(),
            final(self).store().face_next() == old(self).store().face_next(),
            forall|i: int| 0 <= i < 6 ==> final(self).store().em()[bridge_keys(a, b, c, d)[i]].face
                is None,
            forall|i: int| 0 <= i < 6 ==> final(self).store().em().contains_key(
                bridge_keys(a, b, c, d)[i],
            ),
    {
        let ba = EdgeKey::new(b, a);
        let ad = EdgeKey::new(a, d);
        let db = EdgeKey::new(d, b);
        let bd = EdgeKey::new(b, d);
        let dc = EdgeKey::new(d, c);
        let cb = EdgeKey::new(c, b);
        let r1 = self.insert_edge((b, a), eg);
        let r2 = self.insert_edge((a, d), eg);
        let r3 = self.insert_edge((d, b), eg);
        let r4 = self.insert_edge((b, d), eg);
        let r5 = self.insert_edge((d, c), eg);
        let r6 = self.insert_edge((c, b), eg);
        proof {
            assert(r1 == Ok::<EdgeKey, GraphError>(ba));
            assert(r2 == Ok::<EdgeKey, GraphError>(ad));
            assert(r3 == Ok::<EdgeKey, GraphError>(db));
            assert(r4 == Ok::<EdgeKey, GraphError>(bd));
            assert(r5 == Ok::<EdgeKey, GraphError>(dc));
            assert(r6 == Ok::<EdgeKey, GraphError>(cb));
        }
    }

    /// Inserts the six arcs and two triangular faces that bridge the span
    /// `a -> b` to the span `c -> d`, and yields the arc `d -> c`.
    #[verifier::rlimit(100)]
    #[verifier::spinoff_prover]
    fn bridge(
        &mut self,
        a: VertexKey,
        b: VertexKey,
        c: VertexKey,
        d: VertexKey,
        eg: Vector3,
        fg: Vector3,
    ) -> (r: EdgeKey)
        requires
            old(self).inv(),
            old(self).store().face_next() < u64::MAX - 1,
            old(self).store().vm().contains_key(a),
            old(self).store().vm().contains_key(b),
            old(self).store().vm().contains_key(c),
            old(self).store().vm().contains_key(d),
            a != b && a != c && a != d && b != c && b != d && c != d,
            !old(self).store().em().contains_key(EdgeKey { source: b, destination: a }),
            !old(self).store().em().contains_key(EdgeKey { source: a, destination: d }),
            !old(self).store().em().contains_key(EdgeKey { source: d, destination: b }),
            !old(self).store().em().contains_key(EdgeKey { source: b, destination: d }),
            !old(self).store().em().contains_key(EdgeKey { source: d, destination: c }),
            !old(self).store().em().contains_key(EdgeKey { source: c, destination: b }),
        ensures
            final(self).inv(),
            ({
                let o = old(self).store();
                let n = final(self).store();
                let ba = EdgeKey { source: b, destination: a };
                let ad = EdgeKey { source: a, destination: d };
                let db = EdgeKey { source: d, destination: b };
                let bd = EdgeKey { source: b, destination: d };
                let dc = EdgeKey { source: d, destination: c };
                let cb = EdgeKey { source: c, destination: b };
                let f1 = FaceKey(o.face_next());
                let f2 = FaceKey((o.face_next() + 1) as u64);
                &&& r == dc
                &&& n.em() == wire_face_em(
                    wire_face_em(bridge_em(o.em(), a, b, c, d, eg), ba, ad, db, f1),
                    bd,
                    dc,
                    cb,
                    f2,
                )
                &&& n.vm() == bridge_vm(o.vm(), a, b, c, d)
                &&& n.fm() == o.fm().insert(f1, Face { geometry: fg, edge: ba }).insert(
                    f2,
                    Face { geometry: fg, edge: bd },
                )
                &&& n.edge_len() == o.edge_len() + 6
                &&& n.face_len() == o.face_len() + 2
                &&& n.vertex_len() == o.vertex_len()
                &&& n.vertex_next() == o.vertex_next()
                &&& n.face_next() == o.face_next() + 2
            }),
    {
        let ba = EdgeKey::new(b, a);
        let ad = EdgeKey::new(a, d);
        let db = EdgeKey::new(d, b);
        let bd = EdgeKey::new(b, d);
        let dc = EdgeKey::new(d, c);
        let cb = EdgeKey::new(c, b);
        self.bridge_edges(a, b, c, d, eg);
        let ghost em6 = self.store().em();
        let ghost keys6 = bridge_keys(a, b, c, d);
        let ghost f1 = FaceKey(old(self).store().face_next());
        let ghost f2 = FaceKey((old(self).store().face_next() + 1) as u64);
        let tri1 = vec![ba, ad, db];
        let fr1 = self.insert_face(&tri1, fg);
        proof {
            assert(keys6[0] == ba && keys6[1] == ad && keys6[2] == db);
            assert(keys6[3] == bd && keys6[4] == dc && keys6[5] == cb);
            assert(tri1@.len() == 3);
            assert(tri1@[0] == ba && tri1@[1] == ad && tri1@[2] == db);
            assert(fr1 == Ok::<FaceKey, GraphError>(f1));
            assert(self.store().em()[ba] == wired_edge(em6[ba], ad, db, f1));
            assert(self.store().em()[ad] == wired_edge(em6[ad], db, ba, f1));
            assert(self.store().em()[db] == wired_edge(em6[db], ba, ad, f1));
            assert forall|x: EdgeKey|
                em6.contains_key(x) && x != ba && x != ad && x != db implies self.store().em()[x]
                == em6[x] by {
                if tri1@.contains(x) {
                    let i = choose|i: int| 0 <= i < 3 && tri1@[i] == x;
                    assert(false);
                }
            }
            assert(self.store().em() =~= wire_face_em(em6, ba, ad, db, f1));
        }
        let ghost em_a = self.store().em();
        let tri2 = vec![bd, dc, cb];
        let fr2 = self.insert_face(&tri2, fg);
        proof {
            assert(tri2@.len() == 3);
            assert(tri2@[0] == bd && tri2@[1] == dc && tri2@[2] == cb);
            assert(em_a[bd].face is None);
            assert(em_a[dc].face is None);
            assert(em_a[cb].face is None);
            assert(fr2 == Ok::<FaceKey, GraphError>(f2));
            assert(self.store().em()[bd] == wired_edge(em_a[bd], dc, cb, f2));
            assert(self.store().em()[dc] == wired_edge(em_a[dc], cb, bd, f2));
            assert(self.store().em()[cb] == wired_edge(em_a[cb], bd, dc, f2));
            assert forall|x: EdgeKey|
                em_a.contains_key(x) && x != bd && x != dc && x != cb implies self.store().em()[x]
                == em_a[x] by {
                if tri2@.contains(x) {
                    let i = choose|i: int| 0 <= i < 3 && tri2@[i] == x;
                    assert(false);
                }
            }
            assert(self.store().em() =~= wire_face_em(em_a, bd, dc, cb, f2));
        }
        dc
    }
}

} // verus!

verus! {

/// The exact effect of a successful extrusion of arc `k` by `distance`:
/// the two duplicated vertices at offset positions, the six bridging arcs,
/// and the two triangular wall faces.
pub open spec fn extrude_effects(
    o: Core,
    n: Core,
    k: EdgeKey,
    distance: i64,
    r: Result<EdgeKey, GraphError>,
) -> bool {
    let a = k.source;
    let b = k.destination;
    let e = o.em()[k];
    let c = VertexKey(o.vertex_next());
    let d = VertexKey((o.vertex_next() + 1) as u64);
    let t = spec_scale(spec_lateral(o.vm()[a].geometry, o.vm()[b].geometry), distance as int);
    let gc = spec_add(o.vm()[b].geometry, t);
    let gd = spec_add(o.vm()[a].geometry, t);
    let vm_seed = o.vm().insert(c, Vertex { geometry: gc, edge: None }).insert(
        d,
        Vertex { geometry: gd, edge: None },
    );
    let eg = e.geometry;
    let fg = o.fm()[e.face->Some_0].geometry;
    let ba = EdgeKey { source: b, destination: a };
    let bd = EdgeKey { source: b, destination: d };
    let dc = EdgeKey { source: d, destination: c };
    let cb = EdgeKey { source: c, destination: b };
    let ad = EdgeKey { source: a, destination: d };
    let db = EdgeKey { source: d, destination: b };
    let f1 = FaceKey(o.face_next());
    let f2 = FaceKey((o.face_next() + 1) as u64);
    &&& r == Ok::<EdgeKey, GraphError>(dc)
    &&& n.em() == wire_face_em(
        wire_face_em(bridge_em(o.em(), a, b, c, d, eg), ba, ad, db, f1),
        bd,
        dc,
        cb,
        f2,
    )
    &&& n.vm() == bridge_vm(vm_seed, a, b, c, d)
    &&& n.fm() == o.fm().insert(f1, Face { geometry: fg, edge: ba }).insert(
        f2,
        Face { geometry: fg, edge: bd },
    )
    &&& n.vm().contains_key(c) && n.vm()[c].geometry == gc
    &&& n.vm().contains_key(d) && n.vm()[d].geometry == gd
    &&& distance == 0 ==> n.vm()[c].geometry == o.vm()[b].geometry && n.vm()[d].geometry
        == o.vm()[a].geometry
    &&& n.edge_len() == o.edge_len() + 6
    &&& n.face_len() == o.face_len() + 2
    &&& n.vertex_len() == o.vertex_len() + 2
    &&& n.vertex_next() == o.vertex_next() + 2
    &&& n.face_next() == o.face_next() + 2
}

/// The precheck outcome of splitting arc `k` on aggregate `o`: the error
/// reported without touching the aggregate, or nothing when every check
/// passes. Checks run in this order: the arc and its endpoints resolve, the
/// arc is not degenerate, the opposite (if set) is the exact reverse arc
/// and resolves, neighbor and face pointers of both arcs resolve without
/// aliasing the pair, and the four half keys are free.
pub open spec fn split_check(o: Core, k: EdgeKey) -> Option<GraphError> {
    let a = k.source;
    let b = k.destination;
    let rev = k.spec_reversed();
    let e = o.em()[k];
    let e2 = o.em()[rev];
    let m = VertexKey(o.vertex_next());
    if !o.em().contains_key(k) {
        Some(GraphError::TopologyNotFound)
    } else if a == b {
        Some(GraphError::TopologyMalformed)
    } else if !o.vm().contains_key(a) || !o.vm().contains_key(b) {
        Some(GraphError::TopologyNotFound)
    } else if e.opposite is Some && e.opposite->Some_0 != rev {
        Some(GraphError::TopologyMalformed)
    } else if e.opposite is Some && !o.em().contains_key(rev) {
        Some(GraphError::TopologyNotFound)
    } else if e.previous is Some && (e.previous->Some_0 == k || e.previous->Some_0 == rev) {
        Some(GraphError::TopologyMalformed)
    } else if e.previous is Some && !o.em().contains_key(e.previous->Some_0) {
        Some(GraphError::TopologyNotFound)
    } else if e.next is Some && (e.next->Some_0 == k || e.next->Some_0 == rev) {
        Some(GraphError::TopologyMalformed)
    } else if e.next is Some && !o.em().contains_key(e.next->Some_0) {
        Some(GraphError::TopologyNotFound)
    } else if e.opposite is Some && e2.previous is Some && (e2.previous->Some_0 == k
        || e2.previous->Some_0 == rev) {
        Some(GraphError::TopologyMalformed)
    } else if e.opposite is Some && e2.previous is Some && !o.em().contains_key(
        e2.previous->Some_0,
    ) {
        Some(GraphError::TopologyNotFound)
    } else if e.opposite is Some && e2.next is Some && (e2.next->Some_0 == k || e2.next->Some_0
        == rev) {
        Some(GraphError::TopologyMalformed)
    } else if e.opposite is Some && e2.next is Some && !o.em().contains_key(e2.next->Some_0) {
        Some(GraphError::TopologyNotFound)
    } else if e.face is Some && !o.fm().contains_key(e.face->Some_0) {
        Some(GraphError::TopologyNotFound)
    } else if e.opposite is Some && e2.face is Some && !o.fm().contains_key(e2.face->Some_0) {
        Some(GraphError::TopologyNotFound)
    } else if o.em().contains_key(split_arc_out(k, m)) || o.em().contains_key(split_arc_in(k, m)) {
        Some(GraphError::TopologyConflict)
    } else if e.opposite is Some && (o.em().contains_key(split_arc_out(rev, m))
        || o.em().contains_key(split_arc_in(rev, m))) {
        Some(GraphError::TopologyConflict)
    } else {
        None
    }
}

/// The exact effect of a successful split of arc `k`: one vertex at the
/// midpoint, each live arc of the pair replaced by its two halves, and the
/// neighbors, leading arcs and boundary entries relinked.
pub open spec fn split_effects(o: Core, n: Core, k: EdgeKey, r: Result<
    VertexKey,
    GraphError,
>) -> bool {
    let a = k.source;
    let b = k.destination;
    let rev = k.spec_reversed();
    let e = o.em()[k];
    let e2 = o.em()[rev];
    let m = VertexKey(o.vertex_next());
    let full = e.opposite is Some;
    let vm_seed = o.vm().insert(
        m,
        Vertex { geometry: spec_midpoint(o.vm()[a].geometry, o.vm()[b].geometry), edge: None },
    );
    &&& r == Ok::<VertexKey, GraphError>(m)
    &&& n.em() == if full {
        split_half_em(split_half_em(o.em(), k, m, true), rev, m, true)
    } else {
        split_half_em(o.em(), k, m, false)
    }
    &&& n.vm() == if full {
        split_half_vm(split_half_vm(vm_seed, k, m), rev, m)
    } else {
        split_half_vm(vm_seed, k, m)
    }
    &&& n.fm() == if full {
        split_half_fm(split_half_fm(o.fm(), e, k, m), e2, rev, m)
    } else {
        split_half_fm(o.fm(), e, k, m)
    }
    &&& n.vm().contains_key(m) && n.vm()[m].geometry == spec_midpoint(
        o.vm()[a].geometry,
        o.vm()[b].geometry,
    )
    &&& n.vertex_len() == o.vertex_len() + 1
    &&& n.edge_len() == o.edge_len() + if full {
        2int
    } else {
        1int
    }
    &&& n.face_len() == o.face_len()
    &&& n.vertex_next() == o.vertex_next() + 1
    &&& n.face_next() == o.face_next()
}

/// The precheck outcome of joining `source` to `destination` on aggregate
/// `o`: the error reported without touching the aggregate, or nothing when
/// every check passes. The perimeter is probed before the distinctness of
/// the four vertices, so an overlapping perimeter is always a conflict.
pub open spec fn join_check(o: Core, source: EdgeKey, destination: EdgeKey) -> Option<
    GraphError,
> {
    let a = source.source;
    let b = source.destination;
    let c = destination.source;
    let d = destination.destination;
    let e = o.em()[source];
    if !o.em().contains_key(destination) {
        Some(GraphError::TopologyNotFound)
    } else if !o.em().contains_key(source) {
        Some(GraphError::TopologyNotFound)
    } else if e.face is None || !o.fm().contains_key(e.face->Some_0) {
        Some(GraphError::TopologyNotFound)
    } else if !o.vm().contains_key(a) || !o.vm().contains_key(b) || !o.vm().contains_key(c)
        || !o.vm().contains_key(d) {
        Some(GraphError::TopologyNotFound)
    } else if o.em().contains_key(EdgeKey { source: d, destination: c }) || o.em().contains_key(
        EdgeKey { source: c, destination: b },
    ) || o.em().contains_key(EdgeKey { source: b, destination: a }) || o.em().contains_key(
        EdgeKey { source: a, destination: d },
    ) {
        Some(GraphError::TopologyConflict)
    } else if o.em().contains_key(EdgeKey { source: b, destination: d }) || o.em().contains_key(
        EdgeKey { source: d, destination: b },
    ) {
        Some(GraphError::TopologyConflict)
    } else if a == b || a == c || a == d || b == c || b == d || c == d {
        Some(GraphError::TopologyMalformed)
    } else {
        None
    }
}

/// The exact effect of a successful join of `source` to `destination`: the
/// six bridging arcs carrying the source arc's geometry and the two
/// triangular faces carrying the source face's geometry.
pub open spec fn join_effects(
    o: Core,
    n: Core,
    source: EdgeKey,
    destination: EdgeKey,
    r: Result<EdgeKey, GraphError>,
) -> bool {
    let a = source.source;
    let b = source.destination;
    let c = destination.source;
    let d = destination.destination;
    let e = o.em()[source];
    let eg = e.geometry;
    let fg = o.fm()[e.face->Some_0].geometry;
    let ba = EdgeKey { source: b, destination: a };
    let bd = EdgeKey { source: b, destination: d };
    let dc = EdgeKey { source: d, destination: c };
    let cb = EdgeKey { source: c, destination: b };
    let ad = EdgeKey { source: a, destination: d };
    let db = EdgeKey { source: d, destination: b };
    let f1 = FaceKey(o.face_next());
    let f2 = FaceKey((o.face_next() + 1) as u64);
    &&& r == Ok::<EdgeKey, GraphError>(dc)
    &&& n.em() == wire_face_em(
        wire_face_em(bridge_em(o.em(), a, b, c, d, eg), ba, ad, db, f1),
        bd,
        dc,
        cb,
        f2,
    )
    &&& n.vm() == bridge_vm(o.vm(), a, b, c, d)
    &&& n.fm() == o.fm().insert(f1, Face { geometry: fg, edge: ba }).insert(
        f2,
        Face { geometry: fg, edge: bd },
    )
    &&& n.edge_len() == o.edge_len() + 6
    &&& n.face_len() == o.face_len() + 2
    &&& n.vertex_len() == o.vertex_len()
    &&& n.vertex_next() == o.vertex_next()
    &&& n.face_next() == o.face_next() + 2
}

/// The precheck outcome of extruding arc `k` on aggregate `o`: the error
/// reported without touching the aggregate, or nothing when every check
/// passes.
pub open spec fn extrude_check(o: Core, k: EdgeKey) -> Option<GraphError> {
    let a = k.source;
    let b = k.destination;
    let e = o.em()[k];
    let c = VertexKey(o.vertex_next());
    let d = VertexKey((o.vertex_next() + 1) as u64);
    if !o.em().contains_key(k) {
        Some(GraphError::TopologyNotFound)
    } else if a == b {
        Some(GraphError::TopologyMalformed)
    } else if !o.vm().contains_key(a) || !o.vm().contains_key(b) {
        Some(GraphError::TopologyNotFound)
    } else if e.face is None || !o.fm().contains_key(e.face->Some_0) {
        Some(GraphError::TopologyNotFound)
    } else if o.em().contains_key(EdgeKey { source: b, destination: a }) {
        Some(GraphError::TopologyConflict)
    } else if o.em().contains_key(EdgeKey { source: a, destination: d }) || o.em().contains_key(
        EdgeKey { source: d, destination: b },
    ) || o.em().contains_key(EdgeKey { source: b, destination: d }) || o.em().contains_key(
        EdgeKey { source: d, destination: c },
    ) || o.em().contains_key(EdgeKey { source: c, destination: b }) {
        Some(GraphError::TopologyConflict)
    } else {
        None
    }
}

impl Mutation {
    /// Connects two boundary edges by bridging them with a quad of two
    /// triangular faces. Before any mutation, the perimeter of the four
    /// vertices is checked in a fixed order: if any connecting arc already
    /// exists there (or across the bridging diagonal), the operation fails
    /// with a conflict and the staged aggregate is left unchanged.
    #[verifier::rlimit(60)]
    #[verifier::spinoff_prover]
    pub fn join(&mut self, source: EdgeKey, destination: EdgeKey) -> (r: Result<
        EdgeKey,
        GraphError,
    >)
        requires
            old(self).inv(),
            old(self).store().face_next() < u64::MAX - 1,
        ensures
            final(self).inv(),
            ({
                let o = old(self).store();
                let n = final(self).store();
                match join_check(o, source, destination) {
                    Some(e) => r == Err::<EdgeKey, GraphError>(e) && n == o,
                    None => join_effects(o, n, source, destination, r),
                }
            }),
    {
        if self.raw.edge_get(destination).is_none() {
            return Err(GraphError::TopologyNotFound);
        }
        let e = match self.raw.edge_get(source) {
            Some(e) => e,
            None => {
                return Err(GraphError::TopologyNotFound);
            },
        };
        let fg = match e.face {
            Some(f) => match self.raw.face_get(f) {
                Some(fr) => fr.geometry,
                None => {
                    return Err(GraphError::TopologyNotFound);
                },
            },
            None => {
                return Err(GraphError::TopologyNotFound);
            },
        };
        let (a, b) = source.to_vertex_keys();
        let (c, d) = destination.to_vertex_keys();
        if self.raw.vertex_get(a).is_none() || self.raw.vertex_get(b).is_none()
            || self.raw.vertex_get(c).is_none() || self.raw.vertex_get(d).is_none() {
            return Err(GraphError::TopologyNotFound);
        }
        if self.raw.edge_get(EdgeKey::new(d, c)).is_some() || self.raw.edge_get(
            EdgeKey::new(c, b),
        ).is_some() || self.raw.edge_get(EdgeKey::new(b, a)).is_some() || self.raw.edge_get(
            EdgeKey::new(a, d),
        ).is_some() {
            return Err(GraphError::TopologyConflict);
        }
        if self.raw.edge_get(EdgeKey::new(b, d)).is_some() || self.raw.edge_get(
            EdgeKey::new(d, b),
        ).is_some() {
            return Err(GraphError::TopologyConflict);
        }
        if a == b || a == c || a == d || b == c || b == d || c == d {
            return Err(GraphError::TopologyMalformed);
        }
        let r = self.bridge(a, b, c, d, e.geometry, fg);
        Ok(r)
    }

    /// Extrudes a boundary arc: the arc's endpoints are duplicated at
    /// positions offset by the arc's lateral direction scaled by `distance`,
    /// and the source span is bridged to the copy, forming an extruded
    /// quad wall of two triangular faces. Yields the outer arc of the wall.
    #[verifier::rlimit(100)]
    #[verifier::spinoff_prover]
    pub fn extrude(&mut self, k: EdgeKey, distance: i64) -> (r: Result<EdgeKey, GraphError>)
        requires
            old(self).inv(),
            old(self).store().vertex_next() < u64::MAX - 1,
            old(self).store().face_next() < u64::MAX - 1,
            -DIST_LIMIT <= distance <= DIST_LIMIT,
            ({
                let o = old(self).store();
                (o.em().contains_key(k) && o.vm().contains_key(k.source) && o.vm().contains_key(
                    k.destination,
                )) ==> (in_bounds(o.vm()[k.source].geometry) && in_bounds(
                    o.vm()[k.destination].geometry,
                ))
            }),
        ensures
            final(self).inv(),
            ({
                let o = old(self).store();
                let n = final(self).store();
                match extrude_check(o, k) {
                    Some(e) => r == Err::<EdgeKey, GraphError>(e) && n == o,
                    None => extrude_effects(o, n, k, distance, r),
                }
            }),
    {
        let e = match self.raw.edge_get(k) {
            Some(e) => e,
            None => {
                return Err(GraphError::TopologyNotFound);
            },
        };
        let a = k.source;
        let b = k.destination;
        if a.0 == b.0 {
            return Err(GraphError::TopologyMalformed);
        }
        let va = match self.raw.vertex_get(a) {
            Some(v) => v,
            None => {
                return Err(GraphError::TopologyNotFound);
            },
        };
        let vb = match self.raw.vertex_get(b) {
            Some(v) => v,
            None => {
                return Err(GraphError::TopologyNotFound);
            },
        };
        let fg = match e.face {
            Some(f) => match self.raw.face_get(f) {
                Some(fr) => fr.geometry,
                None => {
                    return Err(GraphError::TopologyNotFound);
                },
            },
            None => {
                return Err(GraphError::TopologyNotFound);
            },
        };
        let c = VertexKey(self.raw.vertex_next_key());
        let d = VertexKey(self.raw.vertex_next_key() + 1);
        if self.raw.edge_get(EdgeKey::new(b, a)).is_some() {
            return Err(GraphError::TopologyConflict);
        }
        if self.raw.edge_get(EdgeKey::new(a, d)).is_some() || self.raw.edge_get(
            EdgeKey::new(d, b),
        ).is_some() || self.raw.edge_get(EdgeKey::new(b, d)).is_some() || self.raw.edge_get(
            EdgeKey::new(d, c),
        ).is_some() || self.raw.edge_get(EdgeKey::new(c, b)).is_some() {
            return Err(GraphError::TopologyConflict);
        }
        proof {
            old(self).store().lemma_vertex_keys_issued();
            assert(a.0 < c.0 && b.0 < c.0);
        }
        let lat = va.geometry.lateral_to(vb.geometry);
        proof {
            assert((-(0x200_0000_0000_0000int) <= lat.x * distance) && (lat.x * distance
                <= 0x200_0000_0000_0000int)) by (nonlinear_arith)
                requires
                    -(2 * COORD_LIMIT) <= lat.x <= 2 * COORD_LIMIT,
                    -DIST_LIMIT <= distance <= DIST_LIMIT,
            {}
            assert((-(0x200_0000_0000_0000int) <= lat.y * distance) && (lat.y * distance
                <= 0x200_0000_0000_0000int)) by (nonlinear_arith)
                requires
                    -(2 * COORD_LIMIT) <= lat.y <= 2 * COORD_LIMIT,
                    -DIST_LIMIT <= distance <= DIST_LIMIT,
            {}
            assert(lat.z * distance == 0) by (nonlinear_arith)
                requires
                    lat.z == 0,
            {}
        }
        let t = lat.scale(distance);
        let gc = vb.geometry.add(t);
        let gd = va.geometry.add(t);
        let c_got = self.raw.insert_vertex_rec(gc);
        let d_got = self.raw.insert_vertex_rec(gd);
        proof {
            assert(c_got == c && d_got == d);
        }
        let r = self.bridge(a, b, c, d, e.geometry, fg);
        proof {
            assert(self.store().vm()[c].geometry == gc);
            assert(self.store().vm()[d].geometry == gd);
            assert(extrude_effects(
                old(self).store(),
                self.store(),
                k,
                distance,
                Ok::<EdgeKey, GraphError>(r),
            ));
        }
        Ok(r)
    }
}

} // verus!

verus! {

impl Mutation {
    /// Overwrites the geometry payload of one vertex; connectivity is
    /// untouched. Reports whether the key was live.
    pub fn set_vertex_geometry(&mut self, k: VertexKey, geometry: Vector3) -> (r: bool)
        requires
            old(self).inv(),
        ensures
            final(self).inv(),
            r == old(self).store().vm().contains_key(k),
            r ==> final(self).store().vm() == old(self).store().vm().insert(
                k,
                Vertex { geometry, ..old(self).store().vm()[k] },
            ),
            !r ==> final(self).store().vm() == old(self).store().vm(),
            final(self).store().em() == old(self).store().em(),
            final(self).store().fm() == old(self).store().fm(),
    {
        match self.raw.vertex_get(k) {
            Some(v) => {
                let done = self.raw.update_vertex_rec(k, Vertex { geometry, ..v });
                proof {
                    assert(done);
                }
                true
            },
            None => false,
        }
    }

    /// Overwrites the geometry payload of one arc; connectivity is
    /// untouched. Reports whether the key was live.
    pub fn set_edge_geometry(&mut self, k: EdgeKey, geometry: Vector3) -> (r: bool)
        requires
            old(self).inv(),
        ensures
            final(self).inv(),
            r == old(self).store().em().contains_key(k),
            r ==> final(self).store().em() == old(self).store().em().insert(
                k,
                Edge { geometry, ..old(self).store().em()[k] },
            ),
            !r ==> final(self).store().em() == old(self).store().em(),
            final(self).store().vm() == old(self).store().vm(),
            final(self).store().fm() == old(self).store().fm(),
    {
        match self.raw.edge_get(k) {
            Some(e) => {
                let done = self.raw.update_edge_rec(k, Edge { geometry, ..e });
                proof {
                    assert(done);
                }
                true
            },
            None => false,
        }
    }

    /// Overwrites the geometry payload of one face; connectivity is
    /// untouched. Reports whether the key was live.
    pub fn set_face_geometry(&mut self, k: FaceKey, geometry: Vector3) -> (r: bool)
        requires
            old(self).inv(),
        ensures
            final(self).inv(),
            r == old(self).store().fm().contains_key(k),
            r ==> final(self).store().fm() == old(self).store().fm().insert(
                k,
                Face { geometry, ..old(self).store().fm()[k] },
            ),
            !r ==> final(self).store().fm() == old(self).store().fm(),
            final(self).store().vm() == old(self).store().vm(),
            final(self).store().em() == old(self).store().em(),
    {
        match self.raw.face_get(k) {
            Some(f) => {
                let done = self.raw.update_face_rec(k, Face { geometry, ..f });
                proof {
                    assert(done);
                }
                true
            },
            None => false,
        }
    }
}

} // verus!

verus! {

/// Inserting one paired arc between live, distinct vertices under a fresh
/// key keeps a consistent aggregate consistent.
#[verifier::rlimit(100)]
#[verifier::spinoff_prover]
pub(crate) proof fn lemma_insert_edge_keeps_consistent(
    o: Core,
    n: Core,
    a: VertexKey,
    b: VertexKey,
    g: Vector3,
)
    requires
        o.consistent(),
        o.vm().contains_key(a),
        o.vm().contains_key(b),
        a != b,
        !o.em().contains_key(EdgeKey { source: a, destination: b }),
        ({
            let k = EdgeKey { source: a, destination: b };
            let rev = k.spec_reversed();
            &&& n.em() == if o.em().contains_key(rev) {
                o.em().insert(k, fresh_edge(g, b, Some(rev))).insert(
                    rev,
                    Edge { opposite: Some(k), ..o.em()[rev] },
                )
            } else {
                o.em().insert(k, fresh_edge(g, b, None))
            }
            &&& n.vm() == o.vm().insert(a, Vertex { edge: Some(k), ..o.vm()[a] })
            &&& n.fm() == o.fm()
            &&& n.edge_len() == o.edge_len() + 1
        }),
    ensures
        n.consistent(),
{
    let k = EdgeKey { source: a, destination: b };
    let rev = k.spec_reversed();
    let has_rev = o.em().contains_key(rev);
    assert(rev != k);
    assert forall|v: VertexKey| #[trigger] n.vm().contains_key(v) implies n.vertex_ok(v) by {
        assert(o.vm().contains_key(v));
        assert(o.vertex_ok(v));
        if v == a {
            assert(n.vm()[v].edge == Some(k));
            assert(n.em().contains_key(k));
        } else {
            assert(n.vm()[v] == o.vm()[v]);
            match o.vm()[v].edge {
                Some(k0) => {
                    assert(n.em().contains_key(k0));
                },
                None => {},
            }
        }
    }
    assert forall|x: EdgeKey| #[trigger] n.em().contains_key(x) implies n.edge_ok(x) by {
        if x == k {
            assert(n.em()[k] == fresh_edge(g, b, if has_rev {
                Some(rev)
            } else {
                None
            }));
            assert(n.vm().contains_key(a) && n.vm().contains_key(b));
            assert(n.em().contains_key(rev) <==> has_rev);
            assert(n.vm()[a].edge is Some);
        } else {
            assert(o.em().contains_key(x));
            assert(o.edge_ok(x));
            if has_rev && x == rev {
                assert(n.em()[rev] == Edge { opposite: Some(k), ..o.em()[rev] });
                assert(n.em().contains_key(rev.spec_reversed()));
                match o.em()[rev].next {
                    Some(nx) => {
                        assert(o.em().contains_key(nx));
                        assert(n.em().contains_key(nx));
                        assert(n.em()[nx].previous == o.em()[nx].previous);
                    },
                    None => {},
                }
                match o.em()[rev].previous {
                    Some(p) => {
                        assert(n.em().contains_key(p));
                        assert(n.em()[p].next == o.em()[p].next);
                    },
                    None => {},
                }
                assert(n.vm()[rev.source].edge is Some);
            } else {
                assert(n.em()[x] == o.em()[x]);
                assert(x.spec_reversed() == k ==> x == rev);
                assert(n.em().contains_key(x.spec_reversed()) <==> o.em().contains_key(
                    x.spec_reversed(),
                ));
                match o.em()[x].next {
                    Some(nx) => {
                        assert(o.em().contains_key(nx));
                        assert(n.em().contains_key(nx));
                        assert(n.em()[nx].previous == o.em()[nx].previous);
                    },
                    None => {},
                }
                match o.em()[x].previous {
                    Some(p) => {
                        assert(n.em().contains_key(p));
                        assert(n.em()[p].next == o.em()[p].next);
                    },
                    None => {},
                }
                assert(n.vm()[x.source].edge is Some);
            }
        }
    }
    assert forall|fk: FaceKey| #[trigger] n.fm().contains_key(fk) implies n.face_ok(fk) by {
        assert(o.fm().contains_key(fk));
        assert(o.face_ok(fk));
        let nn = choose|nn: nat| o.face_cycle(fk, o.fm()[fk].edge, nn);
        assert forall|x: EdgeKey| #[trigger]
            o.em().contains_key(x) && o.em()[x].face == Some(fk) implies n.em().contains_key(x)
            && n.em()[x].next == o.em()[x].next && n.em()[x].face == o.em()[x].face by {
            if has_rev && x == rev {
                assert(n.em()[rev] == Edge { opposite: Some(k), ..o.em()[rev] });
            } else {
                assert(n.em()[x] == o.em()[x]);
            }
        }
        Core::lemma_face_cycle_frame(o, n, fk, o.fm()[fk].edge, nn);
        assert(n.fm()[fk] == o.fm()[fk]);
        assert(n.face_cycle(fk, n.fm()[fk].edge, nn));
    }
}

} // verus!

verus! {

/// Wiring a face over fresh, unwired, cyclically chained, distinct live
/// arcs under a fresh face key keeps a consistent aggregate consistent.
#[verifier::rlimit(100)]
#[verifier::spinoff_prover]
pub(crate) proof fn lemma_insert_face_keeps_consistent(
    o: Core,
    n: Core,
    bs: Seq<EdgeKey>,
    f: FaceKey,
    g: Vector3,
)
    requires
        o.consistent(),
        3 <= bs.len() <= o.edge_len(),
        forall|x: int, y: int| 0 <= x < y < bs.len() ==> bs[x] != bs[y],
        forall|j: int| #![trigger bs[j]]
            0 <= j < bs.len() ==> o.em().contains_key(bs[j]) && o.em()[bs[j]].next is None
                && o.em()[bs[j]].previous is None && o.em()[bs[j]].face is None
                && bs[j].destination == bs[cyc_next(bs.len() as int, j)].source,
        !o.fm().contains_key(f),
        forall|x: EdgeKey| #[trigger] n.em().contains_key(x) <==> o.em().contains_key(x),
        forall|x: EdgeKey|
            o.em().contains_key(x) && !bs.contains(x) ==> n.em()[x] == o.em()[x],
        forall|j: int| #![trigger bs[j]]
            0 <= j < bs.len() ==> n.em()[bs[j]] == wired_edge(
                o.em()[bs[j]],
                bs[cyc_next(bs.len() as int, j)],
                bs[cyc_prev(bs.len() as int, j)],
                f,
            ),
        n.vm() == o.vm(),
        n.fm() == o.fm().insert(f, Face { geometry: g, edge: bs[0] }),
        n.edge_len() == o.edge_len(),
    ensures
        n.consistent(),
{
    let count = bs.len() as int;
    assert forall|v: VertexKey| #[trigger] n.vm().contains_key(v) implies n.vertex_ok(v) by {
        assert(o.vertex_ok(v));
        match o.vm()[v].edge {
            Some(k0) => {
                assert(n.em().contains_key(k0));
                if bs.contains(k0) {
                    let j = choose|j: int| 0 <= j < count && bs[j] == k0;
                    assert(n.em()[k0] == wired_edge(
                        o.em()[k0],
                        bs[cyc_next(count, j)],
                        bs[cyc_prev(count, j)],
                        f,
                    ));
                }
            },
            None => {},
        }
    }
    assert forall|x: EdgeKey| #[trigger] n.em().contains_key(x) implies n.edge_ok(x) by {
        assert(o.em().contains_key(x));
        assert(o.edge_ok(x));
        assert(n.em().contains_key(x.spec_reversed()) <==> o.em().contains_key(
            x.spec_reversed(),
        ));
        if bs.contains(x) {
            let j = choose|j: int| 0 <= j < count && bs[j] == x;
            let jn = cyc_next(count, j);
            let jp = cyc_prev(count, j);
            assert(n.em()[x] == wired_edge(o.em()[x], bs[jn], bs[jp], f));
            assert(n.em()[x].next == Some(bs[jn]));
            assert(n.em().contains_key(bs[jn]));
            assert(n.em()[bs[jn]] == wired_edge(
                o.em()[bs[jn]],
                bs[cyc_next(count, jn)],
                bs[cyc_prev(count, jn)],
                f,
            ));
            assert(cyc_prev(count, jn) == j);
            assert(n.em()[bs[jn]].previous == Some(x));
            assert(bs[jn].source == x.destination);
            assert(n.em()[bs[jp]] == wired_edge(
                o.em()[bs[jp]],
                bs[cyc_next(count, jp)],
                bs[cyc_prev(count, jp)],
                f,
            ));
            assert(cyc_next(count, jp) == j);
            assert(n.em()[bs[jp]].next == Some(x));
            assert(n.fm().contains_key(f));
            assert(n.vm()[x.source].edge is Some);
            if bs.contains(x.spec_reversed()) {
                let jr = choose|jr: int| 0 <= jr < count && bs[jr] == x.spec_reversed();
                assert(n.em()[bs[jr]].opposite == o.em()[bs[jr]].opposite);
            }
            assert(n.em()[x].opposite == o.em()[x].opposite);
        } else {
            assert(n.em()[x] == o.em()[x]);
            match o.em()[x].next {
                Some(nx) => {
                    assert(o.em().contains_key(nx));
                    assert(o.em()[nx].previous == Some(x));
                    if bs.contains(nx) {
                        let j = choose|j: int| 0 <= j < count && bs[j] == nx;
                        assert(o.em()[bs[j]].previous is None);
                        assert(false);
                    }
                    assert(n.em()[nx] == o.em()[nx]);
                },
                None => {},
            }
            match o.em()[x].previous {
                Some(p) => {
                    assert(o.em().contains_key(p));
                    assert(o.em()[p].next == Some(x));
                    if bs.contains(p) {
                        let j = choose|j: int| 0 <= j < count && bs[j] == p;
                        assert(o.em()[bs[j]].next is None);
                        assert(false);
                    }
                    assert(n.em()[p] == o.em()[p]);
                },
                None => {},
            }
            match o.em()[x].face {
                Some(f0) => {
                    assert(n.fm().contains_key(f0));
                },
                None => {},
            }
            assert(n.vm()[x.source].edge is Some);
        }
    }
    assert forall|fk: FaceKey| #[trigger] n.fm().contains_key(fk) implies n.face_ok(fk) by {
        if fk == f {
            assert forall|j: int| #![trigger bs[j]] 0 <= j < count implies n.em().contains_key(
                bs[j],
            ) && n.em()[bs[j]].next == Some(bs[cyc_next(count, j)]) && n.em()[bs[j]].face == Some(
                f,
            ) by {
                assert(n.em()[bs[j]] == wired_edge(
                    o.em()[bs[j]],
                    bs[cyc_next(count, j)],
                    bs[cyc_prev(count, j)],
                    f,
                ));
            }
            Core::lemma_wired_cycle(n, f, bs);
            assert(n.fm()[f].edge == bs[0]);
        } else {
            assert(o.fm().contains_key(fk));
            assert(o.face_ok(fk));
            let nn = choose|nn: nat| o.face_cycle(fk, o.fm()[fk].edge, nn);
            assert forall|x: EdgeKey| #[trigger]
                o.em().contains_key(x) && o.em()[x].face == Some(fk) implies n.em().contains_key(
                x,
            ) && n.em()[x].next == o.em()[x].next && n.em()[x].face == o.em()[x].face by {
                if bs.contains(x) {
                    let j = choose|j: int| 0 <= j < count && bs[j] == x;
                    assert(o.em()[bs[j]].face is None);
                    assert(false);
                }
                assert(n.em()[x] == o.em()[x]);
            }
            Core::lemma_face_cycle_frame(o, n, fk, o.fm()[fk].edge, nn);
            assert(n.fm()[fk] == o.fm()[fk]);
            assert(n.face_cycle(fk, n.fm()[fk].edge, nn));
        }
    }
}

} // verus!
