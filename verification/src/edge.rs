//! Views over edges and their neighborhoods.
//!
//! An [`EdgeView`] is an exclusive view: it owns the consistent mesh
//! together with one live arc key, so no other handle into the aggregate can
//! exist while it does. Navigation that keeps the view shared yields plain
//! keys and records; navigation or mutation that moves to another entity
//! consumes the view. Orphan views carry only one entity's payload and no
//! traversal capability, so many of them can be worked on side by side.

use crate::geometry::{in_bounds, Vector3, DIST_LIMIT};
use crate::mesh::{Core, Edge, Face, Mesh, Vertex};
use crate::mutation::{extrude_check, extrude_effects, join_check, join_effects, split_check, split_effects, Mutation};
use crate::storage::{EdgeKey, FaceKey, VertexKey};
use crate::GraphError;
use vstd::prelude::*;

verus! {

/// A windowed pairing over a vertex ring: yields each element together with
/// its successor, wrapping to the front at the end.
pub struct PerimeterIter<T> {
    input: Vec<T>,
    index: usize,
}

impl<T: Copy> PerimeterIter<T> {
    /// The underlying ring.
    pub closed spec fn ring(self) -> Seq<T> {
        self.input@
    }

    /// The position of the next pair to be produced.
    pub closed spec fn at(self) -> int {
        self.index as int
    }

    /// Starts the duplet window at the front of `input`.
    pub fn new(input: Vec<T>) -> (r: PerimeterIter<T>)
        ensures
            r.ring() == input@,
            r.at() == 0,
    {
        PerimeterIter { input, index: 0 }
    }

    /// The next adjacent pair around the ring, or nothing once every
    /// element has been paired with its successor.
    pub fn next(&mut self) -> (r: Option<(T, T)>)
        requires
            old(self).at() <= old(self).ring().len(),
        ensures
            final(self).ring() == old(self).ring(),
            ({
                let s = old(self).ring();
                let i = old(self).at();
                if i < s.len() {
                    r == Some(
                        (
                            s[i],
                            s[
                                if i + 1 == s.len() {
                                    0int
                                } else {
                                    i + 1
                                }
                            ],
                        ),
                    ) && final(self).at() == i + 1
                } else {
                    r == None::<(T, T)> && final(self).at() == i
                }
            }),
    {
        let n = self.input.len();
        if self.index >= n {
            return None;
        }
        let a = self.input[self.index];
        let b = self.input[
            if self.index + 1 == n {
                0
            } else {
                self.index + 1
            }
        ];
        self.index = self.index + 1;
        Some((a, b))
    }
}

/// The key of an edge together with its ordered endpoint pair.
pub struct EdgeKeyTopology {
    key: EdgeKey,
    vertices: (VertexKey, VertexKey),
}

impl EdgeKeyTopology {
    /// The stored edge key.
    pub closed spec fn spec_key(self) -> EdgeKey {
        self.key
    }

    /// The stored endpoint pair.
    pub closed spec fn spec_vertices(self) -> (VertexKey, VertexKey) {
        self.vertices
    }

    pub(crate) fn new(edge: EdgeKey, vertices: (VertexKey, VertexKey)) -> (r: EdgeKeyTopology)
        ensures
            r.spec_key() == edge,
            r.spec_vertices() == vertices,
    {
        EdgeKeyTopology { key: edge, vertices }
    }

    /// The edge key.
    pub fn key(&self) -> (r: EdgeKey)
        ensures
            r == self.spec_key(),
    {
        self.key
    }

    /// The ordered endpoint pair.
    pub fn vertices(&self) -> (r: (VertexKey, VertexKey))
        ensures
            r == self.spec_vertices(),
    {
        self.vertices
    }
}

/// A payload-only exclusive handle over one arc: it carries the key and a
/// working copy of the geometry, and no traversal capability, so holding
/// many orphans over distinct arcs is safe. Writes are applied back through
/// [`Mutation::set_edge_geometry`].
pub struct OrphanEdgeView {
    pub key: EdgeKey,
    pub geometry: Vector3,
}

impl OrphanEdgeView {
    pub(crate) fn new(key: EdgeKey, geometry: Vector3) -> (r: OrphanEdgeView)
        ensures
            r.key == key,
            r.geometry == geometry,
    {
        OrphanEdgeView { key, geometry }
    }

    /// The arc this orphan is scoped to.
    pub fn key(&self) -> (r: EdgeKey)
        ensures
            r == self.key,
    {
        self.key
    }
}

/// A payload-only exclusive handle over one vertex.
pub struct OrphanVertexView {
    pub key: VertexKey,
    pub geometry: Vector3,
}

impl OrphanVertexView {
    /// The vertex this orphan is scoped to.
    pub fn key(&self) -> (r: VertexKey)
        ensures
            r == self.key,
    {
        self.key
    }
}

/// A payload-only exclusive handle over one face.
pub struct OrphanFaceView {
    pub key: FaceKey,
    pub geometry: Vector3,
}

impl OrphanFaceView {
    /// The face this orphan is scoped to.
    pub fn key(&self) -> (r: FaceKey)
        ensures
            r == self.key,
    {
        self.key
    }
}

/// An exclusive view over one vertex of a consistent mesh; it owns the
/// mesh, so no other view can alias it.
pub struct VertexView {
    pub(crate) mesh: Mesh,
    pub(crate) key: VertexKey,
}

impl VertexView {
    /// The owned mesh.
    pub closed spec fn spec_mesh(self) -> Mesh {
        self.mesh
    }

    /// The vertex the view is over.
    pub closed spec fn spec_key(self) -> VertexKey {
        self.key
    }

    /// The mesh is consistent and the vertex is live.
    pub open spec fn inv(self) -> bool {
        &&& self.spec_mesh().inv()
        &&& self.spec_mesh().vm().contains_key(self.spec_key())
    }

    /// The vertex's key.
    pub fn key(&self) -> (r: VertexKey)
        ensures
            r == self.spec_key(),
    {
        self.key
    }

    /// Gives the mesh back, consuming the view.
    pub fn into_mesh(self) -> (r: Mesh)
        ensures
            r == self.spec_mesh(),
    {
        self.mesh
    }

    /// The vertex's record.
    pub fn record(&self) -> (r: Vertex)
        requires
            self.inv(),
        ensures
            r == self.spec_mesh().vm()[self.spec_key()],
    {
        match self.mesh.vertex(self.key) {
            Some(v) => v,
            None => {
                proof {
                    assert(false);
                }
                Vertex { geometry: Vector3 { x: 0, y: 0, z: 0 }, edge: None }
            },
        }
    }

    /// The key of the vertex's leading outgoing arc, if any arc departs
    /// from it.
    pub fn outgoing_edge(&self) -> (r: Option<EdgeKey>)
        requires
            self.inv(),
        ensures
            r == self.spec_mesh().vm()[self.spec_key()].edge,
    {
        self.record().edge
    }
}

/// An exclusive view over one face of a consistent mesh; it owns the mesh.
pub struct FaceView {
    pub(crate) mesh: Mesh,
    pub(crate) key: FaceKey,
}

impl FaceView {
    /// The owned mesh.
    pub closed spec fn spec_mesh(self) -> Mesh {
        self.mesh
    }

    /// The face the view is over.
    pub closed spec fn spec_key(self) -> FaceKey {
        self.key
    }

    /// The mesh is consistent and the face is live.
    pub open spec fn inv(self) -> bool {
        &&& self.spec_mesh().inv()
        &&& self.spec_mesh().fm().contains_key(self.spec_key())
    }

    /// The face's key.
    pub fn key(&self) -> (r: FaceKey)
        ensures
            r == self.spec_key(),
    {
        self.key
    }

    /// Gives the mesh back, consuming the view.
    pub fn into_mesh(self) -> (r: Mesh)
        ensures
            r == self.spec_mesh(),
    {
        self.mesh
    }

    /// The face's record.
    pub fn record(&self) -> (r: Face)
        requires
            self.inv(),
        ensures
            r == self.spec_mesh().fm()[self.spec_key()],
    {
        match self.mesh.face(self.key) {
            Some(f) => f,
            None => {
                proof {
                    assert(false);
                }
                Face {
                    geometry: Vector3 { x: 0, y: 0, z: 0 },
                    edge: EdgeKey {
                        source: VertexKey(0),
                        destination: VertexKey(0),
                    },
                }
            },
        }
    }

    /// The face's boundary arcs in traversal order, a full circulation.
    pub fn edges(&self) -> (r: Vec<EdgeKey>)
        requires
            self.inv(),
        ensures
            r@.len() >= 3,
            self.spec_mesh().store().face_cycle(
                self.spec_key(),
                self.spec_mesh().fm()[self.spec_key()].edge,
                r@.len() as nat,
            ),
            forall|i: int|
                0 <= i < r@.len() ==> self.spec_mesh().store().walk(
                    self.spec_mesh().fm()[self.spec_key()].edge,
                    i as nat,
                ) == Some(r@[i]),
    {
        match self.mesh.face_boundary(self.key) {
            Some(bs) => bs,
            None => {
                proof {
                    assert(false);
                }
                Vec::new()
            },
        }
    }
}

/// An exclusive view over one live arc of a consistent mesh; it owns the
/// mesh. Shared navigation yields keys and record copies; the topological
/// operations consume the view and yield a view over the result, or give
/// the unchanged mesh back on a rejected operation.
pub struct EdgeView {
    pub(crate) mesh: Mesh,
    pub(crate) key: EdgeKey,
}

impl Mesh {
    /// Opens an exclusive view over one arc, consuming the mesh; a key that
    /// does not resolve hands the mesh back unchanged.
    pub fn edge_mut(self, key: EdgeKey) -> (r: Result<EdgeView, (Mesh, GraphError)>)
        requires
            self.inv(),
        ensures
            match r {
                Ok(v) => self.em().contains_key(key) && v.spec_mesh() == self && v.spec_key()
                    == key && v.inv(),
                Err((m, e)) => !self.em().contains_key(key) && m == self && e
                    == GraphError::TopologyNotFound,
            },
    {
        let live = self.edge(key).is_some();
        if live {
            Ok(EdgeView { mesh: self, key })
        } else {
            Err((self, GraphError::TopologyNotFound))
        }
    }

    /// Opens an exclusive view over one face, consuming the mesh; a key
    /// that does not resolve hands the mesh back unchanged.
    pub fn face_mut(self, key: FaceKey) -> (r: Result<FaceView, (Mesh, GraphError)>)
        requires
            self.inv(),
        ensures
            match r {
                Ok(v) => self.fm().contains_key(key) && v.spec_mesh() == self && v.spec_key()
                    == key && v.inv(),
                Err((m, e)) => !self.fm().contains_key(key) && m == self && e
                    == GraphError::TopologyNotFound,
            },
    {
        let live = self.face(key).is_some();
        if live {
            Ok(FaceView { mesh: self, key })
        } else {
            Err((self, GraphError::TopologyNotFound))
        }
    }

    /// Opens an exclusive view over one vertex, consuming the mesh.
    pub fn vertex_mut(self, key: VertexKey) -> (r: Result<VertexView, (Mesh, GraphError)>)
        requires
            self.inv(),
        ensures
            match r {
                Ok(v) => self.vm().contains_key(key) && v.spec_mesh() == self && v.spec_key()
                    == key && v.inv(),
                Err((m, e)) => !self.vm().contains_key(key) && m == self && e
                    == GraphError::TopologyNotFound,
            },
    {
        let live = self.vertex(key).is_some();
        if live {
            Ok(VertexView { mesh: self, key })
        } else {
            Err((self, GraphError::TopologyNotFound))
        }
    }
}

impl EdgeView {
    /// The owned mesh.
    pub closed spec fn spec_mesh(self) -> Mesh {
        self.mesh
    }

    /// The arc the view is over.
    pub closed spec fn spec_key(self) -> EdgeKey {
        self.key
    }

    /// The mesh is consistent and the arc is live.
    pub open spec fn inv(self) -> bool {
        &&& self.spec_mesh().inv()
        &&& self.spec_mesh().em().contains_key(self.spec_key())
    }

    /// The arc's key.
    pub fn key(&self) -> (r: EdgeKey)
        ensures
            r == self.spec_key(),
    {
        self.key
    }

    /// Gives the mesh back, consuming the view.
    pub fn into_mesh(self) -> (r: Mesh)
        ensures
            r == self.spec_mesh(),
    {
        self.mesh
    }

    /// The arc's key together with its endpoint pair.
    pub fn to_key_topology(&self) -> (r: EdgeKeyTopology)
        ensures
            r.spec_key() == self.spec_key(),
            r.spec_vertices().0 == self.spec_key().source,
            r.spec_vertices().1 == self.spec_key().destination,
    {
        EdgeKeyTopology::new(self.key, self.key.to_vertex_keys())
    }

    /// The arc's record.
    pub fn record(&self) -> (r: Edge)
        requires
            self.inv(),
        ensures
            r == self.spec_mesh().em()[self.spec_key()],
    {
        match self.mesh.edge(self.key) {
            Some(e) => e,
            None => {
                proof {
                    assert(false);
                }
                Edge {
                    geometry: Vector3 { x: 0, y: 0, z: 0 },
                    vertex: self.key.destination,
                    opposite: None,
                    next: None,
                    previous: None,
                    face: None,
                }
            },
        }
    }

    /// The source vertex's record.
    pub fn source_vertex(&self) -> (r: Vertex)
        requires
            self.inv(),
        ensures
            r == self.spec_mesh().vm()[self.spec_key().source],
    {
        proof {
            assert(self.spec_mesh().store().edge_ok(self.spec_key()));
        }
        match self.mesh.vertex(self.key.source) {
            Some(v) => v,
            None => {
                proof {
                    assert(false);
                }
                Vertex { geometry: Vector3 { x: 0, y: 0, z: 0 }, edge: None }
            },
        }
    }

    /// The destination vertex's record.
    pub fn destination_vertex(&self) -> (r: Vertex)
        requires
            self.inv(),
        ensures
            r == self.spec_mesh().vm()[self.spec_key().destination],
    {
        proof {
            assert(self.spec_mesh().store().edge_ok(self.spec_key()));
        }
        match self.mesh.vertex(self.key.destination) {
            Some(v) => v,
            None => {
                proof {
                    assert(false);
                }
                Vertex { geometry: Vector3 { x: 0, y: 0, z: 0 }, edge: None }
            },
        }
    }

    /// Consumes the view and moves it to the source vertex.
    pub fn into_source_vertex(self) -> (r: VertexView)
        requires
            self.inv(),
        ensures
            r.inv(),
            r.spec_mesh() == self.spec_mesh(),
            r.spec_key() == self.spec_key().source,
    {
        proof {
            assert(self.spec_mesh().store().edge_ok(self.spec_key()));
        }
        let key = self.key.source;
        VertexView { mesh: self.mesh, key }
    }

    /// Consumes the view and moves it to the destination vertex.
    pub fn into_destination_vertex(self) -> (r: VertexView)
        requires
            self.inv(),
        ensures
            r.inv(),
            r.spec_mesh() == self.spec_mesh(),
            r.spec_key() == self.spec_key().destination,
    {
        proof {
            assert(self.spec_mesh().store().edge_ok(self.spec_key()));
        }
        let key = self.key.destination;
        VertexView { mesh: self.mesh, key }
    }

    /// The key of the opposite arc, if the pair is complete.
    pub fn opposite_edge(&self) -> (r: Option<EdgeKey>)
        requires
            self.inv(),
        ensures
            r == self.spec_mesh().em()[self.spec_key()].opposite,
    {
        self.record().opposite
    }

    /// Consumes the view and moves it to the opposite arc; a half-formed
    /// pair hands the view back unchanged.
    pub fn into_opposite_edge(self) -> (r: Result<EdgeView, EdgeView>)
        requires
            self.inv(),
        ensures
            match r {
                Ok(v) => self.spec_mesh().em()[self.spec_key()].opposite == Some(v.spec_key())
                    && v.spec_mesh() == self.spec_mesh() && v.inv(),
                Err(v) => self.spec_mesh().em()[self.spec_key()].opposite is None && v == self,
            },
    {
        let opp = self.record().opposite;
        match opp {
            Some(o) => {
                proof {
                    assert(self.spec_mesh().store().edge_ok(self.spec_key()));
                }
                Ok(EdgeView { mesh: self.mesh, key: o })
            },
            None => Err(self),
        }
    }

    /// The key of the next arc around the incident face, if wired.
    pub fn next_edge(&self) -> (r: Option<EdgeKey>)
        requires
            self.inv(),
        ensures
            r == self.spec_mesh().em()[self.spec_key()].next,
    {
        self.record().next
    }

    /// Consumes the view and moves it to the next arc; an unwired arc hands
    /// the view back unchanged.
    pub fn into_next_edge(self) -> (r: Result<EdgeView, EdgeView>)
        requires
            self.inv(),
        ensures
            match r {
                Ok(v) => self.spec_mesh().em()[self.spec_key()].next == Some(v.spec_key())
                    && v.spec_mesh() == self.spec_mesh() && v.inv(),
                Err(v) => self.spec_mesh().em()[self.spec_key()].next is None && v == self,
            },
    {
        let nx = self.record().next;
        match nx {
            Some(n) => {
                proof {
                    assert(self.spec_mesh().store().edge_ok(self.spec_key()));
                }
                Ok(EdgeView { mesh: self.mesh, key: n })
            },
            None => Err(self),
        }
    }

    /// Consumes the view and moves it to the incident face; an arc without
    /// a face hands the view back unchanged.
    pub fn into_face(self) -> (r: Result<FaceView, EdgeView>)
        requires
            self.inv(),
        ensures
            match r {
                Ok(v) => self.spec_mesh().em()[self.spec_key()].face == Some(v.spec_key())
                    && v.spec_mesh() == self.spec_mesh() && v.inv(),
                Err(v) => self.spec_mesh().em()[self.spec_key()].face is None && v == self,
            },
    {
        let fc = self.record().face;
        match fc {
            Some(f) => {
                proof {
                    assert(self.spec_mesh().store().edge_ok(self.spec_key()));
                }
                Ok(FaceView { mesh: self.mesh, key: f })
            },
            None => Err(self),
        }
    }

    /// The key of the incident face, if any.
    pub fn face(&self) -> (r: Option<FaceKey>)
        requires
            self.inv(),
        ensures
            r == self.spec_mesh().em()[self.spec_key()].face,
    {
        self.record().face
    }

    /// An orphan payload handle over the opposite arc, if the pair is
    /// complete.
    pub fn opposite_edge_mut(&self) -> (r: Option<OrphanEdgeView>)
        requires
            self.inv(),
        ensures
            match r {
                Some(o) => self.spec_mesh().em()[self.spec_key()].opposite == Some(o.key)
                    && o.geometry == self.spec_mesh().em()[o.key].geometry,
                None => self.spec_mesh().em()[self.spec_key()].opposite is None,
            },
    {
        match self.record().opposite {
            Some(o) => {
                proof {
                    assert(self.spec_mesh().store().edge_ok(self.spec_key()));
                }
                match self.mesh.edge(o) {
                    Some(e) => Some(OrphanEdgeView::new(o, e.geometry)),
                    None => {
                        proof {
                            assert(false);
                        }
                        None
                    },
                }
            },
            None => None,
        }
    }

    /// An orphan payload handle over the next arc, if wired.
    pub fn next_edge_mut(&self) -> (r: Option<OrphanEdgeView>)
        requires
            self.inv(),
        ensures
            match r {
                Some(o) => self.spec_mesh().em()[self.spec_key()].next == Some(o.key)
                    && o.geometry == self.spec_mesh().em()[o.key].geometry,
                None => self.spec_mesh().em()[self.spec_key()].next is None,
            },
    {
        match self.record().next {
            Some(n) => {
                proof {
                    assert(self.spec_mesh().store().edge_ok(self.spec_key()));
                }
                match self.mesh.edge(n) {
                    Some(e) => Some(OrphanEdgeView::new(n, e.geometry)),
                    None => {
                        proof {
                            assert(false);
                        }
                        None
                    },
                }
            },
            None => None,
        }
    }

    /// An orphan payload handle over the source vertex.
    pub fn source_vertex_mut(&self) -> (r: OrphanVertexView)
        requires
            self.inv(),
        ensures
            r.key == self.spec_key().source,
            r.geometry == self.spec_mesh().vm()[self.spec_key().source].geometry,
    {
        let v = self.source_vertex();
        OrphanVertexView { key: self.key.source, geometry: v.geometry }
    }

    /// An orphan payload handle over the destination vertex.
    pub fn destination_vertex_mut(&self) -> (r: OrphanVertexView)
        requires
            self.inv(),
        ensures
            r.key == self.spec_key().destination,
            r.geometry == self.spec_mesh().vm()[self.spec_key().destination].geometry,
    {
        let v = self.destination_vertex();
        OrphanVertexView { key: self.key.destination, geometry: v.geometry }
    }

    /// An orphan payload handle over the incident face, if any.
    pub fn face_mut(&self) -> (r: Option<OrphanFaceView>)
        requires
            self.inv(),
        ensures
            match r {
                Some(o) => self.spec_mesh().em()[self.spec_key()].face == Some(o.key)
                    && o.geometry == self.spec_mesh().fm()[o.key].geometry,
                None => self.spec_mesh().em()[self.spec_key()].face is None,
            },
    {
        match self.record().face {
            Some(f) => {
                proof {
                    assert(self.spec_mesh().store().edge_ok(self.spec_key()));
                }
                match self.mesh.face(f) {
                    Some(fr) => Some(OrphanFaceView { key: f, geometry: fr.geometry }),
                    None => {
                        proof {
                            assert(false);
                        }
                        None
                    },
                }
            },
            None => None,
        }
    }

    /// The midpoint of the arc's endpoint positions.
    pub fn midpoint(&self) -> (r: Vector3)
        requires
            self.inv(),
            in_bounds(self.spec_mesh().vm()[self.spec_key().source].geometry),
            in_bounds(self.spec_mesh().vm()[self.spec_key().destination].geometry),
        ensures
            r == crate::geometry::spec_midpoint(
                self.spec_mesh().vm()[self.spec_key().source].geometry,
                self.spec_mesh().vm()[self.spec_key().destination].geometry,
            ),
    {
        let a = self.source_vertex();
        let b = self.destination_vertex();
        a.geometry.midpoint(b.geometry)
    }

    /// The arc's lateral direction: its direction rotated a quarter turn in
    /// the `xy`-plane, unnormalized.
    pub fn lateral(&self) -> (r: Vector3)
        requires
            self.inv(),
            in_bounds(self.spec_mesh().vm()[self.spec_key().source].geometry),
            in_bounds(self.spec_mesh().vm()[self.spec_key().destination].geometry),
        ensures
            r == crate::geometry::spec_lateral(
                self.spec_mesh().vm()[self.spec_key().source].geometry,
                self.spec_mesh().vm()[self.spec_key().destination].geometry,
            ),
    {
        let a = self.source_vertex();
        let b = self.destination_vertex();
        a.geometry.lateral_to(b.geometry)
    }

    /// Splits the edge at its midpoint, consuming the view. On success the
    /// committed mesh is handed back through a view over the new vertex; a
    /// rejected split hands back the unchanged mesh with the error.
    pub fn split(self) -> (r: Result<VertexView, (Option<Mesh>, GraphError)>)
        requires
            self.inv(),
            self.spec_mesh().store().vertex_next() < u64::MAX,
            in_bounds(self.spec_mesh().vm()[self.spec_key().source].geometry),
            in_bounds(self.spec_mesh().vm()[self.spec_key().destination].geometry),
        ensures
            ({
                let o = self.spec_mesh().store();
                let k = self.spec_key();
                let m = VertexKey(o.vertex_next());
                match split_check(o, k) {
                    Some(e) => match r {
                        Ok(_) => false,
                        Err((back, e2)) => back is Some && back->Some_0.inv()
                            && back->Some_0.store() == o && e2 == e,
                    },
                    None => exists|staged: Core|
                        {
                            &&& #[trigger] split_effects(
                                o,
                                staged,
                                k,
                                Ok::<VertexKey, GraphError>(m),
                            )
                            &&& match r {
                                Ok(v) => staged.consistent() && v.inv() && v.spec_mesh().store()
                                    == staged && v.spec_key() == m,
                                Err((back, e)) => !staged.consistent() && back is None && e
                                    == GraphError::TopologyMalformed,
                            }
                        },
                }
            }),
    {
        let key = self.key;
        let ghost o = self.spec_mesh().store();
        let mut mu = Mutation::new(self.mesh);
        match mu.split(key) {
            Ok(v) => {
                let ghost staged = mu.store();
                match mu.commit() {
                    Ok(mesh) => {
                        proof {
                            assert(split_effects(
                                o,
                                staged,
                                key,
                                Ok::<VertexKey, GraphError>(v),
                            ));
                        }
                        Ok(VertexView { mesh, key: v })
                    },
                    Err(e) => {
                        proof {
                            assert(split_effects(
                                o,
                                staged,
                                key,
                                Ok::<VertexKey, GraphError>(v),
                            ));
                        }
                        Err((None, e))
                    },
                }
            },
            Err(e) => match mu.commit() {
                Ok(mesh) => Err((Some(mesh), e)),
                Err(e2) => {
                    proof {
                        assert(false);
                    }
                    Err((None, e2))
                },
            },
        }
    }

    /// Joins this boundary edge to another by bridging them with two
    /// triangular faces, consuming the view. On success the committed mesh
    /// is handed back through a view over the outer bridging arc; a
    /// rejected join — a perimeter that already holds a connecting arc, or
    /// an unresolved key — hands back the unchanged mesh with the error.
    pub fn join(self, destination: EdgeKey) -> (r: Result<EdgeView, (Option<Mesh>, GraphError)>)
        requires
            self.inv(),
            self.spec_mesh().store().face_next() < u64::MAX - 1,
        ensures
            ({
                let o = self.spec_mesh().store();
                let source = self.spec_key();
                let dc = EdgeKey {
                    source: destination.destination,
                    destination: destination.source,
                };
                match join_check(o, source, destination) {
                    Some(e) => match r {
                        Ok(_) => false,
                        Err((back, e2)) => back is Some && back->Some_0.inv()
                            && back->Some_0.store() == o && e2 == e,
                    },
                    None => exists|staged: Core|
                        {
                            &&& #[trigger] join_effects(
                                o,
                                staged,
                                source,
                                destination,
                                Ok::<EdgeKey, GraphError>(dc),
                            )
                            &&& match r {
                                Ok(v) => staged.consistent() && v.inv() && v.spec_mesh().store()
                                    == staged && v.spec_key() == dc,
                                Err((back, e)) => !staged.consistent() && back is None && e
                                    == GraphError::TopologyMalformed,
                            }
                        },
                }
            }),
    {
        let key = self.key;
        let ghost o = self.spec_mesh().store();
        let mut mu = Mutation::new(self.mesh);
        match mu.join(key, destination) {
            Ok(dc) => {
                let ghost staged = mu.store();
                match mu.commit() {
                    Ok(mesh) => {
                        proof {
                            assert(join_effects(
                                o,
                                staged,
                                key,
                                destination,
                                Ok::<EdgeKey, GraphError>(dc),
                            ));
                            assert(mesh.em().contains_key(dc));
                        }
                        Ok(EdgeView { mesh, key: dc })
                    },
                    Err(e) => {
                        proof {
                            assert(join_effects(
                                o,
                                staged,
                                key,
                                destination,
                                Ok::<EdgeKey, GraphError>(dc),
                            ));
                        }
                        Err((None, e))
                    },
                }
            },
            Err(e) => match mu.commit() {
                Ok(mesh) => Err((Some(mesh), e)),
                Err(e2) => {
                    proof {
                        assert(false);
                    }
                    Err((None, e2))
                },
            },
        }
    }

    /// Extrudes this boundary arc by `distance` along its lateral
    /// direction, consuming the view. On success the committed mesh is
    /// handed back through a view over the outer arc of the extruded wall;
    /// a rejected extrusion hands back the unchanged mesh with the error.
    pub fn extrude(self, distance: i64) -> (r: Result<EdgeView, (Option<Mesh>, GraphError)>)
        requires
            self.inv(),
            self.spec_mesh().store().vertex_next() < u64::MAX - 1,
            self.spec_mesh().store().face_next() < u64::MAX - 1,
            -DIST_LIMIT <= distance <= DIST_LIMIT,
            in_bounds(self.spec_mesh().vm()[self.spec_key().source].geometry),
            in_bounds(self.spec_mesh().vm()[self.spec_key().destination].geometry),
        ensures
            ({
                let o = self.spec_mesh().store();
                let k = self.spec_key();
                let c = VertexKey(o.vertex_next());
                let d = VertexKey((o.vertex_next() + 1) as u64);
                let dc = EdgeKey { source: d, destination: c };
                match extrude_check(o, k) {
                    Some(e) => match r {
                        Ok(_) => false,
                        Err((back, e2)) => back is Some && back->Some_0.inv()
                            && back->Some_0.store() == o && e2 == e,
                    },
                    None => exists|staged: Core|
                        {
                            &&& #[trigger] extrude_effects(
                                o,
                                staged,
                                k,
                                distance,
                                Ok::<EdgeKey, GraphError>(dc),
                            )
                            &&& match r {
                                Ok(v) => staged.consistent() && v.inv() && v.spec_mesh().store()
                                    == staged && v.spec_key() == dc,
                                Err((back, e)) => !staged.consistent() && back is None && e
                                    == GraphError::TopologyMalformed,
                            }
                        },
                }
            }),
    {
        let key = self.key;
        let ghost o = self.spec_mesh().store();
        let mut mu = Mutation::new(self.mesh);
        match mu.extrude(key, distance) {
            Ok(dc) => {
                let ghost staged = mu.store();
                match mu.commit() {
                    Ok(mesh) => {
                        proof {
                            assert(extrude_effects(
                                o,
                                staged,
                                key,
                                distance,
                                Ok::<EdgeKey, GraphError>(dc),
                            ));
                            assert(mesh.em().contains_key(dc));
                        }
                        Ok(EdgeView { mesh, key: dc })
                    },
                    Err(e) => {
                        proof {
                            assert(extrude_effects(
                                o,
                                staged,
                                key,
                                distance,
                                Ok::<EdgeKey, GraphError>(dc),
                            ));
                        }
                        Err((None, e))
                    },
                }
            },
            Err(e) => match mu.commit() {
                Ok(mesh) => Err((Some(mesh), e)),
                Err(e2) => {
                    proof {
                        assert(false);
                    }
                    Err((None, e2))
                },
            },
        }
    }

}

} // verus!
