//! Topology records, the raw storage aggregate, and the consistent mesh.
//!
//! A [`Core`] bundles the three storages and may hold any connectivity at
//! all; it is the staging area of the mutation engine. A [`Mesh`] is only
//! ever produced by a commit that has validated every consistency condition,
//! so external code can rely on every traversal pointer resolving and every
//! face boundary closing.

use crate::geometry::Vector3;
use crate::storage::{EdgeKey, FaceKey, PairStorage, Storage, VertexKey};
use crate::GraphError;
use vstd::prelude::*;

verus! {

/// A vertex record: geometry plus the optional leading (outgoing) arc.
#[derive(Clone, Copy, Debug)]
pub struct Vertex {
    pub geometry: Vector3,
    pub edge: Option<EdgeKey>,
}

/// A directed arc record. Its key carries the source and destination; the
/// record repeats the destination and carries the traversal pointers.
#[derive(Clone, Copy, Debug)]
pub struct Edge {
    pub geometry: Vector3,
    pub vertex: VertexKey,
    pub opposite: Option<EdgeKey>,
    pub next: Option<EdgeKey>,
    pub previous: Option<EdgeKey>,
    pub face: Option<FaceKey>,
}

/// A face record: geometry plus one arc of its boundary cycle.
#[derive(Clone, Copy, Debug)]
pub struct Face {
    pub geometry: Vector3,
    pub edge: EdgeKey,
}

/// The raw storage aggregate: freely mutable, with no consistency promise.
#[derive(Debug)]
pub struct Core {
    pub(crate) vertices: Storage<Vertex>,
    pub(crate) edges: PairStorage<Edge>,
    pub(crate) faces: Storage<Face>,
}

impl Core {
    /// The association of vertex keys to vertex records.
    pub closed spec fn vm(self) -> Map<VertexKey, Vertex> {
        Map::new(
            |k: VertexKey| self.vertices.map().contains_key(k.0),
            |k: VertexKey| self.vertices.map()[k.0],
        )
    }

    /// The association of arc keys to arc records.
    pub closed spec fn em(self) -> Map<EdgeKey, Edge> {
        self.edges.map()
    }

    /// The association of face keys to face records.
    pub closed spec fn fm(self) -> Map<FaceKey, Face> {
        Map::new(
            |k: FaceKey| self.faces.map().contains_key(k.0),
            |k: FaceKey| self.faces.map()[k.0],
        )
    }

    /// The number of live vertices.
    pub closed spec fn vertex_len(self) -> nat {
        self.vertices.len()
    }

    /// The number of live arcs.
    pub closed spec fn edge_len(self) -> nat {
        self.edges.len()
    }

    /// The number of live faces.
    pub closed spec fn face_len(self) -> nat {
        self.faces.len()
    }

    /// The vertex key the next insertion will be issued.
    pub closed spec fn vertex_next(self) -> u64 {
        self.vertices.next_key()
    }

    /// The face key the next insertion will be issued.
    pub closed spec fn face_next(self) -> u64 {
        self.faces.next_key()
    }

    /// The storages' own representation invariants.
    pub closed spec fn inv(self) -> bool {
        &&& self.vertices.inv()
        &&& self.edges.inv()
        &&& self.faces.inv()
    }

    /// Every live vertex key was issued below `vertex_next`.
    pub proof fn lemma_vertex_keys_issued(self)
        ensures
            forall|v: VertexKey| self.vm().contains_key(v) ==> v.0 < self.vertex_next(),
    {
        self.vertices.lemma_keys_issued();
    }

    /// An empty aggregate.
    pub fn new() -> (r: Core)
        ensures
            r.inv(),
            r.vm() == Map::<VertexKey, Vertex>::empty(),
            r.em() == Map::<EdgeKey, Edge>::empty(),
            r.fm() == Map::<FaceKey, Face>::empty(),
            r.vertex_len() == 0,
            r.edge_len() == 0,
            r.face_len() == 0,
            r.vertex_next() == 0,
            r.face_next() == 0,
    {
        let r = Core { vertices: Storage::new(), edges: PairStorage::new(), faces: Storage::new() };
        proof {
            assert(r.vm() =~= Map::<VertexKey, Vertex>::empty());
            assert(r.fm() =~= Map::<FaceKey, Face>::empty());
        }
        r
    }

    /// The record of one vertex, if the key resolves.
    pub fn vertex_get(&self, k: VertexKey) -> (r: Option<Vertex>)
        ensures
            r == if self.vm().contains_key(k) {
                Some(self.vm()[k])
            } else {
                None::<Vertex>
            },
    {
        self.vertices.get(k.0)
    }

    /// The record of one arc, if the key resolves.
    pub fn edge_get(&self, k: EdgeKey) -> (r: Option<Edge>)
        requires
            self.inv(),
        ensures
            r == if self.em().contains_key(k) {
                Some(self.em()[k])
            } else {
                None::<Edge>
            },
    {
        self.edges.get(k)
    }

    /// The record of one face, if the key resolves.
    pub fn face_get(&self, k: FaceKey) -> (r: Option<Face>)
        ensures
            r == if self.fm().contains_key(k) {
                Some(self.fm()[k])
            } else {
                None::<Face>
            },
    {
        self.faces.get(k.0)
    }

    /// The conditions the record of arc `k` must satisfy: endpoints and all
    /// referenced keys resolve, the stored destination matches the key, the
    /// opposite pointer pairs exactly when the reverse arc is live, the
    /// next/previous pointers chain coherently, and the source vertex leads
    /// outward through some arc.
    pub open spec fn edge_ok(self, k: EdgeKey) -> bool {
        let e = self.em()[k];
        &&& self.vm().contains_key(k.source)
        &&& self.vm().contains_key(k.destination)
        &&& k.source != k.destination
        &&& e.vertex == k.destination
        &&& e.opposite == (if self.em().contains_key(k.spec_reversed()) {
            Some(k.spec_reversed())
        } else {
            None::<EdgeKey>
        })
        &&& match e.next {
            Some(j) => self.em().contains_key(j) && self.em()[j].previous == Some(k)
                && j.source == k.destination,
            None => true,
        }
        &&& match e.previous {
            Some(p) => self.em().contains_key(p) && self.em()[p].next == Some(k),
            None => true,
        }
        &&& match e.face {
            Some(f) => self.fm().contains_key(f),
            None => true,
        }
        &&& self.vm()[k.source].edge is Some
    }

    /// The leading-arc condition of vertex `v`: if a leading arc is stored,
    /// it resolves and departs from `v`.
    pub open spec fn vertex_ok(self, v: VertexKey) -> bool {
        match self.vm()[v].edge {
            Some(k) => self.em().contains_key(k) && k.source == v,
            None => true,
        }
    }

    /// One step of the boundary traversal: the `next` pointer of a live arc.
    pub open spec fn next_of(self, k: EdgeKey) -> Option<EdgeKey> {
        if self.em().contains_key(k) {
            self.em()[k].next
        } else {
            None
        }
    }

    /// The arc reached from `k` after `n` steps of `next`, if every step
    /// resolves.
    pub open spec fn walk(self, k: EdgeKey, n: nat) -> Option<EdgeKey>
        decreases n,
    {
        if n == 0 {
            Some(k)
        } else {
            match self.walk(k, (n - 1) as nat) {
                Some(j) => self.next_of(j),
                None => None,
            }
        }
    }

    /// Step `i` of the walk from `start` lands on a live arc that carries
    /// face `f`.
    pub open spec fn step_ok(self, f: FaceKey, start: EdgeKey, i: nat) -> bool {
        let c = self.walk(start, i);
        &&& c is Some
        &&& self.em().contains_key(c->Some_0)
        &&& self.em()[c->Some_0].face == Some(f)
    }

    /// The boundary of face `f` starting at `start` closes after exactly `n`
    /// steps: the walk first returns to `start` at step `n`, `n` is a legal
    /// arity, and every visited arc carries `f`.
    pub open spec fn face_cycle(self, f: FaceKey, start: EdgeKey, n: nat) -> bool {
        &&& 3 <= n <= self.edge_len()
        &&& self.walk(start, n) == Some(start)
        &&& forall|i: nat| 0 < i < n ==> self.walk(start, i) != Some(start)
        &&& forall|i: nat| i < n ==> self.step_ok(f, start, i)
    }

    /// The boundary condition of face `f`: its stored arc starts a closed
    /// cycle.
    pub open spec fn face_ok(self, f: FaceKey) -> bool {
        exists|n: nat| self.face_cycle(f, self.fm()[f].edge, n)
    }

    /// Full consistency: every record of every kind satisfies its
    /// conditions.
    pub open spec fn consistent(self) -> bool {
        &&& forall|v: VertexKey| #[trigger] self.vm().contains_key(v) ==> self.vertex_ok(v)
        &&& forall|k: EdgeKey| #[trigger] self.em().contains_key(k) ==> self.edge_ok(k)
        &&& forall|f: FaceKey| #[trigger] self.fm().contains_key(f) ==> self.face_ok(f)
    }

    /// A walk that has failed stays failed as it lengthens.
    pub proof fn lemma_walk_none(self, k: EdgeKey, m: nat, n: nat)
        requires
            self.walk(k, m) is None,
            m <= n,
        ensures
            self.walk(k, n) is None,
        decreases n,
    {
        if n > m {
            self.lemma_walk_none(k, m, (n - 1) as nat);
        }
    }
}

} // verus!

use vstd::prelude::*;

verus! {

impl Core {
    /// Checks the leading-arc condition of every live vertex.
    #[verifier::loop_isolation(false)]
    fn check_vertices(&self) -> (r: bool)
        requires
            self.inv(),
        ensures
            r == forall|v: VertexKey| #[trigger] self.vm().contains_key(v) ==> self.vertex_ok(v),
    {
        let vks = self.vertices.keys();
        let mut i: usize = 0;
        while i < vks.len()
            invariant
                i <= vks@.len(),
                forall|j: int| 0 <= j < i ==> self.vertex_ok(VertexKey(vks@[j])),
            decreases vks@.len() - i,
        {
            let v = VertexKey(vks[i]);
            let rec = match self.vertices.get(vks[i]) {
                Some(rec) => rec,
                None => {
                    proof {
                        assert(vks@.contains(vks@[i as int]));
                        assert(false);
                    }
                    return false;
                },
            };
            let ok = match rec.edge {
                Some(k) => self.edges.contains(k) && k.source == v,
                None => true,
            };
            if !ok {
                proof {
                    assert(vks@.contains(vks@[i as int]));
                    assert(self.vm().contains_key(v) && !self.vertex_ok(v));
                }
                return false;
            }
            i = i + 1;
        }
        proof {
            assert forall|v: VertexKey| #[trigger] self.vm().contains_key(v) implies
                self.vertex_ok(v) by {
                assert(vks@.contains(v.0));
                let j = choose|j: int| 0 <= j < vks@.len() && vks@[j] == v.0;
                assert(self.vertex_ok(VertexKey(vks@[j])));
            }
        }
        true
    }

    /// Checks the record conditions of every live arc.
    #[verifier::loop_isolation(false)]
    fn check_edges(&self) -> (r: bool)
        requires
            self.inv(),
        ensures
            r == forall|k: EdgeKey| #[trigger] self.em().contains_key(k) ==> self.edge_ok(k),
    {
        let eks = self.edges.keys();
        let mut i: usize = 0;
        while i < eks.len()
            invariant
                i <= eks@.len(),
                forall|j: int| 0 <= j < i ==> self.edge_ok(eks@[j]),
            decreases eks@.len() - i,
        {
            let k = eks[i];
            let e = match self.edges.get(k) {
                Some(e) => e,
                None => {
                    proof {
                        assert(eks@.contains(eks@[i as int]));
                        assert(false);
                    }
                    return false;
                },
            };
            let rev = k.reversed();
            let has_rev = self.edges.contains(rev);
            let ok = self.vertices.contains(k.source.0) && self.vertices.contains(k.destination.0)
                && k.source.0 != k.destination.0 && e.vertex == k.destination && (match e.opposite {
                Some(o) => has_rev && o == rev,
                None => !has_rev,
            }) && (match e.next {
                Some(j) => match self.edges.get(j) {
                    Some(ej) => (match ej.previous {
                        Some(p) => p == k,
                        None => false,
                    }) && j.source == k.destination,
                    None => false,
                },
                None => true,
            }) && (match e.previous {
                Some(p) => match self.edges.get(p) {
                    Some(ep) => match ep.next {
                        Some(x) => x == k,
                        None => false,
                    },
                    None => false,
                },
                None => true,
            }) && (match e.face {
                Some(f) => self.faces.contains(f.0),
                None => true,
            }) && (match self.vertices.get(k.source.0) {
                Some(vr) => vr.edge.is_some(),
                None => false,
            });
            if !ok {
                proof {
                    assert(eks@.contains(eks@[i as int]));
                    assert(self.em().contains_key(k) && !self.edge_ok(k));
                }
                return false;
            }
            proof {
                assert(self.edge_ok(k));
            }
            i = i + 1;
        }
        proof {
            assert forall|k: EdgeKey| #[trigger] self.em().contains_key(k) implies self.edge_ok(
                k,
            ) by {
                assert(eks@.contains(k));
                let j = choose|j: int| 0 <= j < eks@.len() && eks@[j] == k;
                assert(self.edge_ok(eks@[j]));
            }
        }
        true
    }

    /// Follows `next` from `start`, reporting whether it first returns to
    /// `start` after at least three and at most `edge_len` steps, with every
    /// visited arc carrying face `f`.
    #[verifier::loop_isolation(false)]
    fn check_cycle(&self, f: FaceKey, start: EdgeKey) -> (r: bool)
        requires
            self.inv(),
        ensures
            r == exists|n: nat| self.face_cycle(f, start, n),
    {
        let cap = self.edges.count();
        let e0 = match self.edges.get(start) {
            Some(e) => e,
            None => {
                proof {
                    assert forall|n: nat| !self.face_cycle(f, start, n) by {
                        if self.face_cycle(f, start, n) {
                            assert(self.step_ok(f, start, 0));
                        }
                    }
                }
                return false;
            },
        };
        let matches0 = match e0.face {
            Some(g) => g.0 == f.0,
            None => false,
        };
        if !matches0 {
            proof {
                assert forall|n: nat| !self.face_cycle(f, start, n) by {
                    if self.face_cycle(f, start, n) {
                        assert(self.step_ok(f, start, 0));
                    }
                }
            }
            return false;
        }
        let mut cur = start;
        let mut i: usize = 0;
        while i < cap
            invariant
                i <= cap,
                self.walk(start, i as nat) == Some(cur),
                self.em().contains_key(cur),
                self.em()[cur].face == Some(f),
                forall|j: nat| 0 < j <= i ==> self.walk(start, j) != Some(start),
                forall|j: nat| j <= i ==> self.step_ok(f, start, j),
            decreases cap - i,
        {
            let e = match self.edges.get(cur) {
                Some(e) => e,
                None => {
                    proof {
                        assert(false);
                    }
                    return false;
                },
            };
            let ghost prev_cur = cur;
            let ghost prev_i = i as nat;
            match e.next {
                None => {
                    proof {
                        assert(self.walk(start, prev_i + 1) is None);
                        assert forall|n: nat| !self.face_cycle(f, start, n) by {
                            if self.face_cycle(f, start, n) {
                                if n <= prev_i {
                                    assert(self.walk(start, n) != Some(start));
                                } else {
                                    self.lemma_walk_none(start, prev_i + 1, n);
                                }
                            }
                        }
                    }
                    return false;
                },
                Some(nk) => {
                    proof {
                        assert(self.walk(start, prev_i + 1) == self.next_of(prev_cur));
                        assert(self.next_of(prev_cur) == Some(nk));
                    }
                    i = i + 1;
                    cur = nk;
                    if cur.source.0 == start.source.0 && cur.destination.0 == start.destination.0 {
                        proof {
                            assert(cur == start);
                        }
                        if i >= 3 {
                            proof {
                                assert(self.face_cycle(f, start, i as nat));
                            }
                            return true;
                        } else {
                            proof {
                                assert forall|n: nat| !self.face_cycle(f, start, n) by {
                                    if self.face_cycle(f, start, n) {
                                        if n <= i {
                                            assert(n < 3);
                                        } else {
                                            assert(self.walk(start, i as nat) == Some(start));
                                            assert(0 < (i as nat) && (i as nat) < n);
                                        }
                                    }
                                }
                            }
                            return false;
                        }
                    }
                    match self.edges.get(cur) {
                        None => {
                            proof {
                                assert(!self.step_ok(f, start, i as nat));
                                assert forall|n: nat| !self.face_cycle(f, start, n) by {
                                    if self.face_cycle(f, start, n) {
                                        if n <= i {
                                            assert(self.walk(start, n) != Some(start));
                                        } else {
                                            assert(self.step_ok(f, start, i as nat));
                                        }
                                    }
                                }
                            }
                            return false;
                        },
                        Some(e2) => {
                            let fok = match e2.face {
                                Some(g) => g.0 == f.0,
                                None => false,
                            };
                            if !fok {
                                proof {
                                    assert(!self.step_ok(f, start, i as nat));
                                    assert forall|n: nat| !self.face_cycle(f, start, n) by {
                                        if self.face_cycle(f, start, n) {
                                            if n <= i {
                                                assert(self.walk(start, n) != Some(start));
                                            } else {
                                                assert(self.step_ok(f, start, i as nat));
                                            }
                                        }
                                    }
                                }
                                return false;
                            }
                        },
                    }
                },
            }
        }
        proof {
            assert forall|n: nat| !self.face_cycle(f, start, n) by {
                if self.face_cycle(f, start, n) {
                    assert(n <= self.edge_len());
                    assert(self.walk(start, n) != Some(start));
                }
            }
        }
        false
    }

    /// Checks the boundary condition of every live face.
    #[verifier::loop_isolation(false)]
    fn check_faces(&self) -> (r: bool)
        requires
            self.inv(),
        ensures
            r == forall|f: FaceKey| #[trigger] self.fm().contains_key(f) ==> self.face_ok(f),
    {
        let fks = self.faces.keys();
        let mut i: usize = 0;
        while i < fks.len()
            invariant
                i <= fks@.len(),
                forall|j: int| 0 <= j < i ==> self.face_ok(FaceKey(fks@[j])),
            decreases fks@.len() - i,
        {
            let f = FaceKey(fks[i]);
            let rec = match self.faces.get(fks[i]) {
                Some(rec) => rec,
                None => {
                    proof {
                        assert(fks@.contains(fks@[i as int]));
                        assert(false);
                    }
                    return false;
                },
            };
            if !self.check_cycle(f, rec.edge) {
                proof {
                    assert(fks@.contains(fks@[i as int]));
                    assert(self.fm().contains_key(f) && !self.face_ok(f));
                }
                return false;
            }
            proof {
                assert(fks@.contains(fks@[i as int]));
                assert(self.fm()[f] == rec);
                assert(self.face_ok(f));
            }
            i = i + 1;
        }
        proof {
            assert forall|f: FaceKey| #[trigger] self.fm().contains_key(f) implies self.face_ok(
                f,
            ) by {
                assert(fks@.contains(f.0));
                let j = choose|j: int| 0 <= j < fks@.len() && fks@[j] == f.0;
                assert(self.face_ok(FaceKey(fks@[j])));
            }
        }
        true
    }

    /// Runs the full consistency validation, exactly the commit condition.
    pub fn validate(&self) -> (r: bool)
        requires
            self.inv(),
        ensures
            r == self.consistent(),
    {
        self.check_vertices() && self.check_edges() && self.check_faces()
    }
}

} // verus!

verus! {

/// A storage aggregate that has passed the full consistency validation.
///
/// Values of this type are only ever produced by [`Mesh::new`] (the empty
/// aggregate), by construction from raw buffers, or by a successful commit
/// of a [`crate::mutation::Mutation`]; each of those establishes `inv`.
#[derive(Debug)]
pub struct Mesh {
    pub(crate) raw: Core,
}

impl Mesh {
    /// The underlying aggregate.
    pub closed spec fn store(self) -> Core {
        self.raw
    }

    /// The association of vertex keys to vertex records.
    pub open spec fn vm(self) -> Map<VertexKey, Vertex> {
        self.store().vm()
    }

    /// The association of arc keys to arc records.
    pub open spec fn em(self) -> Map<EdgeKey, Edge> {
        self.store().em()
    }

    /// The association of face keys to face records.
    pub open spec fn fm(self) -> Map<FaceKey, Face> {
        self.store().fm()
    }

    /// The aggregate is well formed and fully consistent.
    pub open spec fn inv(self) -> bool {
        &&& self.store().inv()
        &&& self.store().consistent()
    }

    /// An empty mesh, trivially consistent.
    pub fn new() -> (r: Mesh)
        ensures
            r.inv(),
            r.vm() == Map::<VertexKey, Vertex>::empty(),
            r.em() == Map::<EdgeKey, Edge>::empty(),
            r.fm() == Map::<FaceKey, Face>::empty(),
            r.store().vertex_len() == 0,
            r.store().edge_len() == 0,
            r.store().face_len() == 0,
            r.store().vertex_next() == 0,
            r.store().face_next() == 0,
    {
        Mesh { raw: Core::new() }
    }

    /// The number of live vertices.
    pub fn vertex_count(&self) -> (r: usize)
        ensures
            r == self.store().vertex_len(),
    {
        self.raw.vertices.count()
    }

    /// The number of live arcs.
    pub fn edge_count(&self) -> (r: usize)
        ensures
            r == self.store().edge_len(),
    {
        self.raw.edges.count()
    }

    /// The number of live faces.
    pub fn face_count(&self) -> (r: usize)
        ensures
            r == self.store().face_len(),
    {
        self.raw.faces.count()
    }

    /// The record of one vertex, if the key resolves.
    pub fn vertex(&self, k: VertexKey) -> (r: Option<Vertex>)
        ensures
            r == if self.vm().contains_key(k) {
                Some(self.vm()[k])
            } else {
                None::<Vertex>
            },
    {
        self.raw.vertex_get(k)
    }

    /// The record of one arc, if the key resolves.
    pub fn edge(&self, k: EdgeKey) -> (r: Option<Edge>)
        requires
            self.inv(),
        ensures
            r == if self.em().contains_key(k) {
                Some(self.em()[k])
            } else {
                None::<Edge>
            },
    {
        self.raw.edge_get(k)
    }

    /// The record of one face, if the key resolves.
    pub fn face(&self, k: FaceKey) -> (r: Option<Face>)
        ensures
            r == if self.fm().contains_key(k) {
                Some(self.fm()[k])
            } else {
                None::<Face>
            },
    {
        self.raw.face_get(k)
    }

    /// The live vertex keys in storage order.
    #[verifier::loop_isolation(false)]
    pub fn vertex_keys(&self) -> (r: Vec<VertexKey>)
        requires
            self.inv(),
        ensures
            r@.len() == self.store().vertex_len(),
            forall|i: int| 0 <= i < r@.len() ==> self.vm().contains_key(r@[i]),
            forall|v: VertexKey| self.vm().contains_key(v) ==> r@.contains(v),
            forall|x: int, y: int| 0 <= x < y < r@.len() ==> r@[x].0 < r@[y].0,
    {
        let raw = self.raw.vertices.keys();
        let mut r: Vec<VertexKey> = Vec::new();
        let mut i: usize = 0;
        while i < raw.len()
            invariant
                i <= raw@.len(),
                r@.len() == i,
                forall|j: int| 0 <= j < i ==> r@[j] == VertexKey(raw@[j]),
                forall|j: int| 0 <= j < i ==> self.vm().contains_key(r@[j]),
                forall|k: u64| raw@.contains(k) <==> self.store().vertices.map().contains_key(k),
            decreases raw@.len() - i,
        {
            proof {
                assert(raw@.contains(raw@[i as int]));
            }
            r.push(VertexKey(raw[i]));
            i = i + 1;
        }
        proof {
            assert(r@.len() == raw@.len());
            assert(raw@.len() == self.raw.vertices.len());
            assert forall|v: VertexKey| self.vm().contains_key(v) implies r@.contains(v) by {
                assert(raw@.contains(v.0));
                let j = choose|j: int| 0 <= j < raw@.len() && raw@[j] == v.0;
                assert(r@[j] == VertexKey(v.0));
            }
        }
        r
    }

    /// The live arc keys in storage order.
    pub fn edge_keys(&self) -> (r: Vec<EdgeKey>)
        requires
            self.inv(),
        ensures
            forall|i: int| 0 <= i < r@.len() ==> self.em().contains_key(r@[i]),
            forall|k: EdgeKey| self.em().contains_key(k) ==> r@.contains(k),
    {
        let r = self.raw.edges.keys();
        proof {
            assert forall|i: int| 0 <= i < r@.len() implies self.em().contains_key(r@[i]) by {
                assert(r@.contains(r@[i]));
            }
        }
        r
    }

    /// The live face keys in storage order.
    #[verifier::loop_isolation(false)]
    pub fn face_keys(&self) -> (r: Vec<FaceKey>)
        requires
            self.inv(),
        ensures
            r@.len() == self.store().face_len(),
            forall|i: int| 0 <= i < r@.len() ==> self.fm().contains_key(r@[i]),
            forall|f: FaceKey| self.fm().contains_key(f) ==> r@.contains(f),
            forall|x: int, y: int| 0 <= x < y < r@.len() ==> r@[x].0 < r@[y].0,
    {
        let raw = self.raw.faces.keys();
        let mut r: Vec<FaceKey> = Vec::new();
        let mut i: usize = 0;
        while i < raw.len()
            invariant
                i <= raw@.len(),
                r@.len() == i,
                forall|j: int| 0 <= j < i ==> r@[j] == FaceKey(raw@[j]),
                forall|j: int| 0 <= j < i ==> self.fm().contains_key(r@[j]),
                forall|k: u64| raw@.contains(k) <==> self.store().faces.map().contains_key(k),
            decreases raw@.len() - i,
        {
            proof {
                assert(raw@.contains(raw@[i as int]));
            }
            r.push(FaceKey(raw[i]));
            i = i + 1;
        }
        proof {
            assert(r@.len() == raw@.len());
            assert(raw@.len() == self.raw.faces.len());
            assert forall|f: FaceKey| self.fm().contains_key(f) implies r@.contains(f) by {
                assert(raw@.contains(f.0));
                let j = choose|j: int| 0 <= j < raw@.len() && raw@[j] == f.0;
                assert(r@[j] == FaceKey(f.0));
            }
        }
        r
    }

    /// Closure: in a consistent aggregate, following `next` from the stored
    /// boundary arc of any face first returns to that arc after exactly the
    /// face's arity (at least three) steps, and every arc visited on the way
    /// carries that face.
    pub proof fn lemma_face_closure(self, f: FaceKey)
        requires
            self.inv(),
            self.fm().contains_key(f),
        ensures
            exists|n: nat| self.store().face_cycle(f, self.fm()[f].edge, n),
    {
    }

    /// Opposite symmetry: whenever arc `a` stores `b` as its opposite, `b`
    /// is live, stores `a` as its own opposite, and spans the same vertex
    /// pair reversed.
    pub proof fn lemma_opposite_symmetry(self, a: EdgeKey, b: EdgeKey)
        requires
            self.inv(),
            self.em().contains_key(a),
            self.em()[a].opposite == Some(b),
        ensures
            self.em().contains_key(b),
            self.em()[b].opposite == Some(a),
            b.source == a.destination,
            b.destination == a.source,
    {
        assert(self.store().edge_ok(a));
        assert(self.store().edge_ok(b));
        assert(b.spec_reversed() == a);
    }

    /// Leading-arc validity: every vertex with an incident outgoing arc
    /// stores a leading arc, and that arc resolves and departs from the
    /// vertex.
    pub proof fn lemma_leading_arc(self, k: EdgeKey)
        requires
            self.inv(),
            self.em().contains_key(k),
        ensures
            self.vm().contains_key(k.source),
            self.vm()[k.source].edge is Some,
            self.em().contains_key(self.vm()[k.source].edge->Some_0),
            self.vm()[k.source].edge->Some_0.source == k.source,
    {
        assert(self.store().edge_ok(k));
        assert(self.store().vertex_ok(k.source));
    }
}

} // verus!

verus! {

/// The record of a fresh, unlinked arc.
pub open spec fn fresh_edge(
    geometry: Vector3,
    destination: VertexKey,
    opposite: Option<EdgeKey>,
) -> Edge {
    Edge { geometry, vertex: destination, opposite, next: None, previous: None, face: None }
}

/// An arc record rewired into a face boundary.
pub open spec fn wired_edge(e: Edge, nx: EdgeKey, pv: EdgeKey, f: FaceKey) -> Edge {
    Edge { next: Some(nx), previous: Some(pv), face: Some(f), ..e }
}

/// The index after `i` in a cycle of length `n`.
pub open spec fn cyc_next(n: int, i: int) -> int {
    if i + 1 == n {
        0
    } else {
        i + 1
    }
}

/// The index before `i` in a cycle of length `n`.
pub open spec fn cyc_prev(n: int, i: int) -> int {
    if i == 0 {
        n - 1
    } else {
        i - 1
    }
}

impl Mesh {
    /// The consistent aggregate is exactly the raw field.
    pub(crate) proof fn lemma_raw_is_store(self)
        ensures
            self.store() == self.raw,
    {
    }
}

impl Core {
    /// The number of live vertices.
    pub fn vertex_count(&self) -> (r: usize)
        ensures
            r == self.vertex_len(),
    {
        self.vertices.count()
    }

    /// The number of live arcs.
    pub fn edge_count(&self) -> (r: usize)
        ensures
            r == self.edge_len(),
    {
        self.edges.count()
    }

    /// The number of live faces.
    pub fn face_count(&self) -> (r: usize)
        ensures
            r == self.face_len(),
    {
        self.faces.count()
    }

    /// Inserts an isolated vertex under a fresh key.
    pub(crate) fn insert_vertex_rec(&mut self, geometry: Vector3) -> (k: VertexKey)
        requires
            old(self).inv(),
            old(self).vertex_next() < u64::MAX,
        ensures
            final(self).inv(),
            k == VertexKey(old(self).vertex_next()),
            !old(self).vm().contains_key(k),
            final(self).vm() == old(self).vm().insert(k, Vertex { geometry, edge: None }),
            final(self).em() == old(self).em(),
            final(self).fm() == old(self).fm(),
            final(self).vertex_len() == old(self).vertex_len() + 1,
            final(self).edge_len() == old(self).edge_len(),
            final(self).face_len() == old(self).face_len(),
            final(self).vertex_next() == old(self).vertex_next() + 1,
            final(self).face_next() == old(self).face_next(),
    {
        let k = self.vertices.insert(Vertex { geometry, edge: None });
        proof {
            assert(self.vm() =~= old(self).vm().insert(
                VertexKey(k),
                Vertex { geometry, edge: None },
            ));
            assert(self.fm() =~= old(self).fm());
        }
        VertexKey(k)
    }

    /// Overwrites the record of a live vertex.
    pub(crate) fn update_vertex_rec(&mut self, k: VertexKey, v: Vertex) -> (r: bool)
        requires
            old(self).inv(),
        ensures
            final(self).inv(),
            r == old(self).vm().contains_key(k),
            r ==> final(self).vm() == old(self).vm().insert(k, v),
            !r ==> final(self).vm() == old(self).vm(),
            final(self).em() == old(self).em(),
            final(self).fm() == old(self).fm(),
            final(self).vertex_len() == old(self).vertex_len(),
            final(self).edge_len() == old(self).edge_len(),
            final(self).face_len() == old(self).face_len(),
            final(self).vertex_next() == old(self).vertex_next(),
            final(self).face_next() == old(self).face_next(),
    {
        let r = self.vertices.update(k.0, v);
        proof {
            if r {
                assert(self.vm() =~= old(self).vm().insert(k, v));
            } else {
                assert(self.vm() =~= old(self).vm());
            }
            assert(self.fm() =~= old(self).fm());
        }
        r
    }

    /// Overwrites the record of a live arc.
    pub(crate) fn update_edge_rec(&mut self, k: EdgeKey, e: Edge) -> (r: bool)
        requires
            old(self).inv(),
        ensures
            final(self).inv(),
            r == old(self).em().contains_key(k),
            r ==> final(self).em() == old(self).em().insert(k, e),
            !r ==> final(self).em() == old(self).em(),
            final(self).vm() == old(self).vm(),
            final(self).fm() == old(self).fm(),
            final(self).vertex_len() == old(self).vertex_len(),
            final(self).edge_len() == old(self).edge_len(),
            final(self).face_len() == old(self).face_len(),
            final(self).vertex_next() == old(self).vertex_next(),
            final(self).face_next() == old(self).face_next(),
    {
        let r = self.edges.update(k, e);
        proof {
            assert(self.vm() =~= old(self).vm());
            assert(self.fm() =~= old(self).fm());
        }
        r
    }

    /// Overwrites the record of a live face.
    pub(crate) fn update_face_rec(&mut self, k: FaceKey, f: Face) -> (r: bool)
        requires
            old(self).inv(),
        ensures
            final(self).inv(),
            r == old(self).fm().contains_key(k),
            r ==> final(self).fm() == old(self).fm().insert(k, f),
            !r ==> final(self).fm() == old(self).fm(),
            final(self).vm() == old(self).vm(),
            final(self).em() == old(self).em(),
            final(self).vertex_len() == old(self).vertex_len(),
            final(self).edge_len() == old(self).edge_len(),
            final(self).face_len() == old(self).face_len(),
            final(self).vertex_next() == old(self).vertex_next(),
            final(self).face_next() == old(self).face_next(),
    {
        let r = self.faces.update(k.0, f);
        proof {
            if r {
                assert(self.fm() =~= old(self).fm().insert(k, f));
            } else {
                assert(self.fm() =~= old(self).fm());
            }
            assert(self.vm() =~= old(self).vm());
        }
        r
    }

    /// Removes one vertex record.
    pub(crate) fn remove_vertex_rec(&mut self, k: VertexKey) -> (r: Result<Vertex, GraphError>)
        requires
            old(self).inv(),
        ensures
            final(self).inv(),
            ({
                let o = *old(self);
                let n = *final(self);
                if o.vm().contains_key(k) {
                    &&& r == Ok::<Vertex, GraphError>(o.vm()[k])
                    &&& n.vm() == o.vm().remove(k)
                    &&& n.em() == o.em()
                    &&& n.fm() == o.fm()
                    &&& n.vertex_len() + 1 == o.vertex_len()
                    &&& n.edge_len() == o.edge_len()
                    &&& n.face_len() == o.face_len()
                    &&& n.vertex_next() == o.vertex_next()
                    &&& n.face_next() == o.face_next()
                } else {
                    r == Err::<Vertex, GraphError>(GraphError::TopologyNotFound) && n == o
                }
            }),
    {
        if !self.vertices.contains(k.0) {
            return Err(GraphError::TopologyNotFound);
        }
        match self.vertices.remove(k.0) {
            Some(v) => {
                proof {
                    assert(self.vm() =~= old(self).vm().remove(k));
                    assert(self.fm() =~= old(self).fm());
                }
                Ok(v)
            },
            None => {
                proof {
                    assert(false);
                }
                Err(GraphError::TopologyNotFound)
            },
        }
    }

    /// Removes one arc record.
    pub(crate) fn remove_edge_rec(&mut self, k: EdgeKey) -> (r: Result<Edge, GraphError>)
        requires
            old(self).inv(),
        ensures
            final(self).inv(),
            ({
                let o = *old(self);
                let n = *final(self);
                if o.em().contains_key(k) {
                    &&& r == Ok::<Edge, GraphError>(o.em()[k])
                    &&& n.em() == o.em().remove(k)
                    &&& n.vm() == o.vm()
                    &&& n.fm() == o.fm()
                    &&& n.edge_len() + 1 == o.edge_len()
                    &&& n.vertex_len() == o.vertex_len()
                    &&& n.face_len() == o.face_len()
                    &&& n.vertex_next() == o.vertex_next()
                    &&& n.face_next() == o.face_next()
                } else {
                    r == Err::<Edge, GraphError>(GraphError::TopologyNotFound) && n == o
                }
            }),
    {
        if !self.edges.contains(k) {
            return Err(GraphError::TopologyNotFound);
        }
        match self.edges.remove(k) {
            Some(e) => {
                proof {
                    assert(self.vm() =~= old(self).vm());
                    assert(self.fm() =~= old(self).fm());
                }
                Ok(e)
            },
            None => {
                proof {
                    assert(false);
                }
                Err(GraphError::TopologyNotFound)
            },
        }
    }

    /// Removes one face record.
    pub(crate) fn remove_face_rec(&mut self, k: FaceKey) -> (r: Result<Face, GraphError>)
        requires
            old(self).inv(),
        ensures
            final(self).inv(),
            ({
                let o = *old(self);
                let n = *final(self);
                if o.fm().contains_key(k) {
                    &&& r == Ok::<Face, GraphError>(o.fm()[k])
                    &&& n.fm() == o.fm().remove(k)
                    &&& n.vm() == o.vm()
                    &&& n.em() == o.em()
                    &&& n.face_len() + 1 == o.face_len()
                    &&& n.vertex_len() == o.vertex_len()
                    &&& n.edge_len() == o.edge_len()
                    &&& n.vertex_next() == o.vertex_next()
                    &&& n.face_next() == o.face_next()
                } else {
                    r == Err::<Face, GraphError>(GraphError::TopologyNotFound) && n == o
                }
            }),
    {
        if !self.faces.contains(k.0) {
            return Err(GraphError::TopologyNotFound);
        }
        match self.faces.remove(k.0) {
            Some(f) => {
                proof {
                    assert(self.fm() =~= old(self).fm().remove(k));
                    assert(self.vm() =~= old(self).vm());
                }
                Ok(f)
            },
            None => {
                proof {
                    assert(false);
                }
                Err(GraphError::TopologyNotFound)
            },
        }
    }

    /// The vertex key the next insertion will be issued.
    pub fn vertex_next_key(&self) -> (r: u64)
        ensures
            r == self.vertex_next(),
    {
        self.vertices.peek_next_key()
    }

    /// Inserts an arc record verbatim under a key known to be fresh.
    pub(crate) fn insert_edge_raw(&mut self, k: EdgeKey, e: Edge)
        requires
            old(self).inv(),
            !old(self).em().contains_key(k),
        ensures
            final(self).inv(),
            final(self).em() == old(self).em().insert(k, e),
            final(self).vm() == old(self).vm(),
            final(self).fm() == old(self).fm(),
            final(self).edge_len() == old(self).edge_len() + 1,
            final(self).vertex_len() == old(self).vertex_len(),
            final(self).face_len() == old(self).face_len(),
            final(self).vertex_next() == old(self).vertex_next(),
            final(self).face_next() == old(self).face_next(),
    {
        let fresh = self.edges.insert(k, e);
        proof {
            assert(fresh);
            assert(self.vm() =~= old(self).vm());
            assert(self.fm() =~= old(self).fm());
        }
    }

    /// Inserts the directed arc from `span.0` toward `span.1`, pairing
    /// opposites when the reverse arc is live and re-leading the source
    /// vertex.
    pub(crate) fn insert_edge_rec(&mut self, span: (VertexKey, VertexKey), geometry: Vector3) -> (r:
        Result<EdgeKey, GraphError>)
        requires
            old(self).inv(),
        ensures
            final(self).inv(),
            ({
                let a = span.0;
                let b = span.1;
                let k = EdgeKey { source: a, destination: b };
                let rev = k.spec_reversed();
                let o = *old(self);
                let n = *final(self);
                if a == b {
                    r == Err::<EdgeKey, GraphError>(GraphError::TopologyMalformed) && n == o
                } else if !o.vm().contains_key(a) || !o.vm().contains_key(b) {
                    r == Err::<EdgeKey, GraphError>(GraphError::TopologyNotFound) && n == o
                } else if o.em().contains_key(k) {
                    r == Err::<EdgeKey, GraphError>(GraphError::TopologyConflict) && n == o
                } else {
                    &&& r == Ok::<EdgeKey, GraphError>(k)
                    &&& n.em() == if o.em().contains_key(rev) {
                        o.em().insert(k, fresh_edge(geometry, b, Some(rev))).insert(
                            rev,
                            Edge { opposite: Some(k), ..o.em()[rev] },
                        )
                    } else {
                        o.em().insert(k, fresh_edge(geometry, b, None))
                    }
                    &&& n.vm() == o.vm().insert(a, Vertex { edge: Some(k), ..o.vm()[a] })
                    &&& n.fm() == o.fm()
                    &&& n.edge_len() == o.edge_len() + 1
                    &&& n.vertex_len() == o.vertex_len()
                    &&& n.face_len() == o.face_len()
                    &&& n.vertex_next() == o.vertex_next()
                    &&& n.face_next() == o.face_next()
                }
            }),
    {
        let (a, b) = span;
        let k = EdgeKey::new(a, b);
        if a.0 == b.0 {
            return Err(GraphError::TopologyMalformed);
        }
        if !self.vertices.contains(a.0) || !self.vertices.contains(b.0) {
            return Err(GraphError::TopologyNotFound);
        }
        if self.edges.contains(k) {
            return Err(GraphError::TopologyConflict);
        }
        let rev = k.reversed();
        let has_rev = self.edges.contains(rev);
        let opp = if has_rev {
            Some(rev)
        } else {
            None
        };
        self.edges.insert(
            k,
            Edge { geometry, vertex: b, opposite: opp, next: None, previous: None, face: None },
        );
        if has_rev {
            match self.edges.get(rev) {
                Some(e) => {
                    self.edges.update(rev, Edge { opposite: Some(k), ..e });
                },
                None => {
                    proof {
                        assert(false);
                    }
                },
            }
        }
        match self.vertices.get(a.0) {
            Some(v) => {
                self.vertices.update(a.0, Vertex { edge: Some(k), ..v });
            },
            None => {
                proof {
                    assert(false);
                }
            },
        }
        proof {
            assert(self.vm() =~= old(self).vm().insert(
                a,
                Vertex { edge: Some(k), ..old(self).vm()[a] },
            ));
            assert(self.fm() =~= old(self).fm());
        }
        Ok(k)
    }

    /// Inserts a face over an ordered arc sequence, wiring each arc's
    /// `next`, `previous` and `face` pointers around the cycle.
    #[verifier::loop_isolation(false)]
    pub(crate) fn insert_face_rec(&mut self, boundary: &Vec<EdgeKey>, geometry: Vector3) -> (r:
        Result<FaceKey, GraphError>)
        requires
            old(self).inv(),
            old(self).face_next() < u64::MAX,
        ensures
            final(self).inv(),
            ({
                let o = *old(self);
                let n = *final(self);
                let bs = boundary@;
                if bs.len() < 3 {
                    r == Err::<FaceKey, GraphError>(
                        GraphError::ArityConflict { expected: 3, actual: bs.len() as usize },
                    ) && n == o
                } else if exists|i: int| 0 <= i < bs.len() && !o.em().contains_key(bs[i]) {
                    r == Err::<FaceKey, GraphError>(GraphError::TopologyNotFound) && n == o
                } else if exists|i: int, j: int| 0 <= i < j < bs.len() && bs[i] == bs[j] {
                    r == Err::<FaceKey, GraphError>(GraphError::TopologyMalformed) && n == o
                } else if exists|i: int| 0 <= i < bs.len() && o.em()[bs[i]].face is Some {
                    r == Err::<FaceKey, GraphError>(GraphError::TopologyMalformed) && n == o
                } else {
                    let f = FaceKey(o.face_next());
                    &&& r == Ok::<FaceKey, GraphError>(f)
                    &&& n.fm() == o.fm().insert(f, Face { geometry, edge: bs[0] })
                    &&& n.vm() == o.vm()
                    &&& forall|k: EdgeKey| #[trigger]
                        n.em().contains_key(k) <==> o.em().contains_key(k)
                    &&& forall|k: EdgeKey|
                        o.em().contains_key(k) && !bs.contains(k) ==> n.em()[k] == o.em()[k]
                    &&& forall|i: int|
                        0 <= i < bs.len() ==> n.em()[bs[i]] == wired_edge(
                            o.em()[bs[i]],
                            bs[cyc_next(bs.len() as int, i)],
                            bs[cyc_prev(bs.len() as int, i)],
                            f,
                        )
                    &&& n.edge_len() == o.edge_len()
                    &&& n.face_len() == o.face_len() + 1
                    &&& n.vertex_len() == o.vertex_len()
                    &&& n.vertex_next() == o.vertex_next()
                    &&& n.face_next() == o.face_next() + 1
                }
            }),
    {
        let count = boundary.len();
        if count < 3 {
            return Err(GraphError::ArityConflict { expected: 3, actual: count });
        }
        let mut i: usize = 0;
        while i < count
            invariant
                i <= count,
                forall|j: int| 0 <= j < i ==> self.em().contains_key(boundary@[j]),
            decreases count - i,
        {
            if !self.edges.contains(boundary[i]) {
                return Err(GraphError::TopologyNotFound);
            }
            i = i + 1;
        }
        let mut i: usize = 0;
        while i < count
            invariant
                i <= count,
                forall|x: int, y: int| 0 <= x < y < count && x < i ==> boundary@[x] != boundary@[y],
            decreases count - i,
        {
            let mut j: usize = i + 1;
            while j < count
                invariant
                    i < j <= count,
                    forall|y: int| i < y < j ==> boundary@[i as int] != boundary@[y],
                decreases count - j,
            {
                if boundary[i] == boundary[j] {
                    return Err(GraphError::TopologyMalformed);
                }
                j = j + 1;
            }
            i = i + 1;
        }
        let mut i: usize = 0;
        while i < count
            invariant
                i <= count,
                forall|j: int| 0 <= j < i ==> self.em()[boundary@[j]].face is None,
            decreases count - i,
        {
            proof {
                assert(self.em().contains_key(boundary@[i as int]));
            }
            match self.edges.get(boundary[i]) {
                Some(e) => {
                    if e.face.is_some() {
                        return Err(GraphError::TopologyMalformed);
                    }
                },
                None => {
                    proof {
                        assert(false);
                    }
                    return Err(GraphError::TopologyNotFound);
                },
            }
            i = i + 1;
        }
        let f = FaceKey(self.faces.insert(Face { geometry, edge: boundary[0] }));
        proof {
            assert(self.fm() =~= old(self).fm().insert(
                f,
                Face { geometry, edge: boundary@[0] },
            ));
            assert(self.vm() =~= old(self).vm());
        }
        let ghost mid = *self;
        let mut i: usize = 0;
        while i < count
            invariant
                i <= count,
                self.inv(),
                self.vm() == mid.vm(),
                self.fm() == mid.fm(),
                self.edge_len() == mid.edge_len(),
                self.face_len() == mid.face_len(),
                self.vertex_len() == mid.vertex_len(),
                self.vertex_next() == mid.vertex_next(),
                self.face_next() == mid.face_next(),
                forall|k: EdgeKey| #[trigger]
                    self.em().contains_key(k) <==> old(self).em().contains_key(k),
                forall|k: EdgeKey|
                    old(self).em().contains_key(k) && !boundary@.contains(k) ==> self.em()[k]
                        == old(self).em()[k],
                forall|j: int|
                    0 <= j < i ==> self.em()[boundary@[j]] == wired_edge(
                        old(self).em()[boundary@[j]],
                        boundary@[cyc_next(count as int, j)],
                        boundary@[cyc_prev(count as int, j)],
                        f,
                    ),
                forall|j: int|
                    i <= j < count ==> self.em()[boundary@[j]] == old(self).em()[boundary@[j]],
            decreases count - i,
        {
            let k = boundary[i];
            let nx = boundary[if i + 1 == count {
                0
            } else {
                i + 1
            }];
            let pv = boundary[if i == 0 {
                count - 1
            } else {
                i - 1
            }];
            proof {
                assert(self.em().contains_key(boundary@[i as int]));
            }
            match self.edges.get(k) {
                Some(e) => {
                    self.edges.update(
                        k,
                        Edge { next: Some(nx), previous: Some(pv), face: Some(f), ..e },
                    );
                    proof {
                        assert(self.vm() =~= mid.vm());
                        assert(self.fm() =~= mid.fm());
                        assert forall|j: int| 0 <= j < count && j != i implies boundary@[j]
                            != boundary@[i as int] by {}
                    }
                },
                None => {
                    proof {
                        assert(false);
                    }
                    return Err(GraphError::TopologyNotFound);
                },
            }
            i = i + 1;
        }
        Ok(f)
    }
}

} // verus!

verus! {

/// The vertex index of face group `gi` at position `j` within the group.
pub open spec fn group_index(indices: Seq<u64>, arity: int, gi: int, j: int) -> u64 {
    indices[gi * arity + j]
}

/// The arc of face group `gi` at position `j` within the group: from the
/// group's `j`-th index toward its cyclic successor.
pub open spec fn group_arc(indices: Seq<u64>, arity: int, gi: int, j: int) -> EdgeKey {
    EdgeKey {
        source: VertexKey(group_index(indices, arity, gi, j)),
        destination: VertexKey(group_index(indices, arity, gi, cyc_next(arity, j))),
    }
}

/// The buffers describe a well-formed uniform-arity face list: a legal
/// arity that divides the index count, every index in range, no index
/// repeated within a group, and no directed arc repeated anywhere.
pub open spec fn buffers_wf(indices: Seq<u64>, n_vertices: int, arity: int) -> bool {
    &&& 3 <= arity
    &&& indices.len() as int % arity == 0
    &&& forall|i: int| 0 <= i < indices.len() ==> indices[i] < n_vertices
    &&& forall|gi: int, x: int, y: int|
        #![trigger group_index(indices, arity, gi, x), group_index(indices, arity, gi, y)]
        0 <= gi && (gi + 1) * arity <= indices.len() && 0 <= x < y < arity ==> group_index(
            indices,
            arity,
            gi,
            x,
        ) != group_index(indices, arity, gi, y)
    &&& forall|g1: int, j1: int, g2: int, j2: int|
        0 <= g1 && (g1 + 1) * arity <= indices.len() && 0 <= j1 < arity && 0 <= g2 && (g2 + 1)
            * arity <= indices.len() && 0 <= j2 < arity && (g1 != g2 || j1 != j2) ==> group_arc(
            indices,
            arity,
            g1,
            j1,
        ) != group_arc(indices, arity, g2, j2)
}

/// Every live arc is a group arc of a position before `(gd, jd)`.
spec fn arcs_placed(c: Core, indices: Seq<u64>, arity: int, gd: int, jd: int) -> bool {
    forall|k: EdgeKey| #[trigger]
        c.em().contains_key(k) ==> exists|gi: int, j: int|
            0 <= gi && 0 <= j < arity && (gi < gd || (gi == gd && j < jd)) && k == #[trigger]
                group_arc(indices, arity, gi, j)
}

/// The first `jd` arcs of group `g` are live, unwired, and listed in
/// `arcs` in order.
spec fn group_prefix_ok(
    c: Core,
    indices: Seq<u64>,
    arity: int,
    g: int,
    jd: int,
    arcs: Seq<EdgeKey>,
) -> bool {
    forall|x: int| #![trigger arcs[x]]
        0 <= x < jd ==> arcs[x] == group_arc(indices, arity, g, x) && c.em().contains_key(
            arcs[x],
        ) && c.em()[arcs[x]].next is None && c.em()[arcs[x]].previous is None && c.em()[
            arcs[x]
        ].face is None
}

/// Every live face key is below `g`.
spec fn faces_below(c: Core, g: int) -> bool {
    forall|fk: FaceKey| #[trigger] c.fm().contains_key(fk) ==> fk.0 < g
}

/// Vertex key `j` is live and carries geometry `g`.
pub open spec fn vertex_matches(c: Core, g: Vector3, j: int) -> bool {
    &&& c.vm().contains_key(VertexKey(j as u64))
    &&& c.vm()[VertexKey(j as u64)].geometry == g
}

impl Mesh {
    /// The source-vertex identifiers around the boundary of face `f`, one
    /// per boundary arc, starting from the stored boundary arc.
    pub open spec fn boundary_sources(self, f: FaceKey, row: Seq<u64>) -> bool {
        let start = self.fm()[f].edge;
        &&& 3 <= row.len()
    &&& self.store().face_cycle(f, start, row.len() as nat)
        &&& forall|i: int| #![trigger self.store().walk(start, i as nat)]
            0 <= i < row.len() ==> self.store().walk(start, i as nat) is Some && row[i]
                == self.store().walk(start, i as nat)->Some_0.source.0
    }

    /// The boundary arcs of face `f` in traversal order, a full circulation
    /// from the stored boundary arc back to itself.
    #[verifier::loop_isolation(false)]
    #[verifier::rlimit(60)]
    pub fn face_boundary(&self, f: FaceKey) -> (r: Option<Vec<EdgeKey>>)
        requires
            self.inv(),
        ensures
            r is Some <==> self.fm().contains_key(f),
            r is Some ==> ({
                let bs = r->Some_0@;
                let start = self.fm()[f].edge;
                &&& bs.len() >= 3
                &&& self.store().face_cycle(f, start, bs.len() as nat)
                &&& forall|i: int|
                    0 <= i < bs.len() ==> self.store().walk(start, i as nat) == Some(bs[i])
            }),
    {
        let start = match self.face(f) {
            Some(fr) => fr.edge,
            None => {
                return None;
            },
        };
        proof {
            assert(self.store().face_ok(f));
        }
        let cap = self.raw.edge_count();
        let mut out: Vec<EdgeKey> = Vec::new();
        let mut cur = start;
        let mut i: usize = 0;
        out.push(start);
        while i < cap
            invariant
                i < cap || i == cap,
                out@.len() == i + 1,
                forall|j: int| 0 <= j <= i ==> self.store().walk(start, j as nat) == Some(out@[j]),
                self.store().walk(start, i as nat) == Some(cur),
                self.store().em().contains_key(cur),
                forall|j: nat| 0 < j <= i ==> self.store().walk(start, j) != Some(start),
            decreases cap - i,
        {
            let e = match self.raw.edge_get(cur) {
                Some(e) => e,
                None => {
                    proof {
                        assert(false);
                    }
                    return None;
                },
            };
            match e.next {
                None => {
                    proof {
                        let n0 = choose|n: nat| self.store().face_cycle(f, start, n);
                        assert(self.store().walk(start, i as nat + 1) is None);
                        if n0 <= i {
                            assert(self.store().walk(start, n0) != Some(start));
                        } else {
                            self.store().lemma_walk_none(start, i as nat + 1, n0);
                        }
                        assert(false);
                    }
                    return None;
                },
                Some(nk) => {
                    proof {
                        assert(self.store().walk(start, i as nat + 1) == self.store().next_of(cur));
                    }
                    i = i + 1;
                    cur = nk;
                    if cur.source.0 == start.source.0 && cur.destination.0 == start.destination.0 {
                        proof {
                            assert(cur == start);
                            let n0 = choose|n: nat| self.store().face_cycle(f, start, n);
                            assert(self.store().walk(start, i as nat) == Some(start));
                            if n0 < i {
                                assert(self.store().walk(start, n0) == Some(start));
                                assert(0 < n0 < i as nat);
                            } else if n0 > i {
                                assert(0 < (i as nat) < n0);
                                assert(self.store().walk(start, i as nat) != Some(start));
                            }
                            assert(n0 == i);
                            assert(self.store().face_cycle(f, start, out@.len() as nat));
                        }
                        return Some(out);
                    }
                    out.push(cur);
                    proof {
                        assert(self.store().em().contains_key(cur)) by {
                            let n0 = choose|n: nat| self.store().face_cycle(f, start, n);
                            if n0 <= i {
                                assert(self.store().walk(start, n0) != Some(start));
                                assert(false);
                            } else {
                                assert(self.store().step_ok(f, start, i as nat));
                            }
                        }
                    }
                },
            }
        }
        proof {
            let n0 = choose|n: nat| self.store().face_cycle(f, start, n);
            assert(3 <= n0 <= self.store().edge_len());
            assert(self.store().walk(start, n0) == Some(start));
            assert(false);
        }
        None
    }

    /// Builds a mesh from flat buffers: one vertex per payload, and one face
    /// per group of `arity` vertex indices, with opposite arcs paired
    /// automatically wherever two faces share a reversed edge. Vertices are
    /// issued keys in buffer order. Construction succeeds on every
    /// well-formed buffer pair: a legal arity dividing the index count,
    /// every index in range, no index repeated within a group, and no
    /// directed arc repeated anywhere.
    #[verifier::loop_isolation(false)]
    #[verifier::rlimit(100)]
    #[verifier::spinoff_prover]
    pub fn from_raw_buffers(indices: Vec<u64>, vertices: Vec<Vector3>, arity: usize) -> (r: Result<
        Mesh,
        GraphError,
    >)
        ensures
            arity < 3 <==> r == Err::<Mesh, GraphError>(
                GraphError::ArityConflict { expected: 3, actual: arity },
            ),
            (arity >= 3 && indices@.len() % (arity as nat) != 0) <==> r == Err::<Mesh, GraphError>(
                GraphError::ArityNonConstant,
            ),
            (arity >= 3 && indices@.len() % (arity as nat) == 0 && (exists|i: int|
                0 <= i < indices@.len() && indices@[i] >= vertices@.len())) <==> r == Err::<
                Mesh,
                GraphError,
            >(GraphError::TopologyNotFound),
            r is Ok || r == Err::<Mesh, GraphError>(GraphError::ArityConflict { expected: 3, actual: arity })
                || r == Err::<Mesh, GraphError>(GraphError::ArityNonConstant)
                || r == Err::<Mesh, GraphError>(GraphError::TopologyNotFound)
                || r == Err::<Mesh, GraphError>(GraphError::TopologyMalformed),
            buffers_wf(indices@, vertices@.len() as int, arity as int) ==> r is Ok,
            r is Ok ==> ({
                let m = r->Ok_0;
                &&& m.inv()
                &&& m.store().vertex_len() == vertices@.len()
                &&& m.store().edge_len() == indices@.len()
                &&& arity > 0 ==> m.store().face_len() == indices@.len() / (arity as nat)
                &&& forall|j: int| #![trigger vertices@[j]]
                    0 <= j < vertices@.len() ==> vertex_matches(m.store(), vertices@[j], j)
                &&& forall|k: EdgeKey| #[trigger]
                    m.em().contains_key(k) ==> m.em()[k].opposite == (
                    if m.em().contains_key(k.spec_reversed()) {
                        Some(k.spec_reversed())
                    } else {
                        None::<EdgeKey>
                    })
            }),
    {
        if arity < 3 {
            return Err(GraphError::ArityConflict { expected: 3, actual: arity });
        }
        if indices.len() % arity != 0 {
            proof {
                assert(indices@.len() as int % (arity as int) == indices@.len() % (arity as nat))
                    by (nonlinear_arith)
                    requires
                        arity >= 3,
                {}
            }
            return Err(GraphError::ArityNonConstant);
        }
        let mut i: usize = 0;
        while i < indices.len()
            invariant
                i <= indices@.len(),
                forall|j: int| 0 <= j < i ==> indices@[j] < vertices@.len(),
            decreases indices@.len() - i,
        {
            if indices[i] >= vertices.len() as u64 {
                return Err(GraphError::TopologyNotFound);
            }
            i = i + 1;
        }
        let mut mu = crate::mutation::Mutation::new(Mesh::new());
        let mut vi: usize = 0;
        while vi < vertices.len()
            invariant
                vi <= vertices@.len(),
                mu.inv(),
                mu.store().vertex_len() == vi,
                mu.store().vertex_next() == vi,
                mu.store().edge_len() == 0,
                mu.store().face_len() == 0,
                mu.store().face_next() == 0,
                mu.store().em() == Map::<EdgeKey, Edge>::empty(),
                mu.store().fm() == Map::<FaceKey, Face>::empty(),
                forall|j: int| #![trigger vertices@[j]]
                    0 <= j < vi ==> vertex_matches(mu.store(), vertices@[j], j),
                forall|v: VertexKey| #[trigger]
                    mu.store().vm().contains_key(v) ==> mu.store().vm()[v].edge is None,
            decreases vertices@.len() - vi,
        {
            let ghost before = mu.store();
            let ghost at = vi as int;
            mu.insert_vertex(vertices[vi]);
            vi = vi + 1;
            proof {
                assert forall|j: int| #![trigger vertices@[j]] 0 <= j < vi implies vertex_matches(
                    mu.store(),
                    vertices@[j],
                    j,
                ) by {
                    if j < at {
                        assert(vertex_matches(before, vertices@[j], j));
                        assert(VertexKey(j as u64) != VertexKey(at as u64));
                    }
                }
            }
        }
        let ghost wf = buffers_wf(indices@, vertices@.len() as int, arity as int);
        proof {
            assert forall|vk: VertexKey| mu.store().vm().contains_key(vk) implies
                mu.store().vertex_ok(vk) by {}
            assert(mu.store().consistent());
            assert(arcs_placed(mu.store(), indices@, arity as int, 0, 0));
            assert(faces_below(mu.store(), 0));
        }
        let groups = indices.len() / arity;
        let mut g: usize = 0;
        while g < groups
            invariant
                g <= groups,
                groups == indices@.len() / (arity as nat),
                arity >= 3,
                indices@.len() % (arity as nat) == 0,
                mu.inv(),
                mu.store().vertex_len() == vertices@.len(),
                mu.store().vertex_next() == vertices@.len(),
                mu.store().edge_len() == g * arity,
                mu.store().face_len() == g,
                mu.store().face_next() == g,
                forall|j: int| #![trigger vertices@[j]]
                    0 <= j < vertices@.len() ==> vertex_matches(mu.store(), vertices@[j], j),
                indices@.len() == 0 ==> mu.store().em() == Map::<EdgeKey, Edge>::empty(),
                indices@.len() == 0 ==> mu.store().fm() == Map::<FaceKey, Face>::empty(),
                forall|vk: VertexKey| #[trigger]
                    mu.store().vm().contains_key(vk) && indices@.len() == 0 ==> mu.store().vm()[
                        vk
                    ].edge is None,
                wf == buffers_wf(indices@, vertices@.len() as int, arity as int),
                wf ==> mu.store().consistent(),
                wf ==> arcs_placed(mu.store(), indices@, arity as int, g as int, 0),
                wf ==> faces_below(mu.store(), g as int),
            decreases groups - g,
        {
            proof {
                assert((g + 1) * arity <= groups * arity) by (nonlinear_arith)
                    requires
                        g < groups,
                        arity >= 3,
                {}
                assert(groups * arity == indices@.len()) by (nonlinear_arith)
                    requires
                        groups == indices@.len() / (arity as nat),
                        indices@.len() % (arity as nat) == 0,
                        arity >= 3,
                {}
                assert(g * arity >= 0) by (nonlinear_arith)
                    requires
                        g >= 0,
                        arity >= 3,
                {}
                assert((g + 1) * arity == g * arity + arity) by (nonlinear_arith)
                {}
            }
            let base = g * arity;
            let mut arcs: Vec<EdgeKey> = Vec::new();
            let mut j: usize = 0;
            while j < arity
                invariant
                    j <= arity,
                    arity >= 3,
                    base == g * arity,
                    base + arity <= indices@.len(),
                    arcs@.len() == j,
                    mu.inv(),
                    mu.store().vertex_len() == vertices@.len(),
                    mu.store().vertex_next() == vertices@.len(),
                    mu.store().edge_len() == g * arity + j,
                    mu.store().face_len() == g,
                    mu.store().face_next() == g,
                    forall|x: int| #![trigger vertices@[x]]
                        0 <= x < vertices@.len() ==> vertex_matches(mu.store(), vertices@[x], x),
                    forall|x: int| 0 <= x < indices@.len() ==> indices@[x] < vertices@.len(),
                    wf == buffers_wf(indices@, vertices@.len() as int, arity as int),
                    wf ==> mu.store().consistent(),
                    wf ==> arcs_placed(mu.store(), indices@, arity as int, g as int, j as int),
                    wf ==> group_prefix_ok(
                        mu.store(),
                        indices@,
                        arity as int,
                        g as int,
                        j as int,
                        arcs@,
                    ),
                    wf ==> faces_below(mu.store(), g as int),
                decreases arity - j,
            {
                let s = indices[base + j];
                let t = indices[base + (if j + 1 == arity {
                    0
                } else {
                    j + 1
                })];
                let eg0 = Vector3::zero();
                let ghost before = mu.store();
                let ghost gi0 = g as int;
                let ghost ji0 = j as int;
                let ghost ar0 = arity as int;
                let ghost nk = EdgeKey { source: VertexKey(s), destination: VertexKey(t) };
                proof {
                    if wf {
                        assert((gi0 + 1) * ar0 <= indices@.len());
                        assert(s == group_index(indices@, ar0, gi0, ji0));
                        assert(t == group_index(indices@, ar0, gi0, cyc_next(ar0, ji0)));
                        if ji0 + 1 == ar0 {
                            assert(group_index(indices@, ar0, gi0, 0) != group_index(
                                indices@,
                                ar0,
                                gi0,
                                ar0 - 1,
                            ));
                        } else {
                            assert(group_index(indices@, ar0, gi0, ji0) != group_index(
                                indices@,
                                ar0,
                                gi0,
                                ji0 + 1,
                            ));
                        }
                        assert(s != t);
                        assert(indices@[gi0 * ar0 + ji0] < vertices@.len());
                        assert(indices@[gi0 * ar0 + cyc_next(ar0, ji0)] < vertices@.len());
                        assert(vertex_matches(mu.store(), vertices@[s as int], s as int));
                        assert(vertex_matches(mu.store(), vertices@[t as int], t as int));
                        assert(before.vm().contains_key(VertexKey(s)));
                        assert(before.vm().contains_key(VertexKey(t)));
                        assert(nk == group_arc(indices@, ar0, gi0, ji0));
                        if before.em().contains_key(nk) {
                            let (pg, pj) = choose|pg: int, pj: int|
                                0 <= pg && 0 <= pj < ar0 && (pg < gi0 || (pg == gi0 && pj < ji0))
                                    && nk == group_arc(indices@, ar0, pg, pj);
                            assert((pg + 1) * ar0 <= (gi0 + 1) * ar0) by (nonlinear_arith)
                                requires
                                    pg + 1 <= gi0 + 1,
                                    ar0 >= 3,
                            {}
                            assert(group_arc(indices@, ar0, pg, pj) != group_arc(
                                indices@,
                                ar0,
                                gi0,
                                ji0,
                            ));
                            assert(false);
                        }
                    }
                }
                match mu.insert_edge((VertexKey(s), VertexKey(t)), eg0) {
                    Ok(k) => {
                        arcs.push(k);
                        proof {
                            assert forall|x: int| #![trigger vertices@[x]]
                                0 <= x < vertices@.len() implies vertex_matches(
                                mu.store(),
                                vertices@[x],
                                x,
                            ) by {
                                let gx = vertices@[x];
                            }
                            if wf {
                                assert(k == nk);
                                crate::mutation::lemma_insert_edge_keeps_consistent(
                                    before,
                                    mu.store(),
                                    VertexKey(s),
                                    VertexKey(t),
                                    eg0,
                                );
                                let ghost rev = nk.spec_reversed();
                                assert forall|k2: EdgeKey| #[trigger]
                                    mu.store().em().contains_key(k2) implies exists|
                                    pg: int,
                                    pj: int,
                                |
                                    0 <= pg && 0 <= pj < ar0 && (pg < gi0 || (pg == gi0 && pj < ji0
                                        + 1)) && k2 == #[trigger] group_arc(
                                        indices@,
                                        ar0,
                                        pg,
                                        pj,
                                    ) by {
                                    if k2 == nk {
                                        assert(nk == group_arc(indices@, ar0, gi0, ji0));
                                    } else {
                                        assert(before.em().contains_key(k2));
                                        let (pg, pj) = choose|pg: int, pj: int|
                                            0 <= pg && 0 <= pj < ar0 && (pg < gi0 || (pg == gi0
                                                && pj < ji0)) && k2 == group_arc(
                                                indices@,
                                                ar0,
                                                pg,
                                                pj,
                                            );
                                        assert(k2 == group_arc(indices@, ar0, pg, pj));
                                    }
                                }
                                assert(arcs_placed(mu.store(), indices@, ar0, gi0, ji0 + 1));
                                assert forall|x: int| #![trigger arcs@[x]] 0 <= x < ji0 + 1 implies
                                    arcs@[x] == group_arc(indices@, ar0, gi0, x)
                                        && mu.store().em().contains_key(arcs@[x]) && mu.store().em()[
                                    arcs@[x]
                                ].next is None && mu.store().em()[arcs@[x]].previous is None
                                    && mu.store().em()[arcs@[x]].face is None by {
                                    if x < ji0 {
                                        assert(arcs@[x] == group_arc(indices@, ar0, gi0, x));
                                        assert(group_arc(indices@, ar0, gi0, x) != group_arc(
                                            indices@,
                                            ar0,
                                            gi0,
                                            ji0,
                                        ));
                                        if arcs@[x] == rev {
                                            assert(mu.store().em()[arcs@[x]] == Edge {
                                                opposite: Some(nk),
                                                ..before.em()[arcs@[x]]
                                            });
                                        } else {
                                            assert(mu.store().em()[arcs@[x]] == before.em()[
                                                arcs@[x]
                                            ]);
                                        }
                                    }
                                }
                                assert(group_prefix_ok(
                                    mu.store(),
                                    indices@,
                                    ar0,
                                    gi0,
                                    ji0 + 1,
                                    arcs@,
                                ));
                                assert(faces_below(mu.store(), gi0));
                            }
                        }
                    },
                    Err(_) => {
                        proof {
                            if wf {
                                assert(false);
                            }
                        }
                        return Err(GraphError::TopologyMalformed);
                    },
                }
                j = j + 1;
            }
            let ghost before_face = mu.store();
            let ghost gi0 = g as int;
            let ghost ar0 = arity as int;
            let fg0 = Vector3::zero();
            proof {
                if wf {
                    assert forall|x: int| 0 <= x < arcs@.len() implies
                        before_face.em().contains_key(arcs@[x]) && before_face.em()[
                        arcs@[x]
                    ].face is None by {
                        assert(arcs@[x] == group_arc(indices@, ar0, gi0, x));
                    }
                    assert forall|x: int, y: int| 0 <= x < y < arcs@.len() implies arcs@[x]
                        != arcs@[y] by {
                        assert(arcs@[x] == group_arc(indices@, ar0, gi0, x));
                        assert(arcs@[y] == group_arc(indices@, ar0, gi0, y));
                        assert((gi0 + 1) * ar0 <= indices@.len());
                    }
                }
            }
            match mu.insert_face(&arcs, fg0) {
                Ok(_) => {
                    proof {
                        assert forall|x: int| #![trigger vertices@[x]]
                            0 <= x < vertices@.len() implies vertex_matches(
                            mu.store(),
                            vertices@[x],
                            x,
                        ) by {
                            assert(vertex_matches(before_face, vertices@[x], x));
                        }
                        if wf {
                            let fkey = FaceKey(before_face.face_next());
                            assert(fkey == FaceKey(g as u64));
                            assert(!before_face.fm().contains_key(fkey));
                            assert(arcs@.len() <= before_face.edge_len());
                            assert forall|x: int| #![trigger arcs@[x]]
                                0 <= x < arcs@.len() implies before_face.em().contains_key(
                                arcs@[x],
                            ) && before_face.em()[arcs@[x]].next is None && before_face.em()[
                                arcs@[x]
                            ].previous is None && before_face.em()[arcs@[x]].face is None
                                && arcs@[x].destination == arcs@[
                                cyc_next(arcs@.len() as int, x)
                            ].source by {
                                assert(arcs@[x] == group_arc(indices@, ar0, gi0, x));
                                assert(arcs@[cyc_next(ar0, x)] == group_arc(
                                    indices@,
                                    ar0,
                                    gi0,
                                    cyc_next(ar0, x),
                                ));
                            }
                            crate::mutation::lemma_insert_face_keeps_consistent(
                                before_face,
                                mu.store(),
                                arcs@,
                                fkey,
                                fg0,
                            );
                            assert forall|k2: EdgeKey| #[trigger]
                                mu.store().em().contains_key(k2) implies exists|pg: int, pj: int|
                                0 <= pg && 0 <= pj < ar0 && (pg < gi0 + 1 || (pg == gi0 + 1 && pj
                                    < 0)) && k2 == #[trigger] group_arc(indices@, ar0, pg, pj) by {
                                assert(before_face.em().contains_key(k2));
                                let (pg, pj) = choose|pg: int, pj: int|
                                    0 <= pg && 0 <= pj < ar0 && (pg < gi0 || (pg == gi0 && pj
                                        < ar0)) && k2 == group_arc(indices@, ar0, pg, pj);
                                assert(k2 == group_arc(indices@, ar0, pg, pj));
                            }
                            assert(arcs_placed(mu.store(), indices@, ar0, gi0 + 1, 0));
                            assert forall|fk: FaceKey| #[trigger]
                                mu.store().fm().contains_key(fk) implies fk.0 < gi0 + 1 by {
                                if fk != fkey {
                                    assert(before_face.fm().contains_key(fk));
                                }
                            }
                            assert(faces_below(mu.store(), gi0 + 1));
                        }
                    }
                },
                Err(_) => {
                    proof {
                        if wf {
                            assert(false);
                        }
                    }
                    return Err(GraphError::TopologyMalformed);
                },
            }
            g = g + 1;
        }
        proof {
            assert(g * arity == indices@.len()) by (nonlinear_arith)
                requires
                    g == groups,
                    groups == indices@.len() / (arity as nat),
                    indices@.len() % (arity as nat) == 0,
                    arity >= 3,
            {}
        }
        proof {
            if wf {
                assert(mu.store().consistent());
            }
        }
        match mu.commit() {
            Ok(m) => {
                proof {
                    assert forall|k: EdgeKey| #[trigger]
                        m.em().contains_key(k) implies m.em()[k].opposite == (
                        if m.em().contains_key(k.spec_reversed()) {
                            Some(k.spec_reversed())
                        } else {
                            None::<EdgeKey>
                        }) by {
                        assert(m.store().edge_ok(k));
                    }
                }
                Ok(m)
            },
            Err(_) => {
                proof {
                    if wf {
                        assert(false);
                    }
                }
                Err(GraphError::TopologyMalformed)
            },
        }
    }

    /// Exports the mesh back to buffers: for each face in storage order the
    /// identifiers of the source vertices around its boundary, and the
    /// geometry of each live vertex in key order.
    #[verifier::loop_isolation(false)]
    pub fn to_raw_buffers(&self) -> (r: (Vec<Vec<u64>>, Vec<Vector3>))
        requires
            self.inv(),
        ensures
            r.0@.len() == self.store().face_len(),
            exists|ks: Seq<FaceKey>|
                {
                    &&& #[trigger] ks.len() == r.0@.len()
                    &&& forall|x: int, y: int| 0 <= x < y < ks.len() ==> ks[x].0 < ks[y].0
                    &&& forall|f: FaceKey| self.fm().contains_key(f) <==> ks.contains(f)
                    &&& forall|j: int| #![trigger ks[j]]
                        0 <= j < ks.len() ==> self.boundary_sources(ks[j], r.0@[j]@)
                },
            r.1@.len() == self.store().vertex_len(),
            exists|ws: Seq<VertexKey>|
                {
                    &&& #[trigger] ws.len() == r.1@.len()
                    &&& forall|x: int, y: int| 0 <= x < y < ws.len() ==> ws[x].0 < ws[y].0
                    &&& forall|v: VertexKey| self.vm().contains_key(v) <==> ws.contains(v)
                    &&& forall|j: int| #![trigger ws[j]]
                        0 <= j < ws.len() ==> self.vm().contains_key(ws[j]) && r.1@[j]
                            == self.vm()[ws[j]].geometry
                },
    {
        let fks = self.face_keys();
        let mut rows: Vec<Vec<u64>> = Vec::new();
        let mut i: usize = 0;
        while i < fks.len()
            invariant
                i <= fks@.len(),
                rows@.len() == i,
                forall|j: int| #![trigger rows@[j]]
                    0 <= j < i ==> self.boundary_sources(fks@[j], rows@[j]@),
            decreases fks@.len() - i,
        {
            let f = fks[i];
            match self.face_boundary(f) {
                Some(bs) => {
                    let mut row: Vec<u64> = Vec::new();
                    let mut j: usize = 0;
                    while j < bs.len()
                        invariant
                            j <= bs@.len(),
                            row@.len() == j,
                            forall|x: int| 0 <= x < j ==> row@[x] == bs@[x].source.0,
                        decreases bs@.len() - j,
                    {
                        row.push(bs[j].source.0);
                        j = j + 1;
                    }
                    proof {
                        assert(self.fm().contains_key(f));
                        assert(row@.len() == bs@.len());
                        let start0 = self.fm()[f].edge;
                        assert(self.store().face_cycle(f, start0, row@.len() as nat));
                        assert forall|x: int| #![trigger self.store().walk(start0, x as nat)]
                            0 <= x < row@.len() implies self.store().walk(start0, x as nat)
                            is Some && row@[x] == self.store().walk(
                            start0,
                            x as nat,
                        )->Some_0.source.0 by {
                            assert(self.store().walk(start0, x as nat) == Some(bs@[x]));
                            assert(row@[x] == bs@[x].source.0);
                        }
                        assert(self.boundary_sources(f, row@));
                    }
                    let ghost row_v = row@;
                    let ghost prev_rows = rows@;
                    rows.push(row);
                    proof {
                        assert(rows@[i as int]@ == row_v);
                        assert(self.boundary_sources(fks@[i as int], rows@[i as int]@));
                        assert forall|j: int| #![trigger rows@[j]] 0 <= j < i + 1 implies
                            self.boundary_sources(fks@[j], rows@[j]@) by {
                            if j < i {
                                assert(rows@[j] == prev_rows[j]);
                                assert(self.boundary_sources(fks@[j], prev_rows[j]@));
                            }
                        }
                    }
                },
                None => {
                    proof {
                        assert(false);
                    }
                    return (rows, Vec::new());
                },
            }
            i = i + 1;
        }
        let vks = self.vertex_keys();
        let mut gs: Vec<Vector3> = Vec::new();
        let mut i2: usize = 0;
        while i2 < vks.len()
            invariant
                i2 <= vks@.len(),
                gs@.len() == i2,
                forall|j: int| #![trigger gs@[j]]
                    0 <= j < i2 ==> self.vm().contains_key(vks@[j]) && gs@[j] == self.vm()[
                        vks@[j]
                    ].geometry,
            decreases vks@.len() - i2,
        {
            let ghost prev_gs = gs@;
            match self.vertex(vks[i2]) {
                Some(v) => {
                    gs.push(v.geometry);
                    proof {
                        assert forall|j: int| #![trigger gs@[j]] 0 <= j < i2 + 1 implies
                            self.vm().contains_key(vks@[j]) && gs@[j] == self.vm()[
                            vks@[j]
                        ].geometry by {
                            if j < i2 {
                                assert(gs@[j] == prev_gs[j]);
                            }
                        }
                    }
                },
                None => {
                    proof {
                        assert(false);
                    }
                    return (rows, gs);
                },
            }
            i2 = i2 + 1;
        }
        proof {
            let ks = fks@;
            assert(ks.len() == rows@.len());
            let ws = vks@;
            assert(ws.len() == gs@.len());
        }
        (rows, gs)
    }
}

} // verus!

verus! {

impl Core {
    proof fn lemma_walk_transfer(c1: Core, c2: Core, f: FaceKey, start: EdgeKey, n: nat, i: nat)
        requires
            i <= n,
            c1.face_cycle(f, start, n),
            forall|x: EdgeKey| #[trigger]
                c1.em().contains_key(x) && c1.em()[x].face == Some(f) ==> c2.em().contains_key(x)
                    && c2.em()[x].next == c1.em()[x].next,
        ensures
            c2.walk(start, i) == c1.walk(start, i),
        decreases i,
    {
        if i > 0 {
            Core::lemma_walk_transfer(c1, c2, f, start, n, (i - 1) as nat);
            assert(c1.step_ok(f, start, (i - 1) as nat));
            let cur = c1.walk(start, (i - 1) as nat)->Some_0;
            assert(c1.em().contains_key(cur));
            assert(c2.next_of(cur) == c1.next_of(cur));
        }
    }

    /// A closed face boundary survives any change of the aggregate that
    /// keeps the face's own arcs live with the same `next` and `face`
    /// pointers.
    pub proof fn lemma_face_cycle_frame(c1: Core, c2: Core, f: FaceKey, start: EdgeKey, n: nat)
        requires
            c1.face_cycle(f, start, n),
            forall|x: EdgeKey| #[trigger]
                c1.em().contains_key(x) && c1.em()[x].face == Some(f) ==> c2.em().contains_key(x)
                    && c2.em()[x].next == c1.em()[x].next && c2.em()[x].face == c1.em()[x].face,
            c2.edge_len() >= c1.edge_len(),
        ensures
            c2.face_cycle(f, start, n),
    {
        assert forall|i: nat| i <= n implies c2.walk(start, i) == c1.walk(start, i) by {
            Core::lemma_walk_transfer(c1, c2, f, start, n, i);
        }
        assert forall|i: nat| i < n implies c2.step_ok(f, start, i) by {
            assert(c1.step_ok(f, start, i));
            let cur = c1.walk(start, i)->Some_0;
            assert(c1.em().contains_key(cur));
        }
    }

    proof fn lemma_walk_along(c: Core, f: FaceKey, bs: Seq<EdgeKey>, t: nat)
        requires
            t < bs.len(),
            forall|j: int| #![trigger bs[j]]
                0 <= j < bs.len() ==> c.em().contains_key(bs[j]) && c.em()[bs[j]].next == Some(
                    bs[cyc_next(bs.len() as int, j)],
                ),
        ensures
            c.walk(bs[0], t) == Some(bs[t as int]),
        decreases t,
    {
        if t > 0 {
            Core::lemma_walk_along(c, f, bs, (t - 1) as nat);
            let prev = bs[t as int - 1];
            assert(c.em().contains_key(prev));
            assert(c.next_of(prev) == Some(bs[cyc_next(bs.len() as int, t as int - 1)]));
            assert(cyc_next(bs.len() as int, t as int - 1) == t as int);
        }
    }

    /// Distinct live arcs wired cyclically under one face form a closed
    /// boundary of exactly their number of steps.
    pub proof fn lemma_wired_cycle(c: Core, f: FaceKey, bs: Seq<EdgeKey>)
        requires
            3 <= bs.len() <= c.edge_len(),
            forall|x: int, y: int| 0 <= x < y < bs.len() ==> bs[x] != bs[y],
            forall|j: int| #![trigger bs[j]]
                0 <= j < bs.len() ==> c.em().contains_key(bs[j]) && c.em()[bs[j]].next == Some(
                    bs[cyc_next(bs.len() as int, j)],
                ) && c.em()[bs[j]].face == Some(f),
        ensures
            c.face_cycle(f, bs[0], bs.len() as nat),
    {
        let n = bs.len() as nat;
        assert forall|t: nat| t < n implies c.walk(bs[0], t) == Some(bs[t as int]) by {
            Core::lemma_walk_along(c, f, bs, t);
        }
        assert(c.walk(bs[0], (n - 1) as nat) == Some(bs[n as int - 1]));
        assert(c.next_of(bs[n as int - 1]) == Some(bs[cyc_next(bs.len() as int, n as int - 1)]));
        assert(cyc_next(bs.len() as int, n as int - 1) == 0);
        assert(c.walk(bs[0], n) == Some(bs[0]));
        assert forall|i: nat| 0 < i < n implies c.walk(bs[0], i) != Some(bs[0]) by {
            assert(c.walk(bs[0], i) == Some(bs[i as int]));
            assert(bs[0] != bs[i as int]);
        }
        assert forall|i: nat| i < n implies c.step_ok(f, bs[0], i) by {
            assert(c.walk(bs[0], i) == Some(bs[i as int]));
        }
    }
}

} // verus!
