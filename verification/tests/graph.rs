use plexus::edge::{EdgeKeyTopology, EdgeView, OrphanEdgeView, PerimeterIter};
use plexus::geometry::Vector3;
use plexus::mesh::Mesh;
use plexus::mutation::Mutation;
use plexus::storage::{EdgeKey, FaceKey, VertexKey};
use plexus::GraphError;

fn v(x: i64, y: i64, z: i64) -> Vector3 {
    Vector3::new(x, y, z)
}

fn quad() -> Mesh {
    Mesh::from_raw_buffers(
        vec![0, 1, 2, 3],
        vec![v(0, 0, 0), v(1, 0, 0), v(1, 1, 0), v(0, 1, 0)],
        4,
    )
    .unwrap()
}

fn cube() -> Mesh {
    // Six quads with outward orientation; every edge is shared by two
    // faces, so every arc has its opposite.
    Mesh::from_raw_buffers(
        vec![
            0, 3, 2, 1, // bottom
            4, 5, 6, 7, // top
            0, 1, 5, 4, // front
            1, 2, 6, 5, // right
            2, 3, 7, 6, // back
            3, 0, 4, 7, // left
        ],
        vec![
            v(0, 0, 0),
            v(1, 0, 0),
            v(1, 1, 0),
            v(0, 1, 0),
            v(0, 0, 1),
            v(1, 0, 1),
            v(1, 1, 1),
            v(0, 1, 1),
        ],
        4,
    )
    .unwrap()
}

#[test]
fn extrude_edge() {
    let mesh = quad();
    let key = mesh.edge_keys()[0];
    let view = match mesh.edge_mut(key).unwrap().extrude(1) {
        Ok(view) => view,
        Err(_) => panic!("extrude failed"),
    };
    let mesh = view.into_mesh();

    assert_eq!(10, mesh.edge_count());
    assert_eq!(3, mesh.face_count());
}

#[test]
fn join_edges() {
    // Construct a mesh with two independent quads.
    let mesh = Mesh::from_raw_buffers(
        vec![0, 1, 2, 3, 4, 5, 6, 7],
        vec![
            v(-2, 0, 0),
            v(-1, 0, 0), // 1
            v(-1, 1, 0), // 2
            v(-2, 1, 0),
            v(1, 0, 0), // 4
            v(2, 0, 0),
            v(2, 1, 0),
            v(1, 1, 0), // 7
        ],
        4,
    )
    .unwrap();
    // Construct the keys for the nearby edges.
    let source = EdgeKey::new(VertexKey(1), VertexKey(2));
    let destination = EdgeKey::new(VertexKey(7), VertexKey(4));
    let view = match mesh.edge_mut(source).unwrap().join(destination) {
        Ok(view) => view,
        Err(_) => panic!("join failed"),
    };
    let mesh = view.into_mesh();

    assert_eq!(14, mesh.edge_count());
    assert_eq!(4, mesh.face_count());
}

#[test]
fn split_half_edge() {
    let mesh = quad();
    let key = mesh.edge_keys()[0];
    let vertex = match mesh.edge_mut(key).unwrap().split() {
        Ok(vertex) => vertex,
        Err(_) => panic!("split failed"),
    };
    let out = vertex.outgoing_edge().unwrap();
    let mesh = vertex.into_mesh();
    let face = match mesh.edge_mut(out).unwrap().into_face() {
        Ok(face) => face,
        Err(_) => panic!("the outgoing arc borders the split face"),
    };

    assert_eq!(5, face.edges().len());
}

#[test]
fn split_full_edge() {
    // 6 quads, every edge shared, so the first edge has both arcs.
    let mesh = cube();
    let key = mesh.edge_keys()[0];
    let vertex = match mesh.edge_mut(key).unwrap().split() {
        Ok(vertex) => vertex,
        Err(_) => panic!("split failed"),
    };
    let out = vertex.outgoing_edge().unwrap();
    let mesh = vertex.into_mesh();
    let edge = mesh.edge(out).unwrap();
    let face = edge.face.unwrap();

    assert_eq!(5, mesh.face_boundary(face).unwrap().len());
    let opposite = edge.opposite.unwrap();
    let opposite_face = match mesh.edge_mut(opposite).unwrap().into_face() {
        Ok(face) => face,
        Err(_) => panic!("the opposite arc borders the other split face"),
    };
    assert_eq!(5, opposite_face.edges().len());
}

#[test]
fn single_quad_counts() {
    let mesh = quad();
    assert_eq!(4, mesh.vertex_count());
    assert_eq!(4, mesh.edge_count());
    assert_eq!(1, mesh.face_count());
}

#[test]
fn extrude_adds_two_faces_and_six_arcs() {
    let mesh = quad();
    let key = mesh.edge_keys()[0];
    let mesh = mesh.edge_mut(key).unwrap().extrude(1).unwrap().into_mesh();
    assert_eq!(3, mesh.face_count());
    assert_eq!(10, mesh.edge_count());
    assert_eq!(6, mesh.vertex_count());
}

#[test]
fn extrude_by_zero_duplicates_positions() {
    let mesh = quad();
    // The first arc of the quad runs from vertex 0 to vertex 1.
    let key = EdgeKey::new(VertexKey(0), VertexKey(1));
    let mesh = mesh.edge_mut(key).unwrap().extrude(0).unwrap().into_mesh();
    assert_eq!(3, mesh.face_count());
    // The duplicated vertices get the next keys: 4 copies the destination,
    // 5 copies the source.
    assert_eq!(v(1, 0, 0), mesh.vertex(VertexKey(4)).unwrap().geometry);
    assert_eq!(v(0, 0, 0), mesh.vertex(VertexKey(5)).unwrap().geometry);
}

#[test]
fn join_rejects_perimeter_overlap() {
    let mesh = Mesh::from_raw_buffers(
        vec![0, 1, 2, 3, 4, 5, 6, 7],
        vec![
            v(-2, 0, 0),
            v(-1, 0, 0),
            v(-1, 1, 0),
            v(-2, 1, 0),
            v(1, 0, 0),
            v(2, 0, 0),
            v(2, 1, 0),
            v(1, 1, 0),
        ],
        4,
    )
    .unwrap();
    // Bridge the quads once; this adds the arc 4 -> 7 among others.
    let source = EdgeKey::new(VertexKey(1), VertexKey(2));
    let destination = EdgeKey::new(VertexKey(7), VertexKey(4));
    let mesh = match mesh.edge_mut(source).unwrap().join(destination) {
        Ok(view) => view.into_mesh(),
        Err(_) => panic!("the first join is clean"),
    };
    // Joining (1, 2) to (4, 7) now collides: the perimeter of those four
    // vertices already contains the connecting arc 7 -> 4.
    let destination = EdgeKey::new(VertexKey(4), VertexKey(7));
    match mesh.edge_mut(source).unwrap().join(destination) {
        Ok(_) => panic!("join should have been rejected"),
        Err((recovered, error)) => {
            assert_eq!(GraphError::TopologyConflict, error);
            let mesh = recovered.unwrap();
            assert_eq!(8, mesh.vertex_count());
            assert_eq!(14, mesh.edge_count());
            assert_eq!(4, mesh.face_count());
        },
    }
}

#[test]
fn join_conflict_outranks_shared_vertices() {
    // The source and destination share vertex 1, and the connecting arc
    // 1 -> 2 already exists across the bridge: the collision is reported
    // as a conflict, not as malformed input.
    let mesh = quad();
    let source = EdgeKey::new(VertexKey(0), VertexKey(1));
    let destination = EdgeKey::new(VertexKey(1), VertexKey(2));
    match mesh.edge_mut(source).unwrap().join(destination) {
        Ok(_) => panic!("join should have been rejected"),
        Err((recovered, error)) => {
            assert_eq!(GraphError::TopologyConflict, error);
            assert_eq!(4, recovered.unwrap().edge_count());
        },
    }
}

#[test]
fn faceless_build_always_succeeds() {
    let mesh = Mesh::from_raw_buffers(vec![], vec![v(1, 2, 3), v(4, 5, 6)], 3).unwrap();
    assert_eq!(2, mesh.vertex_count());
    assert_eq!(0, mesh.edge_count());
    assert_eq!(0, mesh.face_count());
}

#[test]
fn round_trip_reproduces_face_list() {
    let indices = vec![0u64, 1, 2, 3];
    let positions = vec![v(0, 0, 0), v(2, 0, 0), v(2, 2, 0), v(0, 2, 0)];
    let mesh = Mesh::from_raw_buffers(indices.clone(), positions.clone(), 4).unwrap();
    let (faces, vertices) = mesh.to_raw_buffers();
    assert_eq!(vec![indices], faces);
    assert_eq!(positions, vertices);
}

#[test]
fn round_trip_cube_combinatorially_equal() {
    let groups: Vec<Vec<u64>> = vec![
        vec![0, 3, 2, 1],
        vec![4, 5, 6, 7],
        vec![0, 1, 5, 4],
        vec![1, 2, 6, 5],
        vec![2, 3, 7, 6],
        vec![3, 0, 4, 7],
    ];
    let mesh = cube();
    let (faces, vertices) = mesh.to_raw_buffers();
    assert_eq!(8, vertices.len());
    assert_eq!(groups, faces);
}

#[test]
fn closure_and_opposite_symmetry_on_cube() {
    let mesh = cube();
    for face in mesh.face_keys() {
        let boundary = mesh.face_boundary(face).unwrap();
        assert_eq!(4, boundary.len());
        for arc in &boundary {
            assert_eq!(Some(face), mesh.edge(*arc).unwrap().face);
        }
    }
    for key in mesh.edge_keys() {
        let record = mesh.edge(key).unwrap();
        // A closed surface: every arc is paired with its exact reverse.
        let opposite = record.opposite.unwrap();
        assert_eq!(key.reversed(), opposite);
        assert_eq!(Some(key), mesh.edge(opposite).unwrap().opposite);
        // Leading-arc validity at the source vertex.
        let leading = mesh.vertex(key.source).unwrap().edge.unwrap();
        assert_eq!(key.source, leading.source);
        assert!(mesh.edge(leading).is_some());
    }
}

#[test]
fn split_counts_half_and_full() {
    // A boundary half-edge: one arc removed, two inserted.
    let mesh = quad();
    let key = mesh.edge_keys()[0];
    let mesh = mesh.edge_mut(key).unwrap().split().unwrap().into_mesh();
    assert_eq!(5, mesh.vertex_count());
    assert_eq!(5, mesh.edge_count());

    // A full edge: two arcs removed, four inserted.
    let mesh = cube();
    let before = mesh.edge_count();
    let key = mesh.edge_keys()[0];
    let mesh = mesh.edge_mut(key).unwrap().split().unwrap().into_mesh();
    assert_eq!(9, mesh.vertex_count());
    assert_eq!(before + 2, mesh.edge_count());
}

#[test]
fn from_raw_buffers_rejects_bad_input() {
    assert_eq!(
        Err(GraphError::ArityConflict { expected: 3, actual: 2 }),
        Mesh::from_raw_buffers(vec![0, 1], vec![v(0, 0, 0), v(1, 0, 0)], 2).map(|_| ())
    );
    assert_eq!(
        Err(GraphError::ArityNonConstant),
        Mesh::from_raw_buffers(
            vec![0, 1, 2, 3, 0],
            vec![v(0, 0, 0), v(1, 0, 0), v(1, 1, 0), v(0, 1, 0)],
            4
        )
        .map(|_| ())
    );
    assert_eq!(
        Err(GraphError::TopologyNotFound),
        Mesh::from_raw_buffers(vec![0, 1, 9], vec![v(0, 0, 0), v(1, 0, 0), v(1, 1, 0)], 3)
            .map(|_| ())
    );
    // A degenerate group repeats an index, producing an arc from a vertex
    // to itself.
    assert_eq!(
        Err(GraphError::TopologyMalformed),
        Mesh::from_raw_buffers(vec![0, 0, 1], vec![v(0, 0, 0), v(1, 0, 0)], 3).map(|_| ())
    );
    // A reused index group duplicates every arc of the first group.
    assert_eq!(
        Err(GraphError::TopologyMalformed),
        Mesh::from_raw_buffers(
            vec![0, 1, 2, 0, 1, 2],
            vec![v(0, 0, 0), v(1, 0, 0), v(1, 1, 0)],
            3
        )
        .map(|_| ())
    );
}

#[test]
fn edge_mut_rejects_missing_key() {
    let mesh = quad();
    match mesh.edge_mut(EdgeKey::new(VertexKey(2), VertexKey(0))) {
        Ok(_) => panic!("the diagonal arc is not live"),
        Err((mesh, error)) => {
            assert_eq!(GraphError::TopologyNotFound, error);
            assert_eq!(4, mesh.edge_count());
        },
    }
}

#[test]
fn mutation_primitives_build_triangle() {
    let mut mutation = Mutation::new(Mesh::new());
    let a = mutation.insert_vertex(v(0, 0, 0));
    let b = mutation.insert_vertex(v(1, 0, 0));
    let c = mutation.insert_vertex(v(0, 1, 0));
    let ab = mutation.insert_edge((a, b), v(0, 0, 0)).unwrap();
    let bc = mutation.insert_edge((b, c), v(0, 0, 0)).unwrap();
    let ca = mutation.insert_edge((c, a), v(0, 0, 0)).unwrap();
    // A duplicate arc is a conflict.
    assert_eq!(Err(GraphError::TopologyConflict), mutation.insert_edge((a, b), v(0, 0, 0)));
    // A degenerate arc is malformed.
    assert_eq!(Err(GraphError::TopologyMalformed), mutation.insert_edge((a, a), v(0, 0, 0)));
    // An endpoint that does not resolve is not found.
    assert_eq!(
        Err(GraphError::TopologyNotFound),
        mutation.insert_edge((a, VertexKey(9)), v(0, 0, 0))
    );
    // A face needs arity of at least three.
    assert_eq!(
        Err(GraphError::ArityConflict { expected: 3, actual: 2 }),
        mutation.insert_face(&vec![ab, bc], v(0, 0, 0))
    );
    let face = mutation.insert_face(&vec![ab, bc, ca], v(0, 0, 0)).unwrap();
    // The same arcs are already claimed by the first face.
    assert_eq!(
        Err(GraphError::TopologyMalformed),
        mutation.insert_face(&vec![ab, bc, ca], v(0, 0, 0))
    );
    let mesh = mutation.commit().unwrap();
    assert_eq!(3, mesh.vertex_count());
    assert_eq!(3, mesh.edge_count());
    assert_eq!(1, mesh.face_count());
    assert_eq!(Some(face), mesh.edge(ab).unwrap().face);
}

#[test]
fn commit_rejects_dangling_topology() {
    // Removing a face leaves its arcs pointing at a dead face key, which
    // the commit validation rejects.
    let mesh = quad();
    let face = mesh.face_keys()[0];
    let mut mutation = Mutation::new(mesh);
    mutation.remove_face(face).unwrap();
    assert_eq!(GraphError::TopologyMalformed, mutation.commit().unwrap_err());

    // Removing one arc of a wired boundary leaves dangling next/previous
    // pointers.
    let mesh = quad();
    let key = mesh.edge_keys()[0];
    let mut mutation = Mutation::new(mesh);
    mutation.remove_edge(key).unwrap();
    assert_eq!(GraphError::TopologyMalformed, mutation.commit().unwrap_err());
}

#[test]
fn unlinked_edges_commit_cleanly() {
    // Arcs without faces are consistent as long as pairing and leading
    // arcs hold.
    let mut mutation = Mutation::new(Mesh::new());
    let a = mutation.insert_vertex(v(0, 0, 0));
    let b = mutation.insert_vertex(v(1, 0, 0));
    let ab = mutation.insert_edge((a, b), v(0, 0, 0)).unwrap();
    let ba = mutation.insert_edge((b, a), v(0, 0, 0)).unwrap();
    let mesh = mutation.commit().unwrap();
    assert_eq!(Some(ba), mesh.edge(ab).unwrap().opposite);
    assert_eq!(Some(ab), mesh.edge(ba).unwrap().opposite);
}

#[test]
fn orphan_views_write_payloads_back() {
    let mesh = quad();
    let key = mesh.edge_keys()[0];
    let view = mesh.edge_mut(key).unwrap();
    let orphan: OrphanEdgeView = view.next_edge_mut().unwrap();
    let target = orphan.key();
    let mesh = view.into_mesh();
    let mut mutation = Mutation::new(mesh);
    assert!(mutation.set_edge_geometry(target, v(7, 7, 7)));
    assert!(mutation.set_vertex_geometry(VertexKey(0), v(5, 5, 5)));
    let mesh = mutation.commit().unwrap();
    assert_eq!(v(7, 7, 7), mesh.edge(target).unwrap().geometry);
    assert_eq!(v(5, 5, 5), mesh.vertex(VertexKey(0)).unwrap().geometry);
}

#[test]
fn edge_view_navigation() {
    let mesh = quad();
    let key = EdgeKey::new(VertexKey(0), VertexKey(1));
    let view: EdgeView = mesh.edge_mut(key).unwrap();
    assert_eq!(key, view.key());
    let topology: EdgeKeyTopology = view.to_key_topology();
    assert_eq!(key, topology.key());
    assert_eq!((VertexKey(0), VertexKey(1)), topology.vertices());
    assert_eq!(v(0, 0, 0), view.source_vertex().geometry);
    assert_eq!(v(1, 0, 0), view.destination_vertex().geometry);
    assert_eq!(None, view.opposite_edge());
    assert_eq!(Some(EdgeKey::new(VertexKey(1), VertexKey(2))), view.next_edge());
    assert_eq!(Some(FaceKey(0)), view.face());
    assert_eq!(VertexKey(0), view.source_vertex_mut().key());
    assert_eq!(VertexKey(1), view.destination_vertex_mut().key());
    assert_eq!(FaceKey(0), view.face_mut().unwrap().key());
    assert_eq!(v(0, 0, 0), view.midpoint());
    // The lateral of the arc (0,0,0) -> (1,0,0) points along -y.
    assert_eq!(v(0, -1, 0), view.lateral());
    let view = match view.into_next_edge() {
        Ok(next) => next,
        Err(_) => panic!("the quad boundary is wired"),
    };
    assert_eq!(EdgeKey::new(VertexKey(1), VertexKey(2)), view.key());
    let vertex = view.into_source_vertex();
    assert_eq!(VertexKey(1), vertex.key());
    assert!(vertex.outgoing_edge().is_some());
}

#[test]
fn split_places_vertex_at_midpoint() {
    let mesh = Mesh::from_raw_buffers(
        vec![0, 1, 2, 3],
        vec![v(0, 0, 0), v(2, 0, 0), v(2, 2, 0), v(0, 2, 0)],
        4,
    )
    .unwrap();
    let key = EdgeKey::new(VertexKey(0), VertexKey(1));
    let vertex = match mesh.edge_mut(key).unwrap().split() {
        Ok(vertex) => vertex,
        Err(_) => panic!("split failed"),
    };
    let vkey = vertex.key();
    let mesh = vertex.into_mesh();
    assert_eq!(v(1, 0, 0), mesh.vertex(vkey).unwrap().geometry);
}

#[test]
fn perimeter_wraps_to_the_front() {
    let mut pairs = PerimeterIter::new(vec![3u64, 2, 1, 0]);
    assert_eq!(Some((3, 2)), pairs.next());
    assert_eq!(Some((2, 1)), pairs.next());
    assert_eq!(Some((1, 0)), pairs.next());
    assert_eq!(Some((0, 3)), pairs.next());
    assert_eq!(None, pairs.next());
}

#[test]
fn vector_capabilities_are_exact() {
    let a = v(1, 2, 3);
    let b = v(5, -4, 7);
    assert_eq!(v(6, -2, 10), a.add(b));
    assert_eq!(v(3, 6, 9), a.scale(3));
    assert_eq!(v(3, -1, 5), a.midpoint(b));
    // Rounding is toward negative infinity on each coordinate.
    assert_eq!(v(0, -1, 0), v(0, 0, 0).midpoint(v(1, -1, 1)));
    assert_eq!(v(-6, -4, 0), a.lateral_to(b));
    assert_eq!(v(0, 0, 0), Vector3::zero());
}

#[test]
fn discard_drops_staged_changes() {
    let mesh = quad();
    let mut mutation = Mutation::new(mesh);
    mutation.insert_vertex(v(9, 9, 9));
    mutation.discard();
    // A fresh build is untouched by the discarded transaction.
    let mesh = quad();
    assert_eq!(4, mesh.vertex_count());
}
