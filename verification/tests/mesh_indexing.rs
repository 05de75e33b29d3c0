use quarfs::indexing::index_vertex_list;

// unidimensional test
#[derive(Copy, Clone)]
struct Vertex {
    point: (f32, f32, f32),
}

impl PartialEq for Vertex {
    fn eq(&self, other: &Vertex) -> bool {
        self.point.0 == other.point.0 && self.point.1 == other.point.1
            && self.point.2 == other.point.2
    }
}

#[test]
fn index_vertices() {
    let mut v = Vec::new();

    v.push(Vertex { point: (0.0, 0.0, 0.0) });
    v.push(Vertex { point: (1.0, 0.0, 0.0) });
    v.push(Vertex { point: (0.0, 2.0, 0.0) });
    v.push(Vertex { point: (0.0, 0.0, 3.0) });

    v.push(Vertex { point: (0.0, 0.0, 0.0) });
    v.push(Vertex { point: (1.0, 0.0, 0.0) });
    v.push(Vertex { point: (0.0, 2.0, 0.0) });
    v.push(Vertex { point: (0.0, 0.0, 3.0) });

    let (vertices, indices) = index_vertex_list(&v);
    assert_eq!(vertices.len(), 4);
    assert_eq!(indices.len(), 8);
}

#[test]
fn index_vertices_exact() {
    let v: Vec<u32> = vec![5, 7, 5, 9, 7, 5];
    let (vertices, indices) = index_vertex_list(&v);
    assert_eq!(vertices, vec![5, 7, 9]);
    assert_eq!(indices, vec![0, 1, 0, 2, 1, 0]);
}

#[test]
fn index_vertices_empty() {
    let v: Vec<u32> = Vec::new();
    let (vertices, indices) = index_vertex_list(&v);
    assert_eq!(vertices.len(), 0);
    assert_eq!(indices.len(), 0);
}
