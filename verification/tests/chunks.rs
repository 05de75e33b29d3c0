use quarfs::chunk_manager::ChunkManager;
use quarfs::chunk_manager::VertexGenerator;

// unidimensional test
#[derive(Hash)]
struct Segment {
    begin: u32,
    lenght: u32,
}

impl VertexGenerator<u32> for Segment {
    fn get_vertices(&self) -> Vec<u32> {
        let mut x = Vec::with_capacity(2);
        x.push(self.begin);
        x.push(self.begin + self.lenght);
        x
    }
}

#[test]
fn chunk_manager_ctor() {
    ChunkManager::<u32>::new();
}

#[test]
fn add() {
    let mut mgr = ChunkManager::<u32>::new();
    assert_eq!(mgr.free_len(), 0);

    assert_eq!(mgr.vertices().len(), 0);
    assert_eq!(mgr.indices().len(), 0);

    let a = Segment {
        begin: 0,
        lenght: 10,
    };
    let b = Segment {
        begin: 10,
        lenght: 10,
    };
    let c = Segment {
        begin: 0,
        lenght: 20,
    };

    mgr.add_object(&a);
    assert_eq!(mgr.vertices().len(), 2);
    assert_eq!(mgr.indices().len(), 2);

    mgr.add_object(&b);
    assert_eq!(mgr.vertices().len(), 3);
    assert_eq!(mgr.indices().len(), 4);

    mgr.add_object(&c);
    assert_eq!(mgr.vertices().len(), 3);
    assert_eq!(mgr.indices().len(), 6);

    // nothing changes if we repeat

    mgr.add_object(&c);
    assert_eq!(mgr.vertices().len(), 3);
    assert_eq!(mgr.indices().len(), 6);

    mgr.add_object(&b);
    assert_eq!(mgr.vertices().len(), 3);
    assert_eq!(mgr.indices().len(), 6);

    mgr.add_object(&a);
    assert_eq!(mgr.vertices().len(), 3);
    assert_eq!(mgr.indices().len(), 6);
    assert_eq!(mgr.free_len(), 0);
}

#[test]
fn batch() {
    let mut v = Vec::new();

    let a = Segment {
        begin: 0,
        lenght: 10,
    };
    let b = Segment {
        begin: 10,
        lenght: 10,
    };
    let c = Segment {
        begin: 0,
        lenght: 20,
    };
    let d = Segment {
        begin: 0,
        lenght: 30,
    };

    v.push(a);
    v.push(b);
    v.push(c);
    v.push(d);

    let mut mgr = ChunkManager::<u32>::new();

    mgr.add_batch(&v);
    assert_eq!(mgr.vertices().len(), 4);
    assert_eq!(mgr.indices().len(), 8);
    assert_eq!(mgr.free_len(), 0);

    v.remove(3);

    mgr.add_batch(&v);

    assert_eq!(mgr.vertices().len(), 4);
    assert_eq!(mgr.indices().len(), 8);

    assert_eq!(mgr.free_len(), 1);
}

#[test]
fn shared_vertices_are_indexed_once() {
    let mut mgr = ChunkManager::<u32>::new();
    let a = Segment {
        begin: 0,
        lenght: 10,
    };
    let b = Segment {
        begin: 10,
        lenght: 10,
    };
    mgr.add_object(&a);
    mgr.add_object(&b);
    // a contributes {0, 10}, b contributes {10, 20}: the shared vertex
    // 10 is stored once and referenced twice.
    assert_eq!(mgr.vertices(), &vec![0, 10, 20]);
    assert_eq!(mgr.indices(), &vec![0, 1, 1, 2]);
}
