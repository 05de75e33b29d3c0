use quarfs::quadtree::Patch;
use quarfs::quadtree::TestResult;
use quarfs::quadtree;

fn print_patches(v: &Vec<Patch>) {
    println!("vector contains:");
    for elem in v {
        println!("\t{:?}", elem);
    }
}

#[test]
fn quadtree_vertical_split() {
    let x = Patch::new((0, 0), (8, 8));
    let (down, up) = x.split_v();
    println!("{:?}", down);
    println!("{:?}", up);

    assert_eq!(down.p.0, x.p.0);
    assert_eq!(down.p.1, 0);
    assert_eq!(down.v.0, x.v.0);
    assert_eq!(down.v.1, 4);

    assert_eq!(up.p.0, x.p.0);
    assert_eq!(up.p.1, 4);
    assert_eq!(up.v.0, x.v.0);
    assert_eq!(up.v.1, 4);
}

#[test]
fn quadtree_horizontal_split() {
    let x = Patch::new((0, 0), (8, 8));
    let (left, right) = x.split_h();
    println!("{:?}", left);
    println!("{:?}", right);

    assert_eq!(left.p.0, x.p.0);
    assert_eq!(left.p.1, x.p.1);
    assert_eq!(left.v.0, x.v.0 / 2);
    assert_eq!(left.v.1, x.v.1);

    assert_eq!(right.p.0, x.p.0 + 4);
    assert_eq!(right.p.1, x.p.1);
    assert_eq!(right.v.0, x.v.0 / 2);
    assert_eq!(right.v.1, x.v.1);
}

#[test]
fn quadtree_corners() {
    let x = Patch::new((10, 0), (22, 8));
    let (a, b, c, d) = x.get_corners();
    assert_eq!(a, (10, 0));
    assert_eq!(b, (10, 8));
    assert_eq!(c, (32, 0));
    assert_eq!(d, (32, 8));

    let x = Patch::new((0, 0), (8, 8));
    let (a, b, c, d) = x.get_corners();
    assert_eq!(a, (0, 0));
    assert_eq!(b, (0, 8));
    assert_eq!(c, (8, 0));
    assert_eq!(d, (8, 8));
}

#[test]
fn quadtree_search() {
    println!("check recursion1");

    let x = Patch::new((0, 0), (8, 8));
    {
        let res = quadtree::test(4, x, &|p: Patch| {
            println!("\ttest {:?} ", p);
            TestResult::Discard
        });
        print_patches(&res);
        assert_eq!(res.len(), 0);
    }

    {
        let res = quadtree::test(4, x, &|p: Patch| {
            println!("\ttest {:?} ", p);
            TestResult::Take
        });
        print_patches(&res);
        assert_eq!(res.len(), 1);
    }

    {
        let res = quadtree::test(2, x, &|p: Patch| {
            println!("\ttest {:?} ", p);
            TestResult::Refine
        });
        print_patches(&res);
        assert_eq!(res.len(), 4 * 4);
    }

    {
        let res = quadtree::test(4, x, &|p: Patch| {
            println!("\ttest {:?} ", p);
            TestResult::Refine
        });
        print_patches(&res);
        assert_eq!(res.len(), 2 * 2);
    }
}

#[test]
fn split_coverage_samples() {
    for (w, h) in [(8u32, 8u32), (7, 9), (1, 1), (100, 33), (2, 5)] {
        let x = Patch::new((3, 4), (w, h));
        let (down, up) = x.split_v();
        assert_eq!(down.v.0, w);
        assert_eq!(up.v.0, w);
        assert_eq!(down.v.1 + up.v.1, h);
        assert_eq!(up.p.1, down.p.1 + down.v.1);
        let (left, right) = x.split_h();
        assert_eq!(left.v.1, h);
        assert_eq!(right.v.1, h);
        assert_eq!(left.v.0 + right.v.0, w);
        assert_eq!(right.p.0, left.p.0 + left.v.0);
    }
}

#[test]
fn search_is_deterministic() {
    let x = Patch::new((0, 0), (64, 64));
    let classify = |p: Patch| {
        if p.p.0 + p.v.0 < 20 {
            TestResult::Discard
        } else {
            TestResult::Refine
        }
    };
    let r1 = quadtree::test(4, x, &classify);
    let r2 = quadtree::test(4, x, &classify);
    assert_eq!(r1.len(), r2.len());
    for k in 0..r1.len() {
        assert_eq!(r1[k], r2[k]);
    }
}

#[test]
fn search_mixed_verdicts() {
    // A classifier that discards the lower half of the grid outright:
    // every returned patch lies in the upper half.
    let x = Patch::new((0, 0), (16, 16));
    let res = quadtree::test(4, x, &|p: Patch| {
        if p.p.1 + p.v.1 <= 8 {
            TestResult::Discard
        } else {
            TestResult::Refine
        }
    });
    assert!(res.len() > 0);
    for p in &res {
        assert!(p.p.1 + p.v.1 > 8);
    }
}
