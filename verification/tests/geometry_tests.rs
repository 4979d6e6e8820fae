use shotgun::geometry::Point;
use shotgun::geometry::Rect;

#[test]
fn test_intersection_basic() {
    let a = Rect { x: 0, y: 0, w: 10, h: 10 };
    let b = Rect { x: 5, y: 5, w: 10, h: 10 };
    assert_eq!(a.intersection(b), Some(Rect { x: 5, y: 5, w: 5, h: 5 }));
}

#[test]
fn test_intersection_commutative() {
    let pairs = [
        (Rect { x: 0, y: 0, w: 10, h: 10 }, Rect { x: 5, y: 5, w: 10, h: 10 }),
        (Rect { x: -3, y: -7, w: 20, h: 5 }, Rect { x: 1, y: -9, w: 4, h: 40 }),
        (Rect { x: 0, y: 0, w: 10, h: 10 }, Rect { x: 30, y: 30, w: 2, h: 2 }),
        (Rect { x: 0, y: 0, w: 0, h: 0 }, Rect { x: 0, y: 0, w: 5, h: 5 }),
    ];
    for (a, b) in pairs {
        assert_eq!(a.intersection(b), b.intersection(a));
    }
}

#[test]
fn test_intersection_touching_edges_is_none() {
    let a = Rect { x: 0, y: 0, w: 10, h: 10 };
    let edge = Rect { x: 10, y: 0, w: 10, h: 10 };
    assert_eq!(a.intersection(edge), None);
    let corner = Rect { x: 10, y: 10, w: 10, h: 10 };
    assert_eq!(a.intersection(corner), None);
    let top = Rect { x: 0, y: -10, w: 10, h: 10 };
    assert_eq!(a.intersection(top), None);
}

#[test]
fn test_contains_half_open() {
    let r = Rect { x: 0, y: 0, w: 10, h: 10 };
    assert!(r.contains(Point { x: 9, y: 9 }));
    assert!(!r.contains(Point { x: 10, y: 9 }));
    assert!(!r.contains(Point { x: 9, y: 10 }));
    assert!(r.contains(Point { x: 0, y: 0 }));
    assert!(!r.contains(Point { x: -1, y: 0 }));
}
