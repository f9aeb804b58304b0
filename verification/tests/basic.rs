use smallgraph::SmallGraph;

#[derive(Debug, PartialEq)]
struct Foo {
    v: u8,
}

#[test]
fn test_basic_0() {
    let g = SmallGraph::<Foo>::new();
    assert_eq!(0, g.slot_count());
    assert_eq!(0, g.free_count());
    assert_eq!(0, g.connection_count());
}

#[test]
fn test_basic_1() {
    let mut g = SmallGraph::<Foo>::new();
    let f1 = g.insert(Foo { v: 24 });
    let f2 = g.insert(Foo { v: 42 });
    assert_eq!(2, g.slot_count());
    assert_eq!(0, f1.0);
    assert_eq!(0, f1.1);
    assert_eq!(1, f2.0);
    assert_eq!(0, f2.1);
}

#[test]
fn test_basic_2() {
    let mut g = SmallGraph::<Foo>::new();
    let f1 = g.insert(Foo { v: 42 });
    let r = g.remove(f1).expect("could not remove");
    assert_eq!(42, r.v);
    let f2 = g.insert(Foo { v: 55 });
    assert_eq!(0, f2.0);
    assert_eq!(1, f2.1);
    assert_eq!(None, g.get(f1));
    assert_eq!(55, g.get(f2).unwrap().v);
}

#[test]
fn test_basic_3() {
    let mut g = SmallGraph::<Foo>::new();
    let f1 = g.insert(Foo { v: 24 });
    let f2 = g.insert(Foo { v: 42 });
    g.connect(f1, f2);
    assert_eq!(2, g.connection_count());
    assert_eq!((0, 1), g.connection(0).unwrap());
    assert_eq!((1, 0), g.connection(1).unwrap());
}

#[test]
fn test_basic_4() {
    let mut g = SmallGraph::<Foo>::new();
    let f1 = g.insert(Foo { v: 24 });
    let f2 = g.insert(Foo { v: 42 });
    let f3 = g.insert(Foo { v: 33 });
    g.connect_to(f1, f2);
    g.connect_to(f2, f3);
    g.connect_to(f1, f3);
    assert_eq!(3, g.connection_count());
    assert_eq!((0, 1), g.connection(0).unwrap());
    assert_eq!((1, 2), g.connection(1).unwrap());
    g.remove(f2);
    assert_eq!(1, g.connection_count());
    assert_eq!(true, g.is_connected_to(f1, f3));
    assert_eq!(false, g.is_connected_to(f1, f2));
    assert_eq!(false, g.is_connected_to(f2, f3));
}

#[test]
fn test_basic_5() {
    let mut g = SmallGraph::<Foo>::new();
    g.insert(Foo { v: 24 });
    g.insert(Foo { v: 42 });
    let f3 = g.insert(Foo { v: 33 });
    assert_eq!(3, g.node_count());
    g.remove(f3);
    assert_eq!(2, g.node_count());
}
