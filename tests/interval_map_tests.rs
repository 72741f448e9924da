use allocators::interval_map::{
    everything, interval, split, Bounded, FixedUnsigned, HashIntervalMap, Interval, IntervalIter,
    IntervalMap, IntervalMapIter, TreeIntervalMap,
};
use rand::{Rng, SeedableRng};

fn count<T: FixedUnsigned>(mut it: IntervalIter<T>) -> usize {
    let mut n = 0;
    while it.next().is_some() {
        n += 1;
    }
    n
}

fn last<T: FixedUnsigned>(mut it: IntervalIter<T>) -> Option<T> {
    let mut last = None;
    while let Some(x) = it.next() {
        last = Some(x);
    }
    last
}

#[test]
fn interval_iter_test() {
    println!("{:?}", everything::<u8>());
    assert_eq!(count(everything::<u8>()), 256);
    assert_eq!(everything::<u8>().next(), Some(0u8));
    assert_eq!(last(everything::<u8>()), Some(255u8));

    assert_eq!(count(interval(10u8, 20u8).iter()), 11);
    assert_eq!(interval(10u8, 20u8).iter().next(), Some(10u8));
    assert_eq!(last(interval(10u8, 20u8).iter()), Some(20u8));
}

#[derive(Debug, PartialEq, PartialOrd, Ord, Eq)]
enum Tree {
    Node(Box<Tree>, Box<Tree>),
    Bottom,
    Top,
}

fn make_tree<T: FixedUnsigned>(int: Option<Interval<T>>) -> Tree {
    match int {
        None => Tree::Bottom,
        Some(int) => {
            if int.front.same(T::zero()) && int.back.same(T::max_value()) {
                Tree::Top
            } else {
                let (left, right) = split(int);
                Tree::Node(Box::new(make_tree(left)), Box::new(make_tree(right)))
            }
        }
    }
}

fn do_test(front: u8, back: u8) -> Tree {
    make_tree(Some(Interval { front, back }))
}

fn top() -> Tree {
    Tree::Top
}

fn bottom() -> Tree {
    Tree::Bottom
}

fn node(x: Tree, y: Tree) -> Tree {
    Tree::Node(Box::new(x), Box::new(y))
}

#[test]
fn test_split() {
    assert_eq!(do_test(0, 255), top());
    assert_eq!(do_test(0, 127), node(top(), bottom()));
    assert_eq!(do_test(128, 255), node(bottom(), top()));
    assert_eq!(do_test(64, 191), node(node(bottom(), top()), node(top(), bottom())));
    assert_eq!(
        do_test(0, 0),
        node(
            node(
                node(
                    node(node(node(node(node(top(), bottom()), bottom()), bottom()), bottom()), bottom()),
                    bottom()
                ),
                bottom()
            ),
            bottom()
        )
    );
    assert_eq!(
        do_test(255, 255),
        node(
            bottom(),
            node(
                bottom(),
                node(
                    bottom(),
                    node(bottom(), node(bottom(), node(bottom(), node(bottom(), node(bottom(), top())))))
                )
            )
        )
    );
}

#[test]
fn simple_interval_map_test() {
    let mut map: TreeIntervalMap<u8, u8> = TreeIntervalMap::new();
    let int = interval(4, 199);
    map.fill(int, Some(1));
    let mut all = everything::<u8>();
    while let Some(x8) = all.next() {
        if int.contains(x8) {
            assert!(map.get(x8) == Some(1));
        } else {
            assert!(map.get(x8) == None);
        }
    }
}

#[test]
fn fill_then_runs_scenario() {
    let mut map: TreeIntervalMap<u8, u8> = TreeIntervalMap::new();
    map.fill(interval(4, 199), Some(1));
    for k in 0..=255u8 {
        let expected = if (4..=199).contains(&k) { Some(1) } else { None };
        assert_eq!(map.get(k), expected);
    }
    assert_eq!(map.get_interval(100), (interval(4, 199), Some(1)));
    assert_eq!(map.get_interval(0), (interval(0, 3), None));
    assert_eq!(map.get_interval(255), (interval(200, 255), None));
}

#[test]
fn coalesce_across_the_middle() {
    let mut map: TreeIntervalMap<u8, u8> = TreeIntervalMap::new();
    map.fill(interval(0, 127), Some(5));
    map.fill(interval(64, 191), Some(5));
    assert_eq!(map.get_interval(100), (interval(0, 191), Some(5)));
    assert_eq!(map.get_interval(10), (interval(0, 191), Some(5)));
    assert_eq!(map.get_interval(192), (interval(192, 255), None));
}

#[test]
fn full_fill_is_one_run() {
    let mut map: TreeIntervalMap<u16, u32> = TreeIntervalMap::new();
    map.fill(interval(7, 9000), Some(3));
    map.fill(interval(0, u16::MAX), Some(8));
    assert_eq!(map.get_interval(12345), (interval(0, u16::MAX), Some(8)));
    map.fill(interval(0, u16::MAX), None);
    assert_eq!(map.get_interval(1), (interval(0, u16::MAX), None));
}

#[test]
fn last_fill_wins() {
    let mut map: TreeIntervalMap<u8, u32> = TreeIntervalMap::new();
    map.fill(interval(10, 100), Some(1));
    map.fill(interval(50, 150), Some(2));
    map.fill(interval(60, 70), None);
    map.fill(interval(0, 20), Some(3));
    for k in 0..=255u8 {
        let expected = if k <= 20 {
            Some(3)
        } else if (60..=70).contains(&k) {
            None
        } else if (50..=150).contains(&k) {
            Some(2)
        } else if (10..=100).contains(&k) {
            Some(1)
        } else {
            None
        };
        assert_eq!(map.get(k), expected, "key {}", k);
    }
}

#[test]
fn get_first_finds_leftmost_live_run() {
    let mut map: TreeIntervalMap<usize, u8> = TreeIntervalMap::new();
    assert_eq!(map.get_first(interval(0, 1000)), None);
    map.fill(interval(300, 400), Some(9));
    map.fill(interval(500, 600), Some(4));
    assert_eq!(map.get_first(interval(0, 1000)), Some((interval(300, 400), 9)));
    assert_eq!(map.get_first(interval(350, 1000)), Some((interval(300, 400), 9)));
    assert_eq!(map.get_first(interval(401, 1000)), Some((interval(500, 600), 4)));
    assert_eq!(map.get_first(interval(401, 499)), None);
}

#[test]
fn run_iterator_walks_every_run() {
    let mut map: TreeIntervalMap<u8, u8> = TreeIntervalMap::new();
    map.fill(interval(10, 19), Some(1));
    map.fill(interval(20, 29), Some(2));
    let mut it = IntervalMapIter::new(&map, 0u8);
    let mut runs = Vec::new();
    while let Some(run) = it.next() {
        runs.push(run);
    }
    assert_eq!(
        runs,
        vec![
            (interval(0, 9), None),
            (interval(10, 19), Some(1)),
            (interval(20, 29), Some(2)),
            (interval(30, 255), None)
        ]
    );
}

#[test]
fn interval_helpers() {
    assert_eq!(interval(10u8, 20u8).len(), Some(11));
    assert_eq!(interval(0u8, 255u8).len(), None);
    assert!(interval(10u8, 20u8).subset(interval(5, 20)));
    assert!(!interval(10u8, 21u8).subset(interval(5, 20)));
    assert!(interval(10u8, 20u8).contains(20));
    assert!(!interval(10u8, 20u8).contains(21));
    assert_eq!(<u8 as Bounded>::max_value(), 255);
}

#[test]
fn tree_vs_hash_test() {
    let mut rng = rand::rngs::StdRng::seed_from_u64(10);
    let mut counter = 0u32;
    let mut tree: TreeIntervalMap<u8, u32> = TreeIntervalMap::new();
    let mut hash: HashIntervalMap<u8, u32> = HashIntervalMap::new();
    for _ in 0u32..10 {
        let mut front = rng.gen::<u8>();
        let mut back = rng.gen::<u8>();
        if back < front {
            std::mem::swap(&mut front, &mut back);
        }
        let int = interval(front, back);
        let value = counter;
        counter = counter + 1;
        tree.fill(int, Some(value));
        hash.fill(int, Some(value));
        let mut keys = int.iter();
        while let Some(i) = keys.next() {
            assert_eq!(tree.get(i), Some(value));
            assert_eq!(hash.get(i), Some(value));
            assert_eq!(tree.get_interval(i), (int, Some(value)));
            assert_eq!(hash.get_interval(i), (int, Some(value)));
        }
        let mut all = everything::<u8>();
        while let Some(i) = all.next() {
            assert_eq!(tree.get(i), hash.get(i));
            assert_eq!(tree.get_interval(i), hash.get_interval(i));
            assert_eq!(tree.get_first(interval(i, 255)), hash.get_first(interval(i, 255)));
        }
    }
}
