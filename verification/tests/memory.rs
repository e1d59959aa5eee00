use indradb::errors::Error;
use indradb::memory::{clock_nanos, MemoryDatastore};
use indradb::models::{Edge, EdgeKey, Type, Vertex, Weight};
use indradb::util::Timestamp;
use std::time::{SystemTime, UNIX_EPOCH};

fn tag(s: &str) -> Type {
    Type::new(s.to_string()).unwrap()
}

fn weight(w: f32) -> Weight {
    Weight::new(w.to_bits()).unwrap()
}

fn key(a: u128, t: &str, b: u128) -> EdgeKey {
    EdgeKey::new(a, tag(t), b)
}

fn ends(edges: &Vec<Edge>) -> Vec<(u128, u128)> {
    edges.iter().map(|e| (e.key.outbound_id, e.key.inbound_id)).collect()
}

fn ids(vertices: &Vec<Vertex>) -> Vec<u128> {
    vertices.iter().map(|v| v.id).collect()
}

fn now_nanos() -> u64 {
    SystemTime::now().duration_since(UNIX_EPOCH).unwrap().as_nanos() as u64
}

fn wait_a_millisecond() {
    let start = now_nanos();
    while now_nanos() < start + 1_000_000 {}
}

fn store_with_vertices(count: u128) -> MemoryDatastore {
    let mut store = MemoryDatastore::new();
    for id in 1..=count {
        store.set_vertex(id, tag("v"));
    }
    store
}

#[test]
fn created_vertex_is_found_until_deleted() {
    let mut store = MemoryDatastore::new();
    let id = store.create_vertex(tag("person")).unwrap();
    let v = store.get_vertex(id).unwrap();
    assert_eq!(v.id, id);
    assert_eq!(v.t.as_str(), "person");
    assert!(store.has_vertex(id));
    store.delete_vertex(id);
    assert!(matches!(store.get_vertex(id), Err(Error::VertexNotFound)));
    assert!(!store.has_vertex(id));
    store.delete_vertex(id);
    assert!(!store.has_vertex(id));
}

#[test]
fn created_vertices_have_identifiers_of_their_own() {
    let mut store = MemoryDatastore::new();
    let mut seen = Vec::new();
    for _ in 0..50 {
        let id = store.create_vertex(tag("v")).unwrap();
        assert!(!seen.contains(&id));
        seen.push(id);
    }
    assert_eq!(store.get_vertex_range(0, 100).len(), 50);
}

#[test]
fn insert_vertex_refuses_an_identifier_in_use() {
    let mut store = MemoryDatastore::new();
    assert!(store.insert_vertex(5, tag("a")).is_ok());
    assert!(matches!(store.insert_vertex(5, tag("b")), Err(Error::UuidTaken)));
    assert_eq!(store.get_vertex(5).unwrap().t.as_str(), "a");
    assert_eq!(Error::UuidTaken.message(), "UUID already taken");
}

#[test]
fn set_vertex_creates_or_replaces() {
    let mut store = MemoryDatastore::new();
    store.set_vertex(9, tag("a"));
    assert_eq!(store.get_vertex(9).unwrap().t.as_str(), "a");
    store.set_vertex(9, tag("b"));
    assert_eq!(store.get_vertex(9).unwrap().t.as_str(), "b");
    assert_eq!(ids(&store.get_vertex_range(0, 10)), vec![9]);
}

#[test]
fn vertex_range_is_ascending_from_the_start() {
    let mut store = MemoryDatastore::new();
    for id in [30u128, 10, 50, 20, 40, u128::MAX, 0] {
        store.set_vertex(id, tag("v"));
    }
    assert_eq!(ids(&store.get_vertex_range(0, 10)), vec![0, 10, 20, 30, 40, 50, u128::MAX]);
    assert_eq!(ids(&store.get_vertex_range(20, 2)), vec![20, 30]);
    assert_eq!(ids(&store.get_vertex_range(21, 2)), vec![30, 40]);
    assert_eq!(ids(&store.get_vertex_range(51, 10)), vec![u128::MAX]);
    assert!(store.get_vertex_range(0, 0).is_empty());
    assert_eq!(ids(&store.get_vertex_range(u128::MAX, 5)), vec![u128::MAX]);
}

#[test]
fn edge_between_two_people() {
    let mut store = MemoryDatastore::new();
    let v1 = store.create_vertex(tag("person")).unwrap();
    let v2 = store.create_vertex(tag("person")).unwrap();
    let before = now_nanos();
    store.set_edge(key(v1, "knows", v2), weight(0.5)).unwrap();
    let e = store.get_edge(&key(v1, "knows", v2)).unwrap();
    assert_eq!(f32::from_bits(e.weight.bits()), 0.5);
    assert!(e.updated_at >= before);
    assert_eq!(store.get_edge_count(v1, Some(tag("knows"))), 1);

    store.delete_vertex(v2);
    assert!(matches!(store.get_edge(&key(v1, "knows", v2)), Err(Error::VertexNotFound)));
    assert_eq!(store.get_edge_count(v1, Some(tag("knows"))), 0);
}

#[test]
fn set_edge_needs_both_ends() {
    let mut store = store_with_vertices(1);
    assert!(matches!(store.set_edge(key(1, "t", 2), weight(0.1)), Err(Error::VertexNotFound)));
    assert!(matches!(store.set_edge(key(2, "t", 1), weight(0.1)), Err(Error::VertexNotFound)));
    assert!(matches!(store.set_edge_at(key(3, "t", 4), weight(0.1), 5), Err(Error::VertexNotFound)));
    assert_eq!(store.get_edge_count(1, None), 0);
    assert_eq!(store.get_reversed_edge_count(1, None), 0);
    assert!(store.set_edge(key(1, "t", 1), weight(0.1)).is_ok());
    assert_eq!(store.get_edge_count(1, None), 1);
    assert_eq!(Error::VertexNotFound.message(), "vertex does not exist");
}

#[test]
fn get_edge_tells_a_missing_edge_from_a_missing_end() {
    let store = store_with_vertices(2);
    assert!(matches!(store.get_edge(&key(1, "t", 2)), Err(Error::EdgeNotFound)));
    assert!(matches!(store.get_edge(&key(1, "t", 3)), Err(Error::VertexNotFound)));
}

#[test]
fn set_edge_replaces_weight_and_moves_the_stamp_forward() {
    let mut store = store_with_vertices(2);
    store.set_edge_at(key(1, "t", 2), weight(0.25), 100).unwrap();
    let e = store.get_edge(&key(1, "t", 2)).unwrap();
    assert_eq!((f32::from_bits(e.weight.bits()), e.updated_at), (0.25, 100));

    store.set_edge_at(key(1, "t", 2), weight(-1.0), 200).unwrap();
    let e = store.get_edge(&key(1, "t", 2)).unwrap();
    assert_eq!((f32::from_bits(e.weight.bits()), e.updated_at), (-1.0, 200));

    // The clock has not moved: the stamp grows by the smallest step.
    store.set_edge_at(key(1, "t", 2), weight(0.0), 200).unwrap();
    assert_eq!(store.get_edge(&key(1, "t", 2)).unwrap().updated_at, 201);
    // The clock has gone back: the stamp still grows.
    store.set_edge_at(key(1, "t", 2), weight(0.0), 7).unwrap();
    assert_eq!(store.get_edge(&key(1, "t", 2)).unwrap().updated_at, 202);
    // The stamp cannot grow past the greatest time.
    store.set_edge_at(key(1, "t", 2), weight(0.0), u64::MAX).unwrap();
    store.set_edge_at(key(1, "t", 2), weight(0.0), 5).unwrap();
    assert_eq!(store.get_edge(&key(1, "t", 2)).unwrap().updated_at, u64::MAX);

    assert_eq!(store.get_edge_count(1, None), 1);
    assert_eq!(store.get_reversed_edge_count(2, None), 1);
    assert_eq!(store.get_edge_range(1, None, 0, 10).len(), 1);
}

#[test]
fn successive_writes_never_turn_the_stamp_back() {
    let mut store = store_with_vertices(2);
    let mut last = 0;
    for _ in 0..200 {
        store.set_edge(key(1, "t", 2), weight(0.5)).unwrap();
        let stamp = store.get_edge(&key(1, "t", 2)).unwrap().updated_at;
        assert!(stamp > last);
        last = stamp;
    }
}

#[test]
fn range_lists_newest_first() {
    let mut store = store_with_vertices(3);
    store.set_edge(key(1, "t", 2), weight(0.0)).unwrap();
    wait_a_millisecond();
    store.set_edge(key(1, "t", 3), weight(0.0)).unwrap();
    let found = store.get_edge_range(1, Some(tag("t")), 0, 10);
    assert_eq!(ends(&found), vec![(1, 3), (1, 2)]);
    assert!(found[0].updated_at > found[1].updated_at);

    let reversed = store.get_reversed_edge_range(3, None, 0, 10);
    assert_eq!(ends(&reversed), vec![(1, 3)]);
}

#[test]
fn time_range_is_bounded_above_and_below() {
    let mut store = store_with_vertices(3);
    store.set_edge(key(1, "t", 2), weight(0.0)).unwrap();
    wait_a_millisecond();
    store.set_edge(key(1, "t", 3), weight(0.0)).unwrap();
    let first = store.get_edge(&key(1, "t", 2)).unwrap().updated_at;
    let second = store.get_edge(&key(1, "t", 3)).unwrap().updated_at;
    let now = now_nanos();
    let both = store.get_edge_time_range(1, Some(tag("t")), Some(now), Some(now - 10_000_000), 10);
    assert_eq!(ends(&both), vec![(1, 3), (1, 2)]);
    let between = first + (second - first) / 2;
    let later = store.get_edge_time_range(1, Some(tag("t")), Some(now), Some(between), 10);
    assert_eq!(ends(&later), vec![(1, 3)]);
}

#[test]
fn time_range_takes_the_upper_bound_in_and_leaves_the_lower_out() {
    let mut store = store_with_vertices(4);
    store.set_edge_at(key(1, "t", 2), weight(0.0), 100).unwrap();
    store.set_edge_at(key(1, "t", 3), weight(0.0), 200).unwrap();
    store.set_edge_at(key(1, "t", 4), weight(0.0), 300).unwrap();
    let t = || Some(tag("t"));
    assert_eq!(ends(&store.get_edge_time_range(1, t(), None, None, 10)), vec![(1, 4), (1, 3), (1, 2)]);
    assert_eq!(ends(&store.get_edge_time_range(1, t(), Some(300), Some(100), 10)), vec![(1, 4), (1, 3)]);
    assert_eq!(ends(&store.get_edge_time_range(1, t(), Some(299), Some(99), 10)), vec![(1, 3), (1, 2)]);
    assert_eq!(ends(&store.get_edge_time_range(1, t(), Some(200), None, 10)), vec![(1, 3), (1, 2)]);
    assert_eq!(ends(&store.get_edge_time_range(1, t(), None, Some(200), 10)), vec![(1, 4)]);
    assert_eq!(ends(&store.get_edge_time_range(1, t(), None, None, 2)), vec![(1, 4), (1, 3)]);
    assert!(store.get_edge_time_range(1, t(), Some(100), Some(300), 10).is_empty());
    assert!(store.get_edge_time_range(1, t(), Some(200), Some(200), 10).is_empty());
    assert!(store.get_edge_time_range(1, t(), None, None, 0).is_empty());
    assert_eq!(
        ends(&store.get_reversed_edge_time_range(3, None, Some(200), Some(199), 10)),
        vec![(1, 3)]
    );
    assert!(store.get_reversed_edge_time_range(3, None, Some(199), None, 10).is_empty());
}

#[test]
fn range_returns_the_k_newest_of_each_prefix_of_writes() {
    let mut store = store_with_vertices(9);
    let mut written: Vec<(u128, u128)> = Vec::new();
    for (step, inbound) in (2u128..=9).enumerate() {
        store.set_edge_at(key(1, "t", inbound), weight(0.0), 1000 + step as u64).unwrap();
        written.insert(0, (1, inbound));
        for k in 0..=written.len() + 1 {
            let found = store.get_edge_range(1, Some(tag("t")), 0, k as u16);
            let expected: Vec<(u128, u128)> = written.iter().take(k).cloned().collect();
            assert_eq!(ends(&found), expected);
        }
    }
    // Writing an old edge again makes it the newest.
    store.set_edge_at(key(1, "t", 2), weight(0.0), 5000).unwrap();
    assert_eq!(ends(&store.get_edge_range(1, Some(tag("t")), 0, 2)), vec![(1, 2), (1, 9)]);
    assert_eq!(store.get_edge_count(1, Some(tag("t"))), 8);
}

#[test]
fn edges_of_one_time_are_listed_by_their_other_end() {
    let mut store = store_with_vertices(5);
    for inbound in [4u128, 2, 5, 3] {
        store.set_edge_at(key(1, "t", inbound), weight(0.0), 77).unwrap();
    }
    assert_eq!(
        ends(&store.get_edge_range(1, Some(tag("t")), 0, 10)),
        vec![(1, 2), (1, 3), (1, 4), (1, 5)]
    );
    for outbound in [4u128, 2, 5, 3] {
        store.set_edge_at(key(outbound, "t", 1), weight(0.0), 77).unwrap();
    }
    assert_eq!(
        ends(&store.get_reversed_edge_range(1, Some(tag("t")), 0, 10)),
        vec![(2, 1), (3, 1), (4, 1), (5, 1)]
    );
}

#[test]
fn range_without_type_goes_type_by_type() {
    let mut store = store_with_vertices(4);
    store.set_edge_at(key(1, "b", 2), weight(0.0), 400).unwrap();
    store.set_edge_at(key(1, "a", 3), weight(0.0), 100).unwrap();
    store.set_edge_at(key(1, "a", 4), weight(0.0), 200).unwrap();
    store.set_edge_at(key(1, "ab", 2), weight(0.0), 300).unwrap();
    store.set_edge_at(key(2, "a", 1), weight(0.0), 500).unwrap();
    let found = store.get_edge_range(1, None, 0, 10);
    let listed: Vec<(String, u128)> =
        found.iter().map(|e| (e.key.t.as_str().to_string(), e.key.inbound_id)).collect();
    assert_eq!(
        listed,
        vec![
            ("a".to_string(), 4),
            ("a".to_string(), 3),
            ("ab".to_string(), 2),
            ("b".to_string(), 2)
        ]
    );
    assert_eq!(store.get_edge_count(1, None), 4);
    assert_eq!(store.get_edge_count(1, Some(tag("a"))), 2);
    assert_eq!(store.get_edge_count(1, Some(tag("c"))), 0);
    assert_eq!(store.get_reversed_edge_count(2, None), 2);
    assert_eq!(store.get_reversed_edge_count(2, Some(tag("ab"))), 1);
}

#[test]
fn offset_and_limit_cut_a_page() {
    let mut store = store_with_vertices(6);
    for inbound in 2u128..=6 {
        store.set_edge_at(key(1, "t", inbound), weight(0.0), inbound as u64).unwrap();
    }
    let t = || Some(tag("t"));
    assert_eq!(ends(&store.get_edge_range(1, t(), 0, 2)), vec![(1, 6), (1, 5)]);
    assert_eq!(ends(&store.get_edge_range(1, t(), 2, 2)), vec![(1, 4), (1, 3)]);
    assert_eq!(ends(&store.get_edge_range(1, t(), 4, 2)), vec![(1, 2)]);
    assert!(store.get_edge_range(1, t(), 5, 2).is_empty());
    assert!(store.get_edge_range(1, t(), 6, 2).is_empty());
    assert!(store.get_edge_range(1, t(), u64::MAX, u16::MAX).is_empty());
    assert!(store.get_edge_range(1, t(), 0, 0).is_empty());
    assert!(store.get_edge_range(1, t(), 3, 0).is_empty());
    assert_eq!(store.get_edge_range(1, t(), 0, u16::MAX).len(), 5);
    assert!(store.get_edge_range(7, t(), 0, 10).is_empty());
}

#[test]
fn count_is_the_length_of_the_full_range() {
    let mut store = store_with_vertices(5);
    let mut clock = 0;
    for (a, t, b) in [(1, "t", 2), (1, "t", 3), (1, "u", 2), (2, "t", 1), (3, "t", 1), (1, "t", 1)] {
        clock += 1;
        store.set_edge_at(key(a, t, b), weight(0.0), clock).unwrap();
    }
    for anchor in 0u128..=5 {
        for t in [None, Some("t"), Some("u"), Some("x")] {
            let tagged = || t.map(tag);
            assert_eq!(
                store.get_edge_count(anchor, tagged()),
                store.get_edge_range(anchor, tagged(), 0, u16::MAX).len() as u64
            );
            assert_eq!(
                store.get_reversed_edge_count(anchor, tagged()),
                store.get_reversed_edge_range(anchor, tagged(), 0, u16::MAX).len() as u64
            );
        }
    }
}

#[test]
fn forward_and_reverse_queries_agree() {
    let mut store = store_with_vertices(4);
    let mut clock = 0;
    for a in 1u128..=4 {
        for b in 1u128..=4 {
            if (a + b) % 3 != 0 {
                clock += 1;
                store.set_edge_at(key(a, if a < b { "x" } else { "y" }, b), weight(0.0), clock).unwrap();
            }
        }
    }
    for a in 1u128..=4 {
        for e in store.get_edge_range(a, None, 0, u16::MAX) {
            let back = store.get_reversed_edge_range(e.key.inbound_id, None, 0, u16::MAX);
            assert!(back.iter().any(|r| *r == e && r.updated_at == e.updated_at));
            let back = store.get_reversed_edge_range(
                e.key.inbound_id,
                Some(e.key.t.duplicate()),
                0,
                u16::MAX,
            );
            assert!(back.contains(&e));
        }
    }
    for b in 1u128..=4 {
        for e in store.get_reversed_edge_range(b, None, 0, u16::MAX) {
            assert!(store.get_edge_range(e.key.outbound_id, None, 0, u16::MAX).contains(&e));
        }
    }
}

#[test]
fn deleting_a_vertex_removes_its_edges_on_both_sides() {
    let mut store = store_with_vertices(3);
    let mut clock = 0;
    for (a, b) in [(1, 2), (2, 1), (2, 3), (3, 2), (1, 3), (2, 2)] {
        clock += 1;
        store.set_edge_at(key(a, "t", b), weight(0.0), clock).unwrap();
    }
    store.delete_vertex(2);
    assert_eq!(ends(&store.get_edge_range(1, None, 0, 10)), vec![(1, 3)]);
    assert_eq!(ends(&store.get_reversed_edge_range(3, None, 0, 10)), vec![(1, 3)]);
    assert!(store.get_edge_range(3, None, 0, 10).is_empty());
    assert!(store.get_reversed_edge_range(1, None, 0, 10).is_empty());
    assert_eq!(store.get_edge_count(2, None), 0);
    assert_eq!(store.get_reversed_edge_count(2, None), 0);
    assert_eq!(store.get_edge_count(1, None), 1);
    assert!(matches!(store.get_edge(&key(1, "t", 2)), Err(Error::VertexNotFound)));
    assert!(store.get_edge(&key(1, "t", 3)).is_ok());
    // A vertex made anew under the old identifier has no edges.
    store.set_vertex(2, tag("v"));
    assert_eq!(store.get_edge_count(2, None), 0);
    assert!(matches!(store.get_edge(&key(1, "t", 2)), Err(Error::EdgeNotFound)));
}

#[test]
fn deleting_an_edge_removes_it_from_every_query() {
    let mut store = store_with_vertices(3);
    store.set_edge_at(key(1, "t", 2), weight(0.0), 1).unwrap();
    store.set_edge_at(key(1, "t", 3), weight(0.0), 2).unwrap();
    store.delete_edge(&key(1, "t", 2));
    assert!(matches!(store.get_edge(&key(1, "t", 2)), Err(Error::EdgeNotFound)));
    assert_eq!(ends(&store.get_edge_range(1, None, 0, 10)), vec![(1, 3)]);
    assert!(store.get_reversed_edge_range(2, None, 0, 10).is_empty());
    assert_eq!(store.get_edge_count(1, None), 1);
    store.delete_edge(&key(1, "t", 2));
    store.delete_edge(&key(1, "nothing", 9));
    assert_eq!(store.get_edge_count(1, None), 1);
}

#[test]
fn clock_readings_out_of_range_are_pinned() {
    assert_eq!(clock_nanos(&Timestamp { seconds: 61, nanoseconds: 62 }), 61_000_000_062);
    assert_eq!(clock_nanos(&Timestamp { seconds: -5, nanoseconds: 1 }), 0);
    assert_eq!(clock_nanos(&Timestamp { seconds: i64::MAX, nanoseconds: 1 }), u64::MAX);
}

#[test]
fn creation_succeeds_in_an_empty_datastore_with_a_random_identifier() {
    for _ in 0..20 {
        let mut store = MemoryDatastore::new();
        let id = store.create_vertex(tag("v")).unwrap();
        assert_eq!((id >> 76) & 0xf, 4);
        assert_eq!((id >> 62) & 0x3, 2);
        assert_eq!(ids(&store.get_vertex_range(0, 10)), vec![id]);
    }
    // Identifiers that no draw can give do not stand in the way.
    let mut store = MemoryDatastore::new();
    for id in 0u128..50 {
        store.set_vertex(id, tag("v"));
    }
    store.set_vertex(u128::MAX, tag("v"));
    for _ in 0..20 {
        assert!(store.create_vertex(tag("v")).is_ok());
    }
    assert_eq!(store.get_vertex_range(0, 100).len(), 71);
}
