use moonfire_db::ids::{CompositeId, StreamType};

#[test]
fn composite_id_parts() {
    let id = CompositeId::new(3, 7);
    assert_eq!(id.0, (3i64 << 32) + 7);
    assert_eq!(id.stream(), 3);
    assert_eq!(id.recording(), 7);
    assert_eq!(id.to_string(), "3/7");
    assert_eq!(CompositeId::new(-3, 7).stream(), -3);
    assert_eq!(CompositeId::new(3, -7).0, -7);
    assert_eq!(CompositeId(i64::MIN).to_string(), "-2147483648/0");
    assert_eq!(CompositeId(-1).to_string(), "-1/-1");
}


#[test]
fn stream_types() {
    for (i, t) in moonfire_db::ids::ALL_STREAM_TYPES.iter().enumerate() {
        assert_eq!(Some(*t), StreamType::from_index(i));
        assert_eq!(i, t.index());
        assert_eq!(Some(*t), StreamType::parse(t.as_str()));
    }
    assert_eq!("main", StreamType::MAIN.as_str());
    assert_eq!("sub", StreamType::SUB.as_str());
    assert_eq!(None, StreamType::from_index(2));
    assert_eq!(None, StreamType::parse("Main"));
}

#[test]
fn composite_ids_are_in_order_within_a_stream() {
    assert!(CompositeId::new(3, 7).0 < CompositeId::new(3, 8).0);
    assert!(CompositeId::new(3, i32::MAX).0 < CompositeId::new(4, 0).0);
    let last = CompositeId(CompositeId::new(4, 0).0 - 1);
    assert_eq!((3, -1), (last.stream(), last.recording()));
}
