use navira_car::wire::index::IndexType;

#[test]
fn index_type_codes() {
    assert_eq!(IndexType::from_u64(0x0400), Some(IndexType::IndexSorted));
    assert_eq!(IndexType::from_u64(0x0401), Some(IndexType::MultihashIndexSorted));
    assert_eq!(IndexType::from_u64(0x0402), None);
    assert_eq!(IndexType::MultihashIndexSorted.code(), 0x0401);
}
