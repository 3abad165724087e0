use bevy_replicon::mutate_index::MutateIndex;

#[test]
fn advance() {
    let mut index = MutateIndex(u16::MAX - 1);

    assert_eq!(index.advance(), MutateIndex(u16::MAX - 1));
    assert_eq!(index, MutateIndex(u16::MAX));

    assert_eq!(index.advance(), MutateIndex(u16::MAX));
    assert_eq!(index, MutateIndex(0));
}

#[test]
fn mutate_index_default_is_zero() {
    let mut index = MutateIndex::default();
    assert_eq!(index.advance(), MutateIndex(0));
    assert_eq!(index, MutateIndex(1));
}
