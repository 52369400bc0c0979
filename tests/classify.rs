use git_stats::{classify, StatusCategory};

#[test]
fn empty_bitset_is_current() {
    assert_eq!(classify(0), vec![StatusCategory::Current]);
}

#[test]
fn single_bits_map_to_their_category() {
    assert_eq!(classify(0x1), vec![StatusCategory::IndexNew]);
    assert_eq!(classify(0x10), vec![StatusCategory::IndexTypeChanged]);
    assert_eq!(classify(0x800), vec![StatusCategory::WorktreeRenamed]);
    assert_eq!(classify(0x8000), vec![StatusCategory::Conflicted]);
}

#[test]
fn every_set_bit_is_reported() {
    assert_eq!(
        classify(0x2 | 0x100),
        vec![StatusCategory::IndexModified, StatusCategory::WorktreeModified]
    );
    assert_eq!(
        classify(0x100 | 0x8000),
        vec![StatusCategory::WorktreeModified, StatusCategory::Conflicted]
    );
}

#[test]
fn unknown_bits_alone_are_unclassified() {
    assert_eq!(classify(0x1000), vec![StatusCategory::Unclassified]);
    assert_eq!(classify(0x20), vec![StatusCategory::Unclassified]);
    assert_eq!(classify(0x8000_0000), vec![StatusCategory::Unclassified]);
}

#[test]
fn unknown_bit_beside_known_one_keeps_known_category() {
    assert_eq!(classify(0x1000 | 0x4), vec![StatusCategory::IndexDeleted]);
}

#[test]
fn classification_never_empty() {
    for bits in [0u32, 1, 0x20, 0x1000, 0xffff, u32::MAX, 0xcf9f] {
        assert!(!classify(bits).is_empty());
    }
    assert_eq!(classify(u32::MAX).len(), 12);
}

