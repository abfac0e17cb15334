use bevy_ggrs::Rollback;
use bevy_ggrs::RollbackIdProvider;

#[test]
fn rollback_tag_keeps_its_id() {
    let tag = Rollback::new(17);
    assert_eq!(tag.id(), 17);
    assert_eq!(Rollback::new(u32::MAX).id(), u32::MAX);
    assert_eq!(Rollback::new(0), Rollback::new(0));
    assert_ne!(Rollback::new(0), Rollback::new(1));
}

#[test]
fn first_id_is_zero() {
    let mut provider = RollbackIdProvider::default();
    assert!(!provider.is_exhausted());
    assert_eq!(provider.next_id(), 0);
    assert_eq!(provider.next_id(), 1);
    assert_eq!(provider.next_id(), 2);
}

#[test]
fn ids_are_distinct_and_strictly_increasing() {
    let mut provider = RollbackIdProvider::default();
    let mut ids: Vec<u32> = Vec::new();
    for _ in 0..1000 {
        assert!(!provider.is_exhausted());
        ids.push(provider.next_id());
    }
    assert_eq!(ids.len(), 1000);
    for pair in ids.windows(2) {
        assert!(pair[0] < pair[1]);
    }
    for (i, id) in ids.iter().enumerate() {
        assert_eq!(*id as usize, i);
    }
}

#[test]
fn next_gives_a_tag_with_the_next_id() {
    let mut provider = RollbackIdProvider::default();
    assert_eq!(provider.next().id(), 0);
    assert_eq!(provider.next_id(), 1);
    assert_eq!(provider.next(), Rollback::new(2));
}
