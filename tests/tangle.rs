use bee_core::ids::MessageId;
use bee_core::ms_tangle::{Milestone, MsTangle};
use bee_core::tangle::{IndexId, MessageMetadata, Tangle, DEFAULT_CACHE_LEN, MIN_CACHE_LEN};

fn id(b: u8) -> MessageId {
    MessageId::new([b; 32])
}

#[test]
fn approver_insert() {
    let mut t = Tangle::new(10);
    t.insert(id(1), id(2), id(3), MessageMetadata::arrived(0)).unwrap();
    t.insert(id(4), id(2), id(5), MessageMetadata::arrived(0)).unwrap();
    let a = t.fetch_approvers(&id(2));
    assert_eq!(a.len(), 2);
    assert!(a.contains(&id(1)) && a.contains(&id(4)));
    assert_eq!(t.fetch_approvers(&id(3)), vec![id(1)]);
    assert!(t.fetch_approvers(&id(1)).is_empty());
}

#[test]
fn insert_is_idempotent() {
    let mut t = Tangle::new(10);
    assert!(t.insert(id(1), id(2), id(3), MessageMetadata::arrived(0)).is_some());
    assert!(t.insert(id(1), id(2), id(3), MessageMetadata::arrived(5)).is_none());
    assert_eq!(t.len(), 1);
    assert_eq!(t.get_metadata(&id(1)).unwrap().arrival_timestamp, 0);
}

#[test]
fn cache_bound_and_eviction_order() {
    let mut t = Tangle::new(2);
    t.insert(id(1), id(0), id(0), MessageMetadata::arrived(1)).unwrap();
    t.insert(id(2), id(0), id(0), MessageMetadata::arrived(2)).unwrap();
    let evicted = t.insert(id(3), id(0), id(0), MessageMetadata::arrived(3)).unwrap();
    assert_eq!(t.len(), 2);
    assert_eq!(evicted.len(), 1);
    assert_eq!(evicted[0].0, id(1));
    assert!(!t.contains(&id(1)) && t.contains(&id(3)));
    assert_eq!(t.fetch_approvers(&id(0)).len(), 3);
    let evicted = t.resize(1);
    assert_eq!(t.len(), 1);
    assert_eq!(evicted[0].0, id(2));
    assert!(t.contains(&id(3)));
}

#[test]
fn zero_capacity_caches_nothing_but_records_approvers() {
    let mut t = Tangle::new(0);
    t.insert(id(1), id(2), id(3), MessageMetadata::arrived(0)).unwrap();
    assert_eq!(t.len(), 0);
    assert_eq!(t.fetch_approvers(&id(2)), vec![id(1)]);
}

#[test]
fn resize_follows_sync_gap() {
    let mut t = MsTangle::new();
    t.update_latest_milestone_index(100);
    t.update_solid_milestone_index(0);
    assert_eq!(t.tangle().capacity(), 51_000);
    t.update_solid_milestone_index(100);
    assert_eq!(t.tangle().capacity(), MIN_CACHE_LEN);
    t.update_latest_milestone_index(10_000);
    t.update_solid_milestone_index(0);
    assert_eq!(t.tangle().capacity(), DEFAULT_CACHE_LEN);
}

#[test]
fn sync_predicates() {
    let mut t = MsTangle::new();
    t.update_latest_milestone_index(10);
    t.update_solid_milestone_index(8);
    t.update_confirmed_milestone_index(7);
    assert_eq!(t.get_sync_threshold(), 2);
    assert!(t.is_synced());
    assert!(!t.is_confirmed());
    assert!(t.is_confirmed_threshold(3));
    t.update_solid_milestone_index(12);
    assert_eq!(t.get_sync_threshold(), 0);
}

#[test]
fn add_milestone_marks_message() {
    let mut t = MsTangle::new();
    t.insert(id(1), id(2), id(3), MessageMetadata::arrived(0)).unwrap();
    t.add_milestone(4, Milestone { message_id: id(1), timestamp: 9 });
    let m = t.tangle().get_metadata(&id(1)).unwrap();
    assert!(m.flags.milestone);
    assert_eq!(m.milestone_index, Some(4));
    assert_eq!(m.omrsi, Some(IndexId { index: 4, id: id(1) }));
    assert_eq!(t.get_milestone_message_id(4), Some(id(1)));
    assert!(t.contains_milestone(4));
    t.remove_milestone(4);
    assert!(!t.contains_milestone(4));
}

#[test]
fn solid_entry_points() {
    let mut t = MsTangle::new();
    t.add_solid_entry_point(id(1), 3);
    assert!(t.is_solid_entry_point(&id(1)));
    assert!(t.is_solid_message(&id(1)));
    assert!(!t.is_solid_message(&id(2)));
    assert_eq!(t.omrsi(&id(1)), Some(IndexId { index: 3, id: id(1) }));
    t.replace_solid_entry_points(&vec![(id(2), 4), (id(2), 5)]);
    assert!(!t.is_solid_entry_point(&id(1)));
    assert_eq!(t.get_solid_entry_point_index(&id(2)), Some(5));
    assert_eq!(t.get_solid_entry_points(), vec![(id(2), 5)]);
    t.clear_solid_entry_points();
    assert!(t.get_solid_entry_points().is_empty());
}

#[test]
fn tips() {
    let mut t = MsTangle::new();
    assert_eq!(t.get_messages_to_approve(), None);
    t.insert_tip(id(1), &vec![id(8), id(9)]);
    t.insert_tip(id(2), &vec![id(1), id(9)]);
    t.insert_tip(id(3), &vec![id(8), id(9)]);
    assert_eq!(t.non_lazy_tips_num(), 2);
    let chosen = t.get_messages_to_approve().unwrap();
    assert_eq!(chosen.len(), 2);
    assert_ne!(chosen[0], chosen[1]);
    t.update_tip_scores();
    assert_eq!(t.non_lazy_tips_num(), 0);
}

#[test]
fn touched_message_is_evicted_last() {
    let mut t = Tangle::new(2);
    t.insert(id(1), id(0), id(0), MessageMetadata::arrived(1)).unwrap();
    t.insert(id(2), id(0), id(0), MessageMetadata::arrived(2)).unwrap();
    t.touch(&id(1));
    let evicted = t.insert(id(3), id(0), id(0), MessageMetadata::arrived(3)).unwrap();
    assert_eq!(evicted.len(), 1);
    assert_eq!(evicted[0].0, id(2));
    assert!(t.contains(&id(1)) && t.contains(&id(3)));
}

#[test]
fn pull_milestone_keeps_registered_entry() {
    let mut t = MsTangle::new();
    assert_eq!(t.pull_milestone(3, None), None);
    assert!(!t.contains_milestone(3));
    assert_eq!(t.pull_milestone(3, Some(Milestone { message_id: id(1), timestamp: 0 })), Some(id(1)));
    assert_eq!(t.pull_milestone(3, Some(Milestone { message_id: id(2), timestamp: 0 })), Some(id(1)));
    assert_eq!(t.get_milestone(3), Some(Milestone { message_id: id(1), timestamp: 0 }));
}
