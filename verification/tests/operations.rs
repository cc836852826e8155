use auth_backend::model::DeleteResult;
use auth_backend::principal::whoami;
use auth_backend::store::Store;
use candid::Principal;

fn alice() -> Principal {
    Principal::from_slice(&[0xa1, 0xa2])
}

fn bob() -> Principal {
    Principal::from_slice(&[0xb1])
}

fn sorted(mut listing: Vec<(u64, String, String, Vec<u8>)>) -> Vec<(u64, String, String, Vec<u8>)> {
    listing.sort();
    listing
}

#[test]
fn upload_ids_strictly_increase() {
    for reclaim in [true, false] {
        let mut store = Store::new(reclaim);
        let mut ids = Vec::new();
        for i in 0..40u8 {
            if i % 3 == 0 {
                store.set_name(alice(), format!("name{}", i));
            }
            let who = if i % 2 == 0 { alice() } else { bob() };
            ids.push(store.upload_image(who, format!("img{}", i), vec![i]));
            assert_eq!(store.get_image(u64::from(i)), Some(vec![i]));
        }
        let expected: Vec<u64> = (0..40).collect();
        assert_eq!(ids, expected);
        assert!(ids.windows(2).all(|pair| pair[0] < pair[1]));
        assert_eq!(store.next_image_id(), 40);
    }
}

#[test]
fn upload_accepts_empty_name_and_data() {
    let mut store = Store::new(false);
    assert_eq!(store.upload_image(Principal::anonymous(), String::new(), Vec::new()), 0);
    assert_eq!(store.get_image(0), Some(vec![]));
    assert_eq!(
        store.get_all_images(None),
        vec![(0, String::new(), "Unknown".to_string(), vec![])]
    );
}

#[test]
fn get_returns_last_upload_until_deleted() {
    let mut store = Store::new(true);
    assert_eq!(store.get_image(0), None);
    assert_eq!(store.upload_image(alice(), "one".to_string(), vec![1, 1]), 0);
    assert_eq!(store.get_image(0), Some(vec![1, 1]));
    store.set_name(bob(), "Bob".to_string());
    assert_eq!(store.upload_image(bob(), "two".to_string(), vec![2]), 1);
    assert_eq!(store.delete_image(alice(), 1), DeleteResult::NotAuthorized);
    assert_eq!(store.delete_image(alice(), 7), DeleteResult::NotFound);
    assert_eq!(store.get_image(0), Some(vec![1, 1]));
    assert_eq!(store.get_image(1), Some(vec![2]));
    assert_eq!(store.delete_image(bob(), 1), DeleteResult::Success);
    assert_eq!(store.get_image(1), None);
    assert_eq!(store.get_image(0), Some(vec![1, 1]));
    assert_eq!(store.upload_image(alice(), "three".to_string(), vec![3, 3, 3]), 1);
    assert_eq!(store.get_image(1), Some(vec![3, 3, 3]));
    assert_eq!(store.delete_image(alice(), 1), DeleteResult::Success);
    assert_eq!(store.get_image(1), None);
    assert_eq!(store.delete_image(alice(), 1), DeleteResult::NotFound);
    assert_eq!(store.get_image(1), None);
}

#[test]
fn get_needs_no_authorization() {
    let mut store = Store::new(false);
    let id = store.upload_image(alice(), "private.png".to_string(), vec![9, 8, 7]);
    assert_eq!(store.delete_image(bob(), id), DeleteResult::NotAuthorized);
    assert_eq!(store.get_image(id), Some(vec![9, 8, 7]));
}

#[test]
fn delete_not_found_changes_nothing() {
    let mut store = Store::new(true);
    assert_eq!(store.delete_image(alice(), 0), DeleteResult::NotFound);
    assert_eq!(store.next_image_id(), 0);
    store.upload_image(alice(), "a".to_string(), vec![1]);
    assert_eq!(store.delete_image(alice(), 1), DeleteResult::NotFound);
    assert_eq!(store.delete_image(bob(), u64::MAX), DeleteResult::NotFound);
    assert_eq!(store.next_image_id(), 1);
    assert_eq!(store.get_image(0), Some(vec![1]));
    assert_eq!(store.get_all_images(None).len(), 1);
}

#[test]
fn delete_not_authorized_changes_nothing() {
    let mut store = Store::new(true);
    store.upload_image(alice(), "a".to_string(), vec![1]);
    assert_eq!(store.delete_image(bob(), 0), DeleteResult::NotAuthorized);
    assert_eq!(store.delete_image(Principal::anonymous(), 0), DeleteResult::NotAuthorized);
    assert_eq!(store.next_image_id(), 1);
    assert_eq!(store.get_image(0), Some(vec![1]));
    assert_eq!(
        store.get_all_images(None),
        vec![(0, "a".to_string(), "Unknown".to_string(), vec![1])]
    );
}

#[test]
fn delete_success_removes_and_counts_back_when_reclaiming() {
    let mut store = Store::new(true);
    store.upload_image(alice(), "a".to_string(), vec![1]);
    store.upload_image(alice(), "b".to_string(), vec![2]);
    assert_eq!(store.next_image_id(), 2);
    assert_eq!(store.delete_image(alice(), 1), DeleteResult::Success);
    assert_eq!(store.next_image_id(), 1);
    assert_eq!(store.get_image(1), None);
    assert_eq!(store.delete_image(alice(), 0), DeleteResult::Success);
    assert_eq!(store.next_image_id(), 0);
    assert_eq!(store.get_all_images(None), vec![]);
}

#[test]
fn delete_success_leaves_counter_when_not_reclaiming() {
    let mut store = Store::new(false);
    store.upload_image(alice(), "a".to_string(), vec![1]);
    store.upload_image(alice(), "b".to_string(), vec![2]);
    assert_eq!(store.delete_image(alice(), 0), DeleteResult::Success);
    assert_eq!(store.delete_image(alice(), 1), DeleteResult::Success);
    assert_eq!(store.next_image_id(), 2);
    assert_eq!(store.get_all_images(None), vec![]);
}

#[test]
fn delete_tells_principals_apart_by_every_byte() {
    let mut store = Store::new(false);
    let owner = Principal::from_slice(&[1, 2, 3]);
    let id = store.upload_image(owner, "a".to_string(), vec![1]);
    assert_eq!(
        store.delete_image(Principal::from_slice(&[1, 2]), id),
        DeleteResult::NotAuthorized
    );
    assert_eq!(
        store.delete_image(Principal::from_slice(&[1, 2, 4]), id),
        DeleteResult::NotAuthorized
    );
    assert_eq!(
        store.delete_image(Principal::from_slice(&[1, 2, 3, 0]), id),
        DeleteResult::NotAuthorized
    );
    assert_eq!(store.delete_image(Principal::from_slice(&[1, 2, 3]), id), DeleteResult::Success);
}

#[test]
fn list_respects_limit() {
    let mut store = Store::new(false);
    for i in 0..5u8 {
        store.upload_image(alice(), format!("img{}", i), vec![i, i]);
    }
    let all = store.get_all_images(None);
    assert_eq!(all.len(), 5);
    assert_eq!(
        sorted(all.clone()),
        vec![
            (0, "img0".to_string(), "Unknown".to_string(), vec![0, 0]),
            (1, "img1".to_string(), "Unknown".to_string(), vec![1, 1]),
            (2, "img2".to_string(), "Unknown".to_string(), vec![2, 2]),
            (3, "img3".to_string(), "Unknown".to_string(), vec![3, 3]),
            (4, "img4".to_string(), "Unknown".to_string(), vec![4, 4]),
        ]
    );
    assert_eq!(store.get_all_images(Some(0)), vec![]);
    for limit in 1..=5usize {
        let some = store.get_all_images(Some(limit));
        assert_eq!(some.len(), limit);
        assert_eq!(some, all[..limit].to_vec());
    }
    assert_eq!(store.get_all_images(Some(6)), all);
    assert_eq!(store.get_all_images(Some(usize::MAX)), all);
}

#[test]
fn list_is_the_same_when_asked_again() {
    let mut store = Store::new(true);
    for i in 0..20u8 {
        store.upload_image(bob(), format!("img{}", i), vec![i]);
    }
    let first = store.get_all_images(None);
    assert_eq!(store.get_all_images(None), first);
    assert_eq!(store.get_all_images(Some(7)), first[..7].to_vec());
}

#[test]
fn list_shows_unknown_then_the_name_set() {
    let mut store = Store::new(false);
    store.upload_image(alice(), "early.png".to_string(), vec![1]);
    store.upload_image(bob(), "other.png".to_string(), vec![2]);
    assert_eq!(
        sorted(store.get_all_images(None)),
        vec![
            (0, "early.png".to_string(), "Unknown".to_string(), vec![1]),
            (1, "other.png".to_string(), "Unknown".to_string(), vec![2]),
        ]
    );
    store.set_name(alice(), "Alice".to_string());
    store.upload_image(alice(), "late.png".to_string(), vec![3]);
    assert_eq!(
        sorted(store.get_all_images(None)),
        vec![
            (0, "early.png".to_string(), "Alice".to_string(), vec![1]),
            (1, "other.png".to_string(), "Unknown".to_string(), vec![2]),
            (2, "late.png".to_string(), "Alice".to_string(), vec![3]),
        ]
    );
}

#[test]
fn set_name_replaces_the_earlier_name() {
    let mut store = Store::new(false);
    store.upload_image(alice(), "a".to_string(), vec![1]);
    store.set_name(alice(), "Alice".to_string());
    store.set_name(bob(), "Bob".to_string());
    store.set_name(alice(), "Alicia".to_string());
    assert_eq!(
        store.get_all_images(None),
        vec![(0, "a".to_string(), "Alicia".to_string(), vec![1])]
    );
    store.set_name(alice(), String::new());
    assert_eq!(store.get_all_images(None), vec![(0, "a".to_string(), String::new(), vec![1])]);
}

#[test]
fn set_name_twice_is_set_name_once() {
    let mut once = Store::new(true);
    let mut twice = Store::new(true);
    for store in [&mut once, &mut twice] {
        store.upload_image(alice(), "a".to_string(), vec![1]);
        store.upload_image(bob(), "b".to_string(), vec![2]);
    }
    once.set_name(alice(), "X".to_string());
    twice.set_name(alice(), "X".to_string());
    twice.set_name(alice(), "X".to_string());
    assert_eq!(sorted(once.get_all_images(None)), sorted(twice.get_all_images(None)));
    assert_eq!(once.next_image_id(), twice.next_image_id());
    assert_eq!(once.get_image(0), twice.get_image(0));
    assert_eq!(once.get_image(1), twice.get_image(1));
    assert_eq!(
        sorted(twice.get_all_images(None)),
        vec![
            (0, "a".to_string(), "X".to_string(), vec![1]),
            (1, "b".to_string(), "Unknown".to_string(), vec![2]),
        ]
    );
}

#[test]
fn set_name_changes_neither_images_nor_counter() {
    let mut store = Store::new(true);
    store.upload_image(alice(), "a".to_string(), vec![1]);
    store.set_name(bob(), "Bob".to_string());
    assert_eq!(store.next_image_id(), 1);
    assert_eq!(store.get_image(0), Some(vec![1]));
    assert_eq!(
        store.get_all_images(None),
        vec![(0, "a".to_string(), "Unknown".to_string(), vec![1])]
    );
}

#[test]
fn names_survive_the_deletion_of_images() {
    let mut store = Store::new(true);
    store.set_name(alice(), "Alice".to_string());
    store.upload_image(alice(), "a".to_string(), vec![1]);
    assert_eq!(store.delete_image(alice(), 0), DeleteResult::Success);
    store.upload_image(alice(), "b".to_string(), vec![2]);
    assert_eq!(
        store.get_all_images(None),
        vec![(0, "b".to_string(), "Alice".to_string(), vec![2])]
    );
}

#[test]
fn whoami_hands_back_any_caller() {
    assert_eq!(whoami(alice()), alice());
    assert_eq!(whoami(Principal::anonymous()), Principal::anonymous());
    assert_eq!(whoami(Principal::management_canister()), Principal::management_canister());
}
