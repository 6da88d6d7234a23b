use tentech::catalog::{create, delete, find, update, CatalogStore, NewProduct, StoreError};

fn sorted(mut v: Vec<i32>) -> Vec<i32> {
    v.sort();
    v.dedup();
    v
}

fn new_product(uuid: u128, title: &str) -> NewProduct {
    NewProduct {
        title: title.to_string(),
        body: "body".to_string(),
        img: "img.png".to_string(),
        duration: 30,
        kind: "video".to_string(),
        user_id: 7,
        uuid,
    }
}

#[test]
fn create_update_delete_scenario() {
    let mut store = CatalogStore::new();
    let p = create(&mut store, "A", "b", "i", 10, "k", &vec![1, 2], 5).unwrap();
    assert_eq!(sorted(store.tags_of(p.id)), vec![1, 2]);
    let q = update(&mut store, "A", "b", "i", 10, "k", &vec![2, 3], 5, p.uuid).unwrap();
    assert_eq!(q.id, p.id);
    assert_eq!(sorted(store.tags_of(p.id)), vec![2, 3]);
    assert_eq!(delete(&mut store, p.uuid), Ok(1));
    assert_eq!(find(&store, p.uuid).err(), Some(StoreError::NotFound));
    assert!(store.tags_of(p.id).is_empty());
}

#[test]
fn create_associates_exactly_the_given_tags() {
    let mut store = CatalogStore::new();
    let p = create(&mut store, "t", "b", "i", 1, "k", &vec![4, 9, 4], 1).unwrap();
    let other = create(&mut store, "u", "b", "i", 1, "k", &vec![8], 1).unwrap();
    assert_eq!(sorted(store.tags_of(p.id)), vec![4, 9]);
    assert_eq!(sorted(store.tags_of(other.id)), vec![8]);
}

#[test]
fn create_with_no_tags() {
    let mut store = CatalogStore::new();
    let p = create(&mut store, "t", "b", "i", 1, "k", &vec![], 1).unwrap();
    assert!(store.tags_of(p.id).is_empty());
}

#[test]
fn update_leaves_no_residue_of_old_tags() {
    let mut store = CatalogStore::new();
    let p = create(&mut store, "t", "b", "i", 1, "k", &vec![1, 2, 3], 1).unwrap();
    let other = create(&mut store, "u", "b", "i", 1, "k", &vec![1, 2], 1).unwrap();
    update(&mut store, "t2", "b2", "i2", 2, "k2", &vec![7], 3, p.uuid).unwrap();
    assert_eq!(sorted(store.tags_of(p.id)), vec![7]);
    assert_eq!(sorted(store.tags_of(other.id)), vec![1, 2]);
    let found = find(&store, p.uuid).unwrap();
    assert_eq!(found.title, "t2");
    assert_eq!(found.body, "b2");
    assert_eq!(found.img, "i2");
    assert_eq!(found.duration, 2);
    assert_eq!(found.kind, "k2");
    assert_eq!(found.user_id, 3);
    assert_eq!(found.id, p.id);
}

#[test]
fn find_after_create_returns_the_fields() {
    let mut store = CatalogStore::new();
    let p = create(&mut store, "Title", "Body", "pic.jpg", 42, "audio", &vec![1], 99).unwrap();
    let found = find(&store, p.uuid).unwrap();
    assert_eq!(found.uuid, p.uuid);
    assert_eq!(found.id, p.id);
    assert_eq!(found.title, "Title");
    assert_eq!(found.body, "Body");
    assert_eq!(found.img, "pic.jpg");
    assert_eq!(found.duration, 42);
    assert_eq!(found.kind, "audio");
    assert_eq!(found.user_id, 99);
}

#[test]
fn delete_twice_removes_once() {
    let mut store = CatalogStore::new();
    let p = create(&mut store, "t", "b", "i", 1, "k", &vec![1], 1).unwrap();
    assert_eq!(delete(&mut store, p.uuid), Ok(1));
    assert_eq!(delete(&mut store, p.uuid), Ok(0));
    assert_eq!(find(&store, p.uuid).err(), Some(StoreError::NotFound));
}

#[test]
fn update_of_unknown_product_is_not_found() {
    let mut store = CatalogStore::new();
    let p = create(&mut store, "t", "b", "i", 1, "k", &vec![1], 1).unwrap();
    let r = update(&mut store, "x", "b", "i", 1, "k", &vec![5], 1, p.uuid.wrapping_add(1));
    assert_eq!(r.err(), Some(StoreError::NotFound));
    assert_eq!(sorted(store.tags_of(p.id)), vec![1]);
    assert_eq!(find(&store, p.uuid).unwrap().title, "t");
}

#[test]
fn insert_with_taken_identifier_conflicts() {
    let mut store = CatalogStore::new();
    let p = store.insert_new(new_product(11, "first"), &vec![1]).unwrap();
    assert_eq!(p.uuid, 11);
    let r = store.insert_new(new_product(11, "second"), &vec![2]);
    assert_eq!(r.err(), Some(StoreError::Conflict));
    assert_eq!(find(&store, 11).unwrap().title, "first");
    assert_eq!(sorted(store.tags_of(p.id)), vec![1]);
}

#[test]
fn replace_keeps_identity() {
    let mut store = CatalogStore::new();
    let p = store.insert_new(new_product(3, "a"), &vec![1, 2]).unwrap();
    let q = store.replace(new_product(3, "b"), &vec![2, 3]).unwrap();
    assert_eq!(q.id, p.id);
    assert_eq!(q.uuid, 3);
    assert_eq!(q.title, "b");
    assert_eq!(sorted(store.tags_of(p.id)), vec![2, 3]);
    assert_eq!(store.remove(3), 1);
    assert_eq!(store.remove(3), 0);
}

#[test]
fn internal_ids_follow_a_sequence() {
    let mut store = CatalogStore::new();
    let a = create(&mut store, "a", "b", "i", 1, "k", &vec![], 1).unwrap();
    let b = create(&mut store, "b", "b", "i", 1, "k", &vec![], 1).unwrap();
    assert_eq!(a.id, 0);
    assert_eq!(b.id, 1);
}

#[test]
fn created_products_get_distinct_random_identifiers() {
    let mut store = CatalogStore::new();
    let a = create(&mut store, "a", "b", "i", 1, "k", &vec![], 1).unwrap();
    let b = create(&mut store, "b", "b", "i", 1, "k", &vec![], 1).unwrap();
    assert_ne!(a.uuid, b.uuid);
    assert_eq!((a.uuid >> 76) & 0xf, 4);
}
