use mima::crypto::{derive_key, Key};
use mima::errors::VaultError;
use mima::forms::AddForm;
use mima::models::{HistoryItem, MimaItem};
use mima::store::Store;

fn key() -> Key {
    derive_key("history passphrase")
}

fn add(store: &mut Store, k: &Key, now: u64, title: &str, password: &str) -> String {
    let item = MimaItem::from_add_form(
        AddForm {
            title: title.to_string(),
            username: "u".to_string(),
            password: password.to_string(),
            notes: "n".to_string(),
        },
        k,
        now,
    );
    let id = item.id.clone();
    item.insert(store).unwrap();
    id
}

#[test]
fn soft_delete_writes_a_history_snapshot() {
    let k = key();
    let mut store = Store::new();
    let id = add(&mut store, &k, 1, "site", "s3cret");
    assert_eq!(store.history.len(), 0);
    MimaItem::mark_as_deleted(&id, &mut store, 77).unwrap();
    assert_eq!(store.history.len(), 1);

    let h = &store.history[0];
    assert_eq!(h.mima_id, id);
    assert_ne!(h.id, id);
    assert_eq!(h.id.len(), 32);
    assert_eq!(h.deleted, 77);
    // The snapshot carries the record's envelope bytes verbatim.
    assert_eq!(h.password, store.mimas[0].password);
    assert_eq!(h.p_nonce, store.mimas[0].p_nonce);
}

#[test]
fn history_is_decryptable_and_ordered_by_deletion_time() {
    let k = key();
    let mut store = Store::new();
    let id = add(&mut store, &k, 1, "site", "first-pw");
    MimaItem::mark_as_deleted(&id, &mut store, 100).unwrap();
    MimaItem::recover(&id, &mut store, 150).unwrap();
    MimaItem::mark_as_deleted(&id, &mut store, 200).unwrap();

    let entries = HistoryItem::get_by_mima_id(&id, &store, &k).unwrap();
    assert_eq!(entries.len(), 2);
    // Most recent deletion first; both snapshots decrypt.
    assert_eq!(entries[0].title, "site (150)");
    assert_eq!(entries[1].title, "site");
    assert_eq!(entries[0].password, "first-pw");
    assert_eq!(entries[1].password, "first-pw");
    assert!(!entries[0].favorite);
}

#[test]
fn history_lookup_by_id_and_mima_id() {
    let k = key();
    let mut store = Store::new();
    let id = add(&mut store, &k, 1, "site", "pw");
    MimaItem::mark_as_deleted(&id, &mut store, 9).unwrap();
    let hid = store.history[0].id.clone();

    let f = HistoryItem::get_by_id(&hid, &store, &k).unwrap();
    assert_eq!(f.id, hid);
    assert_eq!(f.password, "pw");
    assert_eq!(f.notes, "n");
    assert_eq!(HistoryItem::get_mima_id(&hid, &store).unwrap(), id);
    assert_eq!(
        HistoryItem::get_by_id("missing", &store, &k),
        Err(VaultError::NotFoundError)
    );
    assert_eq!(
        HistoryItem::get_mima_id("missing", &store),
        Err(VaultError::NotFoundError)
    );
}

#[test]
fn purging_history_leaves_the_record_alone() {
    let k = key();
    let mut store = Store::new();
    let id = add(&mut store, &k, 1, "site", "pw");
    MimaItem::mark_as_deleted(&id, &mut store, 9).unwrap();
    let hid = store.history[0].id.clone();

    HistoryItem::delete_forever(&hid, &mut store).unwrap();
    assert_eq!(store.history.len(), 0);
    assert_eq!(store.mimas.len(), 1);
    assert_eq!(
        HistoryItem::delete_forever(&hid, &mut store),
        Err(VaultError::NotFoundError)
    );
}

#[test]
fn purging_a_record_keeps_its_history() {
    let k = key();
    let mut store = Store::new();
    let id = add(&mut store, &k, 1, "site", "pw");
    MimaItem::mark_as_deleted(&id, &mut store, 9).unwrap();
    MimaItem::recover(&id, &mut store, 10).unwrap();
    MimaItem::delete_forever(&id, &mut store).unwrap();
    assert_eq!(store.mimas.len(), 0);
    assert_eq!(store.history.len(), 1);
    let entries = HistoryItem::get_by_mima_id(&id, &store, &k).unwrap();
    assert_eq!(entries.len(), 1);
}

#[test]
fn into_history_item_copies_fields_verbatim() {
    let k = key();
    let item = MimaItem::from_add_form(
        AddForm {
            title: "t".to_string(),
            username: "u".to_string(),
            password: "p".to_string(),
            notes: "".to_string(),
        },
        &k,
        5,
    );
    let id = item.id.clone();
    let cipher = item.password.clone();
    let h = item.into_history_item(99);
    assert_eq!(h.mima_id, id);
    assert_eq!(h.password, cipher);
    assert_eq!(h.deleted, 99);
    assert_eq!(h.id.len(), 32);
    assert_ne!(h.id, h.mima_id);
}
