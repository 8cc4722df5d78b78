use mima::crypto::{derive_key, Key};
use mima::errors::VaultError;
use mima::forms::{AddForm, EditForm, LoginForm};
use mima::models::{Decryptable, MimaItem};
use mima::store::Store;

fn form(title: &str, username: &str, password: &str, notes: &str) -> AddForm {
    AddForm {
        title: title.to_string(),
        username: username.to_string(),
        password: password.to_string(),
        notes: notes.to_string(),
    }
}

fn key() -> Key {
    derive_key("test passphrase")
}

fn add(store: &mut Store, k: &Key, now: u64, title: &str, username: &str, password: &str) -> String {
    let item = MimaItem::from_add_form(form(title, username, password, ""), k, now);
    let id = item.id.clone();
    item.insert(store).unwrap();
    id
}

#[test]
fn pwd_to_key_matches_derive_key() {
    let f = LoginForm { password: "abc".to_string() };
    assert_eq!(f.pwd_to_key().bytes, derive_key("abc").bytes);
}

#[test]
fn from_add_form_trims_and_seals() {
    let k = key();
    let item = MimaItem::from_add_form(
        form("  My Title \n", "\tuser ", "pass word", "  some notes  "),
        &k,
        7,
    );
    assert_eq!(item.id.len(), 32);
    assert_eq!(item.title, "My Title");
    assert_eq!(item.username, "user");
    assert_eq!(item.created, 7);
    assert!(item.deleted.is_none());
    assert!(!item.favorite);
    // The password is sealed as submitted, the notes trimmed before sealing.
    assert_eq!(item.pwd_decrypt(&k).unwrap(), "pass word");
    assert_eq!(item.notes_decrypt(&k).unwrap(), "some notes");
}

#[test]
fn empty_fields_are_stored_as_absence() {
    let k = key();
    let item = MimaItem::from_add_form(form("t", "u", "", "   "), &k, 1);
    assert!(item.password.is_none());
    assert!(item.p_nonce.is_none());
    assert!(item.notes.is_none());
    assert!(item.n_nonce.is_none());
    assert_eq!(item.pwd_decrypt(&k).unwrap(), "");
}

#[test]
fn to_simple_masks_present_secrets() {
    let k = key();
    let with_pwd = MimaItem::from_add_form(form("a", "u", "secret", ""), &k, 1);
    let masked = with_pwd.to_simple();
    assert_eq!(masked.password, "******");
    assert_eq!(masked.notes, "");
    let without = MimaItem::from_add_form(form("b", "u", "", "note"), &k, 1);
    let masked = without.to_simple();
    assert_eq!(masked.password, "");
    assert_eq!(masked.notes, "******");
}

#[test]
fn duplicate_active_title_username_is_rejected() {
    let k = key();
    let mut store = Store::new();
    add(&mut store, &k, 1, "site", "alice", "pw1");
    let second = MimaItem::from_add_form(form("site", "alice", "pw2", ""), &k, 2);
    assert_eq!(
        second.insert(&mut store),
        Err(VaultError::DuplicateRecordError)
    );
    // A different username under the same title is fine.
    add(&mut store, &k, 3, "site", "bob", "pw3");
}

#[test]
fn soft_deleting_frees_the_title_for_reuse() {
    let k = key();
    let mut store = Store::new();
    let id = add(&mut store, &k, 1, "site", "alice", "pw1");
    MimaItem::mark_as_deleted(&id, &mut store, 50).unwrap();
    // The same (title, username) can now be created again.
    add(&mut store, &k, 51, "site", "alice", "pw2");
}

#[test]
fn get_by_id_decrypts_and_reports_not_found() {
    let k = key();
    let mut store = Store::new();
    let id = add(&mut store, &k, 1, "mail", "alice", "s3cret");
    let f = MimaItem::get_by_id(&id, &store, &k).unwrap();
    assert_eq!(f.id, id);
    assert_eq!(f.title, "mail");
    assert_eq!(f.username, "alice");
    assert_eq!(f.password, "s3cret");
    assert!(!f.favorite);
    assert_eq!(
        MimaItem::get_by_id("no-such-id", &store, &k),
        Err(VaultError::NotFoundError)
    );
}

#[test]
fn get_by_id_under_wrong_key_fails_with_decryption_error() {
    let k = key();
    let mut store = Store::new();
    let id = add(&mut store, &k, 1, "mail", "alice", "s3cret");
    let other = derive_key("another passphrase");
    assert_eq!(
        MimaItem::get_by_id(&id, &store, &other),
        Err(VaultError::DecryptionError)
    );
}

#[test]
fn all_lists_active_records_newest_first_and_masked() {
    let k = key();
    let mut store = Store::new();
    store.create_account("boot", 0).unwrap();
    let id_old = add(&mut store, &k, 10, "oldest", "u", "p");
    let id_mid = add(&mut store, &k, 20, "middle", "u", "p");
    let id_new = add(&mut store, &k, 30, "newest", "u", "p");
    MimaItem::mark_as_deleted(&id_mid, &mut store, 40).unwrap();

    let listing = MimaItem::all(&store);
    // The bootstrap record and the deleted record are excluded.
    assert_eq!(listing.len(), 2);
    assert_eq!(listing[0].id, id_new);
    assert_eq!(listing[1].id, id_old);
    assert_eq!(listing[0].password, "******");
}

#[test]
fn recyclebin_lists_deleted_records_latest_deletion_first_decrypted() {
    let k = key();
    let mut store = Store::new();
    let id_a = add(&mut store, &k, 1, "a", "u", "pa");
    let id_b = add(&mut store, &k, 2, "b", "u", "pb");
    let id_c = add(&mut store, &k, 3, "c", "u", "pc");
    MimaItem::mark_as_deleted(&id_a, &mut store, 100).unwrap();
    MimaItem::mark_as_deleted(&id_c, &mut store, 200).unwrap();

    let bin = MimaItem::recyclebin(&store, &k).unwrap();
    assert_eq!(bin.len(), 2);
    assert_eq!(bin[0].id, id_c);
    assert_eq!(bin[1].id, id_a);
    assert_eq!(bin[0].password, "pc");
    assert_eq!(bin[1].password, "pa");
    // The still-active record stays out of the bin.
    assert!(bin.iter().all(|f| f.id != id_b));
}

#[test]
fn soft_delete_then_recover_round_trip() {
    let k = key();
    let mut store = Store::new();
    let id = add(&mut store, &k, 1, "site", "alice", "s3cret");
    let before = MimaItem::get_by_id(&id, &store, &k).unwrap();

    MimaItem::mark_as_deleted(&id, &mut store, 100).unwrap();
    assert_eq!(MimaItem::all(&store).len(), 0);
    MimaItem::recover(&id, &mut store, 123).unwrap();

    let after = MimaItem::get_by_id(&id, &store, &k).unwrap();
    // Same secrets, deletion mark cleared, title made distinct.
    assert_eq!(after.password, before.password);
    assert_ne!(after.title, before.title);
    assert_eq!(after.title, "site (123)");
    assert_eq!(MimaItem::all(&store).len(), 1);
}

#[test]
fn soft_delete_then_recover_combined_operation() {
    let k = key();
    let mut store = Store::new();
    let id = add(&mut store, &k, 1, "site", "alice", "s3cret");
    let cipher_before = store.mimas[0].password.clone();
    mima::store::soft_delete_then_recover(&id, &mut store, 100, 200).unwrap();
    assert_eq!(store.mimas[0].password, cipher_before);
    assert!(store.mimas[0].deleted.is_none());
    assert_eq!(store.mimas[0].title, "site (200)");
    // The intermediate deletion left its history snapshot behind.
    assert_eq!(store.history.len(), 1);
}

#[test]
fn recover_keeps_envelope_bytes_verbatim() {
    let k = key();
    let mut store = Store::new();
    let id = add(&mut store, &k, 1, "site", "alice", "s3cret");
    let cipher_before = store.mimas[0].password.clone();
    let nonce_before = store.mimas[0].p_nonce.clone();
    MimaItem::mark_as_deleted(&id, &mut store, 100).unwrap();
    MimaItem::recover(&id, &mut store, 200).unwrap();
    assert_eq!(store.mimas[0].password, cipher_before);
    assert_eq!(store.mimas[0].p_nonce, nonce_before);
    assert!(store.mimas[0].deleted.is_none());
    assert_eq!(store.mimas[0].created, 200);
}

#[test]
fn update_from_edit_form_reseals_only_changes() {
    let k = key();
    let mut store = Store::new();
    let id = add(&mut store, &k, 1, "site", "alice", "oldpw");
    let cipher_before = store.mimas[0].password.clone();

    // Unchanged password: the envelope bytes stay as they are.
    let same = EditForm {
        id: id.clone(),
        title: "renamed".to_string(),
        username: "alice".to_string(),
        password: "oldpw".to_string(),
        notes: "".to_string(),
        favorite: false,
    };
    let item = MimaItem::from_edit_form(same, &store, &k).unwrap();
    item.update(&mut store).unwrap();
    assert_eq!(store.mimas[0].password, cipher_before);
    assert_eq!(store.mimas[0].title, "renamed");

    // Changed password: a fresh envelope.
    let changed = EditForm {
        id: id.clone(),
        title: "renamed".to_string(),
        username: "alice".to_string(),
        password: "newpw".to_string(),
        notes: "".to_string(),
        favorite: false,
    };
    let item = MimaItem::from_edit_form(changed, &store, &k).unwrap();
    item.update(&mut store).unwrap();
    assert_ne!(store.mimas[0].password, cipher_before);
    let f = MimaItem::get_by_id(&id, &store, &k).unwrap();
    assert_eq!(f.password, "newpw");
}

#[test]
fn update_rejects_stealing_an_active_pair() {
    let k = key();
    let mut store = Store::new();
    add(&mut store, &k, 1, "site", "alice", "p1");
    let id2 = add(&mut store, &k, 2, "other", "alice", "p2");
    let steal = EditForm {
        id: id2,
        title: "site".to_string(),
        username: "alice".to_string(),
        password: "p2".to_string(),
        notes: "".to_string(),
        favorite: false,
    };
    let item = MimaItem::from_edit_form(steal, &store, &k).unwrap();
    assert_eq!(item.update(&mut store), Err(VaultError::DuplicateRecordError));
}

#[test]
fn delete_forever_removes_the_record_for_good() {
    let k = key();
    let mut store = Store::new();
    let id = add(&mut store, &k, 1, "site", "alice", "p");
    MimaItem::delete_forever(&id, &mut store).unwrap();
    assert_eq!(
        MimaItem::get_by_id(&id, &store, &k),
        Err(VaultError::NotFoundError)
    );
    assert_eq!(
        MimaItem::delete_forever(&id, &mut store),
        Err(VaultError::NotFoundError)
    );
}

#[test]
fn update_and_recover_of_missing_record_report_not_found() {
    let k = key();
    let mut store = Store::new();
    let ghostly = MimaItem::from_add_form(form("t", "u", "p", ""), &k, 1);
    assert_eq!(ghostly.update(&mut store), Err(VaultError::NotFoundError));
    assert_eq!(
        MimaItem::recover("missing", &mut store, 9),
        Err(VaultError::NotFoundError)
    );
    assert_eq!(
        MimaItem::mark_as_deleted("missing", &mut store, 9),
        Err(VaultError::NotFoundError)
    );
}
