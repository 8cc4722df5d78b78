use mima::crypto::derive_key;
use mima::errors::VaultError;
use mima::forms::AddForm;
use mima::models::MimaItem;
use mima::session::SessionStateTag;
use mima::text::{trim, u64_to_dec};
use mima::vault::{now_ts, Vault};

fn form(title: &str, password: &str) -> AddForm {
    AddForm {
        title: title.to_string(),
        username: "me".to_string(),
        password: password.to_string(),
        notes: "".to_string(),
    }
}

#[test]
fn login_never_succeeds_without_a_matching_bootstrap() {
    // No account has ever been created: "abc" must be rejected.
    let mut v = Vault::new(1800);
    assert_eq!(v.login("abc", now_ts()), Err(VaultError::WrongPassphrase));
    assert_eq!(v.current_state(0), SessionStateTag::Uninitialized);

    // An account exists, sealed under an unknown, different passphrase:
    // "abc" must still be rejected, and the session stays logged out.
    v.create_account("some original passphrase").unwrap();
    assert_eq!(v.login("abc", now_ts()), Err(VaultError::WrongPassphrase));
    assert!(v.active_key().is_none());
    assert_eq!(v.current_state(now_ts()), SessionStateTag::LoggedOut);
}

#[test]
fn login_with_the_right_passphrase_returns_the_probe() {
    let mut v = Vault::new(1800);
    v.create_account("letmein").unwrap();
    let probe = v.login("letmein", now_ts()).unwrap();
    assert!(!probe.is_empty());
    assert_eq!(v.current_state(now_ts()), SessionStateTag::LoggedIn);
    let k = v.active_key().unwrap();
    assert_eq!(k.bytes, derive_key("letmein").bytes);
    v.logout();
    assert_eq!(v.current_state(now_ts()), SessionStateTag::LoggedOut);
    assert!(v.active_key().is_none());
}

#[test]
fn account_can_only_be_created_once() {
    let mut v = Vault::new(1800);
    v.create_account("first").unwrap();
    assert_eq!(
        v.create_account("second"),
        Err(VaultError::DuplicateRecordError)
    );
    // The original passphrase still opens the vault.
    assert!(v.login("first", now_ts()).is_ok());
}

#[test]
fn bootstrap_record_stays_out_of_listings_and_lookups() {
    let mut v = Vault::new(1800);
    v.create_account("pw").unwrap();
    assert_eq!(MimaItem::all(&v.store).len(), 0);
    let k = v.login("pw", now_ts()).map(|_| v.active_key().unwrap()).unwrap();
    assert_eq!(MimaItem::recyclebin(&v.store, &k).unwrap().len(), 0);
    let boot_id = v.store.mimas[0].id.clone();
    assert_eq!(
        MimaItem::get_by_id(&boot_id, &v.store, &k),
        Err(VaultError::NotFoundError)
    );
    assert_eq!(
        MimaItem::mark_as_deleted(&boot_id, &mut v.store, 1),
        Err(VaultError::NotFoundError)
    );
}

#[test]
fn created_record_reads_back_under_the_same_key_only() {
    let mut v = Vault::new(1800);
    v.create_account("master").unwrap();
    v.login("master", now_ts()).unwrap();
    let k = v.active_key().unwrap();

    let id = v.add(form("mailbox", "s3cret"), &k).unwrap();
    let f = MimaItem::get_by_id(&id, &v.store, &k).unwrap();
    assert_eq!(f.password, "s3cret");

    let wrong = derive_key("not master");
    assert_eq!(
        MimaItem::get_by_id(&id, &v.store, &wrong),
        Err(VaultError::DecryptionError)
    );
}

#[test]
fn duplicate_add_reports_duplicate_and_keeps_the_store() {
    let mut v = Vault::new(1800);
    v.create_account("master").unwrap();
    v.login("master", now_ts()).unwrap();
    let k = v.active_key().unwrap();
    v.add(form("mailbox", "a"), &k).unwrap();
    let n = v.store.mimas.len();
    assert_eq!(
        v.add(form("mailbox", "b"), &k),
        Err(VaultError::DuplicateRecordError)
    );
    assert_eq!(v.store.mimas.len(), n);
}

#[test]
fn listing_fits_the_result_context() {
    let mut v = Vault::new(1800);
    v.create_account("pw").unwrap();
    v.login("pw", now_ts()).unwrap();
    let k = v.active_key().unwrap();
    v.add(form("one", "x"), &k).unwrap();
    let ctx = mima::forms::ResultContext {
        msg: Some("search results"),
        result: MimaItem::all(&v.store),
    };
    assert_eq!(ctx.result.len(), 1);
    let id_form = mima::forms::IdForm { id: ctx.result[0].id.clone() };
    let f = MimaItem::get_by_id(&id_form.id, &v.store, &k).unwrap();
    assert_eq!(f.title, "one");
}

#[test]
fn now_ts_is_a_recent_time() {
    // Seconds since the epoch: after 2020, and not in the far future.
    let t = now_ts();
    assert!(t > 1_577_836_800);
    assert!(t < 4_102_444_800);
}

#[test]
fn trim_removes_edge_whitespace_only() {
    assert_eq!(trim("  a b \t\n"), "a b");
    assert_eq!(trim(""), "");
    assert_eq!(trim(" \t "), "");
    assert_eq!(trim("inner  space"), "inner  space");
    assert_eq!(trim("\u{4f60} \u{597d} "), "\u{4f60} \u{597d}");
}

#[test]
fn u64_to_dec_renders_decimal_digits() {
    assert_eq!(u64_to_dec(0), "0");
    assert_eq!(u64_to_dec(7), "7");
    assert_eq!(u64_to_dec(10), "10");
    assert_eq!(u64_to_dec(1204), "1204");
    assert_eq!(u64_to_dec(u64::MAX), "18446744073709551615");
}
