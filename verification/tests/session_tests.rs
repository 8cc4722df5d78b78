use mima::crypto::derive_key;
use mima::errors::VaultError;
use mima::gate::{route_gate, Gate, Page};
use mima::session::{SessionState, SessionStateTag};

#[test]
fn fresh_session_is_logged_out() {
    let s = SessionState::new(1800);
    assert_eq!(s.current_state(0), SessionStateTag::LoggedOut);
    assert_eq!(s.current_state(u64::MAX), SessionStateTag::LoggedOut);
    assert!(s.active_key().is_none());
}

#[test]
fn expiry_happens_exactly_at_the_validity_boundary() {
    let s = SessionState {
        key: Some(derive_key("pw")),
        last_login_at: 1000,
        validity_period: 100,
    };
    assert_eq!(s.current_state(1000), SessionStateTag::LoggedIn);
    assert_eq!(s.current_state(1099), SessionStateTag::LoggedIn);
    assert_eq!(s.current_state(1100), SessionStateTag::Expired);
    assert_eq!(s.current_state(1101), SessionStateTag::Expired);
    // Expiry never reverts at a later time.
    assert_eq!(s.current_state(u64::MAX), SessionStateTag::Expired);
    // A clock reading before the login time does not count as expired.
    assert_eq!(s.current_state(0), SessionStateTag::LoggedIn);
}

#[test]
fn login_against_probe_envelope() {
    let key = derive_key("right");
    let (c, n) = mima::crypto::encrypt("probe text", &key);
    let mut s = SessionState::new(100);

    // Wrong passphrase: state untouched, WrongPassphrase surfaced.
    let r = s.login("wrong", &c, &n, 500);
    assert_eq!(r, Err(VaultError::WrongPassphrase));
    assert!(s.key.is_none());
    assert_eq!(s.last_login_at, 0);

    // Right passphrase: key installed, login time reset, probe returned.
    let r = s.login("right", &c, &n, 500);
    assert_eq!(r.unwrap(), "probe text");
    assert_eq!(s.last_login_at, 500);
    assert_eq!(s.current_state(599), SessionStateTag::LoggedIn);
    assert_eq!(s.current_state(600), SessionStateTag::Expired);
    let k = s.active_key().unwrap();
    assert_eq!(k.bytes, derive_key("right").bytes);
}

#[test]
fn logout_clears_the_key_at_once() {
    let key = derive_key("pw");
    let (c, n) = mima::crypto::encrypt("probe", &key);
    let mut s = SessionState::new(1800);
    s.login("pw", &c, &n, 42).unwrap();
    assert!(s.active_key().is_some());
    s.logout();
    assert!(s.active_key().is_none());
    assert_eq!(s.current_state(43), SessionStateTag::LoggedOut);
}

#[test]
fn gate_lets_logout_through_always() {
    let states = [
        SessionStateTag::Uninitialized,
        SessionStateTag::LoggedOut,
        SessionStateTag::LoggedIn,
        SessionStateTag::Expired,
    ];
    for st in states {
        assert_eq!(route_gate(st, Page::Logout), Gate::Proceed);
    }
}

#[test]
fn gate_uninitialized_steers_to_account_creation() {
    assert_eq!(
        route_gate(SessionStateTag::Uninitialized, Page::NewAccount),
        Gate::Proceed
    );
    assert_eq!(
        route_gate(SessionStateTag::Uninitialized, Page::Login),
        Gate::ToNewAccount
    );
    assert_eq!(
        route_gate(SessionStateTag::Uninitialized, Page::Other),
        Gate::ToNewAccount
    );
}

#[test]
fn gate_logged_out_steers_to_login() {
    assert_eq!(
        route_gate(SessionStateTag::LoggedOut, Page::Login),
        Gate::Proceed
    );
    assert_eq!(
        route_gate(SessionStateTag::LoggedOut, Page::NewAccount),
        Gate::ToLogin
    );
    assert_eq!(
        route_gate(SessionStateTag::LoggedOut, Page::Other),
        Gate::ToLogin
    );
}

#[test]
fn gate_expired_steers_to_timeout_but_admits_login() {
    assert_eq!(
        route_gate(SessionStateTag::Expired, Page::Login),
        Gate::Proceed
    );
    assert_eq!(
        route_gate(SessionStateTag::Expired, Page::Other),
        Gate::ToTimeout
    );
    assert_eq!(
        route_gate(SessionStateTag::Expired, Page::Timeout),
        Gate::ToTimeout
    );
}

#[test]
fn gate_logged_in_shields_entry_pages() {
    assert_eq!(
        route_gate(SessionStateTag::LoggedIn, Page::Login),
        Gate::ToLoggedIn
    );
    assert_eq!(
        route_gate(SessionStateTag::LoggedIn, Page::NewAccount),
        Gate::ToLoggedIn
    );
    assert_eq!(
        route_gate(SessionStateTag::LoggedIn, Page::Timeout),
        Gate::ToLoggedIn
    );
    assert_eq!(
        route_gate(SessionStateTag::LoggedIn, Page::Other),
        Gate::Proceed
    );
}
