//! The request-gating decision.
//!
//! Every inbound request is checked against the session state before it is
//! served: an uninitialized vault steers everything to account creation, a
//! logged-out session to the login page, an expired one to the timeout page,
//! and a live session away from the entry pages.  The host maps a request
//! path to a [`Page`], asks [`route_gate`] for the decision, and performs
//! the redirect itself.

use vstd::prelude::*;

use crate::session::SessionStateTag;

verus! {

/// The pages the request filter distinguishes.  Everything else (listing,
/// adding, record operations) is `Other`.
#[derive(Clone, Copy, Debug, PartialEq, Eq, Structural)]
pub enum Page {
    NewAccount,
    Login,
    Timeout,
    Logout,
    Other,
}

/// The decision for a request: serve it, or redirect.
#[derive(Clone, Copy, Debug, PartialEq, Eq, Structural)]
pub enum Gate {
    Proceed,
    ToNewAccount,
    ToLogin,
    ToTimeout,
    ToLoggedIn,
}

/// The gating rule.
///
/// A logout request always passes.  An uninitialized vault admits only the
/// account-creation page; a logged-out session only the login page; an
/// expired session admits the login page and sends everything else to the
/// timeout page; a live session sends the three entry pages to the
/// logged-in page and admits the rest.
pub open spec fn spec_route_gate(state: SessionStateTag, page: Page) -> Gate {
    if page == Page::Logout {
        Gate::Proceed
    } else {
        match state {
            SessionStateTag::Uninitialized => if page == Page::NewAccount {
                Gate::Proceed
            } else {
                Gate::ToNewAccount
            },
            SessionStateTag::LoggedOut => if page == Page::Login {
                Gate::Proceed
            } else {
                Gate::ToLogin
            },
            SessionStateTag::Expired => if page == Page::Login {
                Gate::Proceed
            } else {
                Gate::ToTimeout
            },
            SessionStateTag::LoggedIn => if page == Page::Login || page == Page::NewAccount
                || page == Page::Timeout {
                Gate::ToLoggedIn
            } else {
                Gate::Proceed
            },
        }
    }
}

/// Decide what to do with a request for `page` under session state `state`.
pub fn route_gate(state: SessionStateTag, page: Page) -> (g: Gate)
    ensures
        g == spec_route_gate(state, page),
{
    if matches!(page, Page::Logout) {
        return Gate::Proceed;
    }
    match state {
        SessionStateTag::Uninitialized => if matches!(page, Page::NewAccount) {
            Gate::Proceed
        } else {
            Gate::ToNewAccount
        },
        SessionStateTag::LoggedOut => if matches!(page, Page::Login) {
            Gate::Proceed
        } else {
            Gate::ToLogin
        },
        SessionStateTag::Expired => if matches!(page, Page::Login) {
            Gate::Proceed
        } else {
            Gate::ToTimeout
        },
        SessionStateTag::LoggedIn => if matches!(page, Page::Login) || matches!(
            page,
            Page::NewAccount,
        ) || matches!(page, Page::Timeout) {
            Gate::ToLoggedIn
        } else {
            Gate::Proceed
        },
    }
}

} // verus!
