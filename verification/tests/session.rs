use fortress::session::{
    begin_refresh, cached_or_placeholder, complete_full_login, cookie_doc_key, refresh_transcript,
    session_collection_name, session_database_name, AuthError, AuthFlow, BackendCookie, Cookie,
    RefreshStep, SessionEvent, SessionManager, SessionStore,
};

fn credentialed() -> AuthFlow {
    AuthFlow::Credentialed {
        account: "main.account@example.com".to_string(),
        password: "SECRET-REDACTED".to_string(),
    }
}

fn delegated() -> AuthFlow {
    AuthFlow::Delegated { account: "main.account@example.com".to_string() }
}

#[test]
fn document_keys_use_the_local_part() {
    assert_eq!(cookie_doc_key("main.account@example.com"), "main-main.account");
    assert_eq!(cookie_doc_key("user@host"), "main-user");
    assert_eq!(cookie_doc_key("no-at-sign"), "main-no-at-sign");
    assert_eq!(cookie_doc_key(""), "main-");
}

#[test]
fn store_names_match_the_deployment() {
    assert_eq!(session_database_name(), "serverManager");
    assert_eq!(session_collection_name(), "backendCookies");
}

#[test]
fn cookies_round_trip_through_the_cache() {
    let mut store = SessionStore::new();
    let cookie = Cookie { sid: "sid-1".to_string(), remid: "remid-1".to_string() };
    store.push_new_cookies("user@example.com", &cookie, "token-1".to_string());
    let (got, token) = store.get_cookies("user@example.com").unwrap();
    assert_eq!(got.sid, "sid-1");
    assert_eq!(got.remid, "remid-1");
    assert_eq!(token, "token-1");
}

#[test]
fn missing_cookies_fail_the_lookup() {
    let mut store = SessionStore::new();
    assert_eq!(
        store.get_cookies("user@example.com").unwrap_err(),
        AuthError::NoCachedToken
    );
}

#[test]
fn one_document_per_account() {
    let mut store = SessionStore::new();
    let first = Cookie { sid: "old-sid".to_string(), remid: "old-remid".to_string() };
    let second = Cookie { sid: "new-sid".to_string(), remid: "new-remid".to_string() };
    store.push_new_cookies("user@example.com", &first, "t0".to_string());
    store.push_new_cookies("user@example.com", &second, "t1".to_string());
    assert_eq!(store.docs.len(), 1);
    assert_eq!(store.docs[0]._id, "main-user");
    assert_eq!(store.docs[0].sid, "new-sid");
    assert_eq!(store.docs[0].ea_access_token, Some("t1".to_string()));
}

#[test]
fn backend_cookie_converts_to_cookie() {
    let doc = BackendCookie {
        _id: "main-user".to_string(),
        sid: "s".to_string(),
        remid: "r".to_string(),
        ea_access_token: None,
    };
    let cookie = Cookie::from(doc);
    assert_eq!(cookie.sid, "s");
    assert_eq!(cookie.remid, "r");
}

#[test]
fn failed_lookup_falls_back_to_placeholders() {
    let (cookie, token) = cached_or_placeholder(Err(AuthError::NoCachedToken));
    assert_eq!(cookie.sid, "");
    assert_eq!(cookie.remid, "");
    assert_eq!(token, "");
    let pair = (Cookie { sid: "a".to_string(), remid: "b".to_string() }, "c".to_string());
    let (cookie, token) = cached_or_placeholder(Ok(pair));
    assert_eq!(cookie.sid, "a");
    assert_eq!(token, "c");
}

#[test]
fn validation_success_keeps_the_cached_token() {
    assert_eq!(begin_refresh(&credentialed(), true), RefreshStep::UseCached);
    assert_eq!(begin_refresh(&delegated(), true), RefreshStep::UseCached);
}

#[test]
fn validation_failure_escalates_by_flow() {
    assert_eq!(begin_refresh(&credentialed(), false), RefreshStep::FullLoginNeeded);
    assert_eq!(
        begin_refresh(&delegated(), false),
        RefreshStep::RefreshFailed(AuthError::DelegatedRefreshUnavailable)
    );
}

#[test]
fn successful_login_persists_exactly_one_replacement() {
    let mut store = SessionStore::new();
    let stale = Cookie { sid: "stale".to_string(), remid: "stale".to_string() };
    store.push_new_cookies("main.account@example.com", &stale, "old".to_string());

    let fresh = (
        Cookie { sid: "fresh-sid".to_string(), remid: "fresh-remid".to_string() },
        "fresh-token".to_string(),
    );
    let r = complete_full_login(&credentialed(), &mut store, Ok(fresh));
    let (cookie, token) = r.unwrap();
    assert_eq!(cookie.sid, "fresh-sid");
    assert_eq!(token, "fresh-token");
    assert_eq!(store.docs.len(), 1);
    assert_eq!(store.docs[0]._id, "main-main.account");
    assert_eq!(store.docs[0].sid, "fresh-sid");
    assert_eq!(store.docs[0].ea_access_token, Some("fresh-token".to_string()));
}

#[test]
fn failed_login_changes_nothing() {
    let mut store = SessionStore::new();
    let r = complete_full_login(&credentialed(), &mut store, Err(AuthError::LoginFailed));
    assert_eq!(r.unwrap_err(), AuthError::LoginFailed);
    assert!(store.docs.is_empty());
}

#[test]
fn refresh_after_failed_validation_logs_in_once() {
    let events = refresh_transcript(&credentialed(), false, true);
    assert_eq!(
        events,
        vec![
            SessionEvent::PerformedLogin,
            SessionEvent::PersistedToken,
            SessionEvent::SessionReady,
        ]
    );
    let logins = events.iter().filter(|e| **e == SessionEvent::PerformedLogin).count();
    let persists = events.iter().filter(|e| **e == SessionEvent::PersistedToken).count();
    assert_eq!(logins, 1);
    assert_eq!(persists, 1);
}

#[test]
fn other_refresh_traces() {
    assert_eq!(
        refresh_transcript(&credentialed(), true, false),
        vec![SessionEvent::ValidatedCached, SessionEvent::SessionReady]
    );
    assert_eq!(
        refresh_transcript(&delegated(), false, true),
        vec![SessionEvent::RefreshAborted]
    );
    assert_eq!(
        refresh_transcript(&credentialed(), false, false),
        vec![SessionEvent::PerformedLogin, SessionEvent::RefreshAborted]
    );
}

#[test]
fn manager_carries_the_session_id_over() {
    let mut manager = SessionManager::new(credentialed());
    assert_eq!(manager.carryover_session_id(), "");
    assert_eq!(manager.session_handle().unwrap_err(), AuthError::SessionRejected);
    manager.adopt_session("session-77".to_string());
    assert_eq!(manager.carryover_session_id(), "session-77");
    assert_eq!(manager.session_handle().unwrap(), "session-77");
}

#[test]
fn flows_name_their_account() {
    assert_eq!(credentialed().account(), "main.account@example.com");
    assert_eq!(delegated().account(), "main.account@example.com");
}
