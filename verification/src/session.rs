//! The shared authentication session: a cached cookie/token pair per account
//! held in a document store, the two supported authentication flows, and the
//! validate-then-refresh steps that keep at most one persisted token per
//! account.

use vstd::prelude::*;
use crate::text::{find_char_from, lemma_find_char_from, scan_char};

verus! {

/// The cookie pair the remote auth collaborator works with.
#[derive(Debug)]
pub struct Cookie {
    pub sid: String,
    pub remid: String,
}

/// One cached document of the session store: the account key, the cookie
/// pair, and the optional upstream access token.
#[derive(Debug)]
pub struct BackendCookie {
    pub _id: String,
    pub sid: String,
    pub remid: String,
    pub ea_access_token: Option<String>,
}

impl From<BackendCookie> for Cookie {
    fn from(cookie: BackendCookie) -> (r: Self) {
        Cookie { remid: cookie.remid, sid: cookie.sid }
    }
}

impl vstd::std_specs::convert::FromSpecImpl<BackendCookie> for Cookie {
    open spec fn obeys_from_spec() -> bool {
        true
    }

    open spec fn from_spec(v: BackendCookie) -> Cookie {
        Cookie { sid: v.sid, remid: v.remid }
    }
}

/// How the process authenticates: with full account credentials, able to log
/// in afresh, or delegated to a cached cookie alone, with no recovery path.
#[derive(Debug)]
pub enum AuthFlow {
    Credentialed { account: String, password: String },
    Delegated { account: String },
}

/// Failure of session handling.
#[derive(Debug, Clone, Copy, PartialEq, Eq, Structural)]
pub enum AuthError {
    NoCachedToken,
    LoginFailed,
    DelegatedRefreshUnavailable,
    SessionRejected,
}

/// Whether the flow can perform a full login.
pub open spec fn is_credentialed(flow: AuthFlow) -> bool {
    flow is Credentialed
}

/// The account the flow authenticates.
pub open spec fn flow_account(flow: AuthFlow) -> Seq<char> {
    match flow {
        AuthFlow::Credentialed { account, .. } => account@,
        AuthFlow::Delegated { account } => account@,
    }
}

impl AuthFlow {
    /// The account the flow authenticates.
    pub fn account(&self) -> (r: &str)
        ensures
            r@ == flow_account(*self),
    {
        match self {
            AuthFlow::Credentialed { account, .. } => account.as_str(),
            AuthFlow::Delegated { account } => account.as_str(),
        }
    }
}

/// The document key of an account: `main-` followed by the local part of its
/// email address.
pub open spec fn doc_key_of(email: Seq<char>) -> Seq<char> {
    "main-"@ + email.take(find_char_from(email, 0, '@'))
}

/// Builds the document key of an account.
pub fn cookie_doc_key(acc_email: &str) -> (r: String)
    ensures
        r@ == doc_key_of(acc_email@),
{
    let k: usize = scan_char(acc_email, 0, '@');
    proof {
        lemma_find_char_from(acc_email@, 0, '@');
    }
    let local: &str = acc_email.substring_char(0, k);
    let r: String = String::from_str("main-").concat(local);
    proof {
        assert(acc_email@.subrange(0, k as int) =~= acc_email@.take(k as int));
    }
    r
}

/// Index of the first document keyed `key`, or `-1` if there is none.
pub open spec fn find_doc(docs: Seq<BackendCookie>, key: Seq<char>) -> int
    decreases docs.len(),
{
    if docs.len() == 0 {
        -1
    } else if docs[0]._id@ == key {
        0
    } else {
        let r = find_doc(docs.drop_first(), key);
        if r < 0 {
            -1
        } else {
            r + 1
        }
    }
}

/// Replace-on-conflict for the document store: the document under the same
/// key is replaced, or the new one appended.
pub open spec fn upsert_docs(docs: Seq<BackendCookie>, doc: BackendCookie) -> Seq<BackendCookie> {
    let f = find_doc(docs, doc._id@);
    if f < 0 {
        docs.push(doc)
    } else {
        docs.update(f, doc)
    }
}

/// No two documents share a key: at most one persisted token per account.
pub open spec fn unique_keys(docs: Seq<BackendCookie>) -> bool {
    forall|i: int, j: int| 0 <= i < j < docs.len() ==> docs[i]._id@ != docs[j]._id@
}

/// In-memory model of the durable session cache.
pub struct SessionStore {
    pub docs: Vec<BackendCookie>,
}

impl SessionStore {
    /// An empty cache.
    pub fn new() -> (s: SessionStore)
        ensures
            s.docs@.len() == 0,
    {
        SessionStore { docs: Vec::new() }
    }

    /// Persists a fresh cookie/token pair for the account, replacing any
    /// document already keyed to it.
    pub fn push_new_cookies(&mut self, acc_email: &str, cookie: &Cookie, ea_access_token: String)
        ensures
            exists|d: BackendCookie|
                d._id@ == doc_key_of(acc_email@) && d.sid == cookie.sid && d.remid == cookie.remid
                    && d.ea_access_token == Some(ea_access_token) && final(self).docs@
                    == upsert_docs(old(self).docs@, d),
            unique_keys(old(self).docs@) ==> unique_keys(final(self).docs@),
    {
        let key: String = cookie_doc_key(acc_email);
        let doc = BackendCookie {
            _id: key,
            sid: cookie.sid.clone(),
            remid: cookie.remid.clone(),
            ea_access_token: Some(ea_access_token),
        };
        let ghost gdoc: BackendCookie = doc;
        self.upsert(doc);
        proof {
            assert(self.docs@ == upsert_docs(old(self).docs@, gdoc));
        }
    }

    /// Reads the cached cookie/token pair of an account; a missing document
    /// fails, an absent token comes back empty.
    pub fn get_cookies(&mut self, acc_email: &str) -> (r: Result<(Cookie, String), AuthError>)
        ensures
            *final(self) == *old(self),
            ({
                let f = find_doc(old(self).docs@, doc_key_of(acc_email@));
                if f < 0 {
                    r == Err::<(Cookie, String), AuthError>(AuthError::NoCachedToken)
                } else {
                    let d = old(self).docs@[f];
                    r matches Ok(p) && p.0.sid == d.sid && p.0.remid == d.remid && p.1@ == (
                    match d.ea_access_token {
                        Some(t) => t@,
                        None => Seq::<char>::empty(),
                    })
                }
            }),
    {
        let key: String = cookie_doc_key(acc_email);
        let ghost keyv: Seq<char> = key@;
        let mut i: usize = 0;
        while i < self.docs.len()
            invariant
                *self == *old(self),
                keyv == doc_key_of(acc_email@),
                i <= self.docs@.len(),
                key@ == keyv,
                forall|j: int| 0 <= j < i ==> self.docs@[j]._id@ != keyv,
            decreases self.docs@.len() - i,
        {
            if self.docs[i]._id == key {
                proof {
                    lemma_find_doc_at(self.docs@, keyv, i as int);
                }
                let d: &BackendCookie = &self.docs[i];
                let token: String = match &d.ea_access_token {
                    Some(t) => t.clone(),
                    None => String::new(),
                };
                return Ok((Cookie { sid: d.sid.clone(), remid: d.remid.clone() }, token));
            }
            i += 1;
        }
        proof {
            lemma_find_doc_bounds(self.docs@, keyv);
        }
        Err(AuthError::NoCachedToken)
    }

    /// Inserts a document, replacing the one under the same key.
    fn upsert(&mut self, doc: BackendCookie)
        ensures
            final(self).docs@ == upsert_docs(old(self).docs@, doc),
            unique_keys(old(self).docs@) ==> unique_keys(final(self).docs@),
    {
        let ghost orig: Seq<BackendCookie> = self.docs@;
        let mut i: usize = 0;
        while i < self.docs.len()
            invariant
                orig == old(self).docs@,
                self.docs@ == orig,
                i <= orig.len(),
                forall|j: int| 0 <= j < i ==> orig[j]._id@ != doc._id@,
            decreases orig.len() - i,
        {
            if self.docs[i]._id == doc._id {
                proof {
                    lemma_find_doc_at(orig, doc._id@, i as int);
                }
                self.docs.remove(i);
                self.docs.insert(i, doc);
                proof {
                    assert(self.docs@ =~= orig.update(i as int, doc));
                    assert(self.docs@ =~= upsert_docs(orig, doc));
                    if unique_keys(orig) {
                        assert forall|p: int, q: int|
                            0 <= p < q < self.docs@.len() implies self.docs@[p]._id@
                            != self.docs@[q]._id@ by {
                            assert(self.docs@[p]._id@ == orig[p]._id@);
                            assert(self.docs@[q]._id@ == orig[q]._id@);
                        }
                    }
                }
                return ;
            }
            i += 1;
        }
        proof {
            lemma_find_doc_bounds(orig, doc._id@);
        }
        self.docs.push(doc);
        proof {
            assert(self.docs@ =~= upsert_docs(orig, doc));
            if unique_keys(orig) {
                assert forall|p: int, q: int|
                    0 <= p < q < self.docs@.len() implies self.docs@[p]._id@
                    != self.docs@[q]._id@ by {
                    if q < orig.len() {
                        assert(self.docs@[p]._id@ == orig[p]._id@);
                        assert(self.docs@[q]._id@ == orig[q]._id@);
                    } else {
                        assert(self.docs@[p]._id@ == orig[p]._id@);
                        assert(orig[p]._id@ != doc._id@);
                    }
                }
            }
        }
    }
}

/// `find_doc` is in bounds; a negative answer means the key is absent, a
/// non-negative one points at the first document carrying it.
pub proof fn lemma_find_doc_bounds(docs: Seq<BackendCookie>, key: Seq<char>)
    ensures
        -1 <= find_doc(docs, key) < docs.len(),
        find_doc(docs, key) == -1 ==> forall|i: int| 0 <= i < docs.len() ==> docs[i]._id@ != key,
        find_doc(docs, key) >= 0 ==> docs[find_doc(docs, key)]._id@ == key && forall|i: int|
            0 <= i < find_doc(docs, key) ==> docs[i]._id@ != key,
    decreases docs.len(),
{
    if docs.len() > 0 && docs[0]._id@ != key {
        let rest = docs.drop_first();
        lemma_find_doc_bounds(rest, key);
        assert(forall|i: int| 0 <= i < rest.len() ==> rest[i] == docs[i + 1]);
        if find_doc(docs, key) == -1 {
            assert forall|i: int| 0 <= i < docs.len() implies docs[i]._id@ != key by {
                if i >= 1 {
                    assert(docs[i] == rest[i - 1]);
                }
            }
        } else {
            let f = find_doc(docs, key);
            assert(docs[f] == rest[f - 1]);
            assert forall|i: int| 0 <= i < f implies docs[i]._id@ != key by {
                if i >= 1 {
                    assert(docs[i] == rest[i - 1]);
                }
            }
        }
    }
}

/// Pinpoints `find_doc` at `i` when all earlier documents carry other keys
/// and document `i` carries `key`.
pub proof fn lemma_find_doc_at(docs: Seq<BackendCookie>, key: Seq<char>, i: int)
    requires
        0 <= i < docs.len(),
        forall|j: int| 0 <= j < i ==> docs[j]._id@ != key,
        docs[i]._id@ == key,
    ensures
        find_doc(docs, key) == i,
    decreases i,
{
    if i > 0 {
        let rest = docs.drop_first();
        assert(forall|j: int| 0 <= j < rest.len() ==> rest[j] == docs[j + 1]);
        lemma_find_doc_at(rest, key, i - 1);
    }
}

/// The remote session handle a process holds.
#[derive(Debug)]
pub enum SessionState {
    NoSession,
    Authenticated { session_id: String },
}

/// Owner of the in-memory session: the configured flow and the current
/// handle.
#[derive(Debug)]
pub struct SessionManager {
    pub flow: AuthFlow,
    pub state: SessionState,
}

/// What validation of the cached token leads to: keep it, log in afresh, or
/// give up (the delegated flow has no recovery path).
#[derive(Debug, Clone, Copy, PartialEq, Eq, Structural)]
pub enum RefreshStep {
    UseCached,
    FullLoginNeeded,
    RefreshFailed(AuthError),
}

/// One event of a session refresh, in the order it happens.
#[derive(Debug, Clone, Copy, PartialEq, Eq, Structural)]
pub enum SessionEvent {
    ValidatedCached,
    PerformedLogin,
    PersistedToken,
    SessionReady,
    RefreshAborted,
}

/// The events a refresh goes through, given how the flow is configured and
/// how validation and (if reached) login come out.
pub open spec fn refresh_events(credentialed: bool, validation_ok: bool, login_ok: bool) -> Seq<
    SessionEvent,
> {
    if validation_ok {
        seq![SessionEvent::ValidatedCached, SessionEvent::SessionReady]
    } else if !credentialed {
        seq![SessionEvent::RefreshAborted]
    } else if login_ok {
        seq![SessionEvent::PerformedLogin, SessionEvent::PersistedToken, SessionEvent::SessionReady]
    } else {
        seq![SessionEvent::PerformedLogin, SessionEvent::RefreshAborted]
    }
}

/// How many times an event occurs in a trace.
pub open spec fn count_events(s: Seq<SessionEvent>, e: SessionEvent) -> int
    decreases s.len(),
{
    if s.len() == 0 {
        0
    } else {
        (if s[0] == e {
            1int
        } else {
            0int
        }) + count_events(s.drop_first(), e)
    }
}

impl SessionManager {
    /// A manager for the configured flow, holding no session yet.
    pub fn new(flow: AuthFlow) -> (m: SessionManager)
        ensures
            m.flow == flow,
            m.state is NoSession,
    {
        SessionManager { flow, state: SessionState::NoSession }
    }

    /// The session id to carry over into a refreshed handle: the current one,
    /// or empty where none is held.
    pub fn carryover_session_id(&self) -> (r: String)
        ensures
            match self.state {
                SessionState::Authenticated { session_id } => r == session_id,
                SessionState::NoSession => r@ == Seq::<char>::empty(),
            },
    {
        match &self.state {
            SessionState::Authenticated { session_id } => session_id.clone(),
            SessionState::NoSession => String::new(),
        }
    }

    /// The authenticated handle's session id; without one the remote fetch
    /// cannot be attempted.
    pub fn session_handle(&self) -> (r: Result<&str, AuthError>)
        ensures
            match self.state {
                SessionState::Authenticated { session_id } => r matches Ok(sid) && sid@
                    == session_id@,
                SessionState::NoSession => r == Err::<&str, AuthError>(AuthError::SessionRejected),
            },
    {
        match &self.state {
            SessionState::Authenticated { session_id } => Ok(session_id.as_str()),
            SessionState::NoSession => Err(AuthError::SessionRejected),
        }
    }

    /// Adopts a freshly authenticated handle.
    pub fn adopt_session(&mut self, session_id: String)
        ensures
            final(self).flow == old(self).flow,
            final(self).state == (SessionState::Authenticated { session_id }),
    {
        self.state = SessionState::Authenticated { session_id };
    }
}

/// Name of the database holding the shared session cache.
pub fn session_database_name() -> (s: &'static str)
    ensures
        s@ == "serverManager"@,
{
    "serverManager"
}

/// Name of the collection holding the cached cookies.
pub fn session_collection_name() -> (s: &'static str)
    ensures
        s@ == "backendCookies"@,
{
    "backendCookies"
}

/// The cached pair where the cache lookup succeeded, or the empty placeholder
/// where it failed.
pub fn cached_or_placeholder(lookup: Result<(Cookie, String), AuthError>) -> (r: (Cookie, String))
    ensures
        lookup matches Ok(p) ==> r == p,
        lookup is Err ==> r.0.sid@ == Seq::<char>::empty() && r.0.remid@ == Seq::<char>::empty()
            && r.1@ == Seq::<char>::empty(),
{
    match lookup {
        Ok(p) => p,
        Err(_) => (Cookie { sid: String::new(), remid: String::new() }, String::new()),
    }
}

/// Decides what follows validation of the cached token: keep it on success;
/// on failure the credentialed flow escalates to a full login, the delegated
/// flow surfaces the failure.
pub fn begin_refresh(flow: &AuthFlow, validation_ok: bool) -> (r: RefreshStep)
    ensures
        validation_ok ==> r == RefreshStep::UseCached,
        !validation_ok && is_credentialed(*flow) ==> r == RefreshStep::FullLoginNeeded,
        !validation_ok && !is_credentialed(*flow) ==> r == RefreshStep::RefreshFailed(
            AuthError::DelegatedRefreshUnavailable,
        ),
{
    if validation_ok {
        RefreshStep::UseCached
    } else {
        match flow {
            AuthFlow::Credentialed { .. } => RefreshStep::FullLoginNeeded,
            AuthFlow::Delegated { .. } => RefreshStep::RefreshFailed(
                AuthError::DelegatedRefreshUnavailable,
            ),
        }
    }
}

/// Takes the outcome of the full login: a fresh pair is persisted for the
/// flow's account before it is handed back; a failed login changes nothing.
pub fn complete_full_login(
    flow: &AuthFlow,
    store: &mut SessionStore,
    login: Result<(Cookie, String), AuthError>,
) -> (r: Result<(Cookie, String), AuthError>)
    ensures
        r == login,
        login matches Err(_) ==> *final(store) == *old(store),
        login matches Ok(p) ==> exists|d: BackendCookie|
            d._id@ == doc_key_of(flow_account(*flow)) && d.sid == p.0.sid && d.remid == p.0.remid
                && (d.ea_access_token matches Some(t) && t@ == p.1@) && final(store).docs@
                == upsert_docs(old(store).docs@, d),
        unique_keys(old(store).docs@) ==> unique_keys(final(store).docs@),
{
    match login {
        Ok(p) => {
            store.push_new_cookies(flow.account(), &p.0, p.1.clone());
            Ok(p)
        },
        Err(e) => Err(e),
    }
}

/// The refresh events, as a value tests can drive.
pub fn refresh_transcript(flow: &AuthFlow, validation_ok: bool, login_ok: bool) -> (v: Vec<
    SessionEvent,
>)
    ensures
        v@ == refresh_events(is_credentialed(*flow), validation_ok, login_ok),
{
    let mut v: Vec<SessionEvent> = Vec::new();
    if validation_ok {
        v.push(SessionEvent::ValidatedCached);
        v.push(SessionEvent::SessionReady);
    } else {
        match flow {
            AuthFlow::Delegated { .. } => {
                v.push(SessionEvent::RefreshAborted);
            },
            AuthFlow::Credentialed { .. } => {
                v.push(SessionEvent::PerformedLogin);
                if login_ok {
                    v.push(SessionEvent::PersistedToken);
                    v.push(SessionEvent::SessionReady);
                } else {
                    v.push(SessionEvent::RefreshAborted);
                }
            },
        }
    }
    proof {
        assert(v@ =~= refresh_events(is_credentialed(*flow), validation_ok, login_ok));
    }
    v
}

/// Law: under the credentialed flow, a cached token that fails validation
/// triggers exactly one full login; when that login succeeds, exactly one
/// token is persisted, and it is persisted before the session is ready.
pub proof fn lemma_refresh_single_reauthentication(login_ok: bool)
    ensures
        count_events(refresh_events(true, false, login_ok), SessionEvent::PerformedLogin) == 1,
        count_events(refresh_events(true, false, login_ok), SessionEvent::PersistedToken) == (
        if login_ok {
            1int
        } else {
            0int
        }),
        login_ok ==> refresh_events(true, false, login_ok) == seq![
            SessionEvent::PerformedLogin,
            SessionEvent::PersistedToken,
            SessionEvent::SessionReady,
        ],
{
    let evs = refresh_events(true, false, login_ok);
    if login_ok {
        let e1 = evs.drop_first();
        let e2 = e1.drop_first();
        let e3 = e2.drop_first();
        assert(e1 =~= seq![SessionEvent::PersistedToken, SessionEvent::SessionReady]);
        assert(e2 =~= seq![SessionEvent::SessionReady]);
        assert(e3 =~= Seq::<SessionEvent>::empty());
        assert(count_events(e3, SessionEvent::PerformedLogin) == 0);
        assert(count_events(e2, SessionEvent::PerformedLogin) == 0);
        assert(count_events(e1, SessionEvent::PerformedLogin) == 0);
        assert(count_events(e3, SessionEvent::PersistedToken) == 0);
        assert(count_events(e2, SessionEvent::PersistedToken) == 0);
        assert(count_events(e1, SessionEvent::PersistedToken) == 1);
    } else {
        let e1 = evs.drop_first();
        let e2 = e1.drop_first();
        assert(e1 =~= seq![SessionEvent::RefreshAborted]);
        assert(e2 =~= Seq::<SessionEvent>::empty());
        assert(count_events(e2, SessionEvent::PerformedLogin) == 0);
        assert(count_events(e1, SessionEvent::PerformedLogin) == 0);
        assert(count_events(e2, SessionEvent::PersistedToken) == 0);
        assert(count_events(e1, SessionEvent::PersistedToken) == 0);
    }
}

} // verus!
