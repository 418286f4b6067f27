//! Who may use the server: credentials, sessions, and what each request gets.

use crate::config::AuthConfig;
use crate::text;
use sha2::Digest;
use vstd::prelude::*;

verus! {

/// The SHA-256 digest of a byte string.
pub uninterp spec fn sha256(bytes: Seq<u8>) -> Seq<u8>;

/// `Sha256::digest` of the `sha2` crate: 32 bytes that depend on the input
/// alone. Which bytes they are is not said.
#[verifier::external_body]
fn sha256_digest(bytes: &[u8]) -> (d: [u8; 32])
    ensures
        d@ == sha256(bytes@),
{
    sha2::Sha256::digest(bytes).into()
}

/// `Rng::gen` of the `rand` crate on its thread-local generator: 32 random
/// bytes, of which nothing can be said.
#[verifier::external_body]
fn random_bytes() -> (r: [u8; 32]) {
    rand::Rng::gen(&mut rand::thread_rng())
}

/// The lower-case hexadecimal digit of `d`.
pub open spec fn hex_digit(d: u8) -> char {
    if d < 10 {
        (48 + d) as char
    } else {
        (87 + d) as char
    }
}

/// Two lower-case hexadecimal digits for each byte, the high one first.
pub open spec fn hex_text(bytes: Seq<u8>) -> Seq<char> {
    Seq::new(
        2 * bytes.len(),
        |i: int|
            hex_digit(
                if i % 2 == 0 {
                    bytes[i / 2] / 16
                } else {
                    bytes[i / 2] % 16
                },
            ),
    )
}

/// `hex::encode` writes two lower-case hexadecimal digits for each byte.
#[verifier::external_body]
fn hex_encode(bytes: &[u8]) -> (s: String)
    ensures
        s@ == hex_text(bytes@),
{
    hex::encode(bytes)
}

/// The digest of a text's bytes.
pub open spec fn text_hash(s: Seq<char>) -> Seq<u8> {
    sha256(vstd::utf8::encode_utf8(s))
}

fn hash_str(s: &str) -> (d: [u8; 32])
    ensures
        d@ == text_hash(s@),
{
    sha256_digest(s.as_bytes())
}

/// Compares all bytes of two digests, whatever the first ones say.
fn same_hash(a: &[u8; 32], b: &[u8; 32]) -> (r: bool)
    ensures
        r == (a@ == b@),
{
    let mut same: bool = true;
    let mut i: usize = 0;
    while i < 32
        invariant
            i <= 32,
            same == (forall|j: int| 0 <= j < i ==> a@[j] == b@[j]),
        decreases 32 - i,
    {
        let here: bool = a[i] == b[i];
        same = here && same;
        i = i + 1;
    }
    proof {
        if same {
            assert(a@ =~= b@);
        }
    }
    same
}

/// The credentials, kept as digests, and the sessions that are open.
pub struct AuthState {
    username_hash: [u8; 32],
    password_hash: [u8; 32],
    open: Vec<String>,
}

impl AuthState {
    /// No session is listed twice.
    pub closed spec fn well_formed(&self) -> bool {
        forall|i: int, j: int|
            0 <= i < j < self.open@.len() ==> (#[trigger] self.open@[i])@ != (
            #[trigger] self.open@[j])@
    }

    /// The tokens of the open sessions.
    pub closed spec fn sessions(&self) -> Set<Seq<char>> {
        Set::new(|t: Seq<char>| text::texts(self.open@).contains(t))
    }

    /// Whether a name and a password have the digests that are kept.
    pub closed spec fn accepts(&self, username: Seq<char>, password: Seq<char>) -> bool {
        text_hash(username) == self.username_hash@ && text_hash(password) == self.password_hash@
    }

    /// No session is open; the configured credentials are accepted, and any
    /// others only if their digests are the same.
    pub fn new(auth_config: &AuthConfig) -> (r: Self)
        ensures
            r.well_formed(),
            r.sessions() == Set::<Seq<char>>::empty(),
            forall|u: Seq<char>, p: Seq<char>| #[trigger]
                r.accepts(u, p) == (text_hash(u) == text_hash(auth_config.username@) && text_hash(p)
                    == text_hash(auth_config.password@)),
            r.accepts(auth_config.username@, auth_config.password@),
    {
        let r = AuthState {
            username_hash: hash_str(auth_config.username.as_str()),
            password_hash: hash_str(auth_config.password.as_str()),
            open: Vec::new(),
        };
        proof {
            assert(r.sessions() =~= Set::<Seq<char>>::empty());
        }
        r
    }

    /// Checks credentials. Opens a session with a random token if they are
    /// accepted.
    pub fn login(&mut self, username: &str, password: &str) -> (r: Option<String>)
        requires
            old(self).well_formed(),
        ensures
            final(self).well_formed(),
            r is Some <==> old(self).accepts(username@, password@),
            match r {
                Some(token) => {
                    &&& exists|random: Seq<u8>|
                        random.len() == 32 && token@ == #[trigger] hex_text(random)
                    &&& final(self).sessions() == old(self).sessions().insert(token@)
                },
                None => final(self).sessions() == old(self).sessions(),
            },
            forall|u: Seq<char>, p: Seq<char>| #[trigger]
                final(self).accepts(u, p) == old(self).accepts(u, p),
            session_step(
                *old(self),
                (SessionEvent::Login {
                    username: username@,
                    password: password@,
                    token: match r {
                        Some(t) => Some(t@),
                        None => None,
                    },
                }),
                *final(self),
            ),
    {
        let random = random_bytes();
        self.login_with(username, password, random)
    }

    /// Checks credentials. Opens a session whose token spells `random` if they
    /// are accepted.
    pub fn login_with(&mut self, username: &str, password: &str, random: [u8; 32]) -> (r: Option<
        String,
    >)
        requires
            old(self).well_formed(),
        ensures
            final(self).well_formed(),
            match r {
                Some(token) => {
                    &&& old(self).accepts(username@, password@)
                    &&& token@ == hex_text(random@)
                    &&& final(self).sessions() == old(self).sessions().insert(token@)
                    &&& final(self).sessions().contains(token@)
                },
                None => {
                    &&& !old(self).accepts(username@, password@)
                    &&& final(self).sessions() == old(self).sessions()
                },
            },
            forall|u: Seq<char>, p: Seq<char>| #[trigger]
                final(self).accepts(u, p) == old(self).accepts(u, p),
            session_step(
                *old(self),
                (SessionEvent::Login {
                    username: username@,
                    password: password@,
                    token: match r {
                        Some(t) => Some(t@),
                        None => None,
                    },
                }),
                *final(self),
            ),
    {
        let u = hash_str(username);
        let p = hash_str(password);
        let u_ok: bool = same_hash(&u, &self.username_hash);
        let p_ok: bool = same_hash(&p, &self.password_hash);
        if !(u_ok && p_ok) {
            return None;
        }
        let token = hex_encode(&random);
        let held: bool = text::holds_text(&self.open, token.as_str());
        if !held {
            self.open.push(token.clone());
        }
        proof {
            let before = text::texts(old(self).open@);
            let after = text::texts(self.open@);
            if !held {
                assert(after =~= before.push(token@));
                assert forall|i: int, j: int| 0 <= i < j < self.open@.len() implies (
                #[trigger] self.open@[i])@ != (#[trigger] self.open@[j])@ by {
                    assert(before[i] == self.open@[i]@);
                    if j < before.len() {
                        assert(before[j] == self.open@[j]@);
                    }
                }
            }
            lemma_insert(before, after, token@);
            assert(self.sessions() =~= old(self).sessions().insert(token@));
        }
        Some(token)
    }

    /// Whether a session with this token is open.
    pub fn is_valid_session(&self, token: &str) -> (r: bool)
        ensures
            r == self.sessions().contains(token@),
    {
        text::holds_text(&self.open, token)
    }

    /// Closes the session with this token, if there is one, and no other.
    pub fn logout(&mut self, token: &str)
        requires
            old(self).well_formed(),
        ensures
            final(self).well_formed(),
            final(self).sessions() == old(self).sessions().remove(token@),
            !final(self).sessions().contains(token@),
            forall|u: Seq<char>, p: Seq<char>| #[trigger]
                final(self).accepts(u, p) == old(self).accepts(u, p),
            session_step(*old(self), (SessionEvent::Logout { token: token@ }), *final(self)),
    {
        let ghost before = text::texts(self.open@);
        let mut i: usize = 0;
        while i < self.open.len()
            invariant
                i <= self.open@.len(),
                *self == *old(self),
                old(self).well_formed(),
                before == text::texts(old(self).open@),
                forall|j: int| 0 <= j < i ==> before[j] != token@,
            decreases self.open@.len() - i,
        {
            if text::same(self.open[i].as_str(), token) {
                self.open.remove(i);
                proof {
                    let after = text::texts(self.open@);
                    assert(before[i as int] == token@);
                    assert(after =~= before.remove(i as int));
                    lemma_remove(before, i as int);
                    assert forall|a: int, b: int| 0 <= a < b < self.open@.len() implies (
                    #[trigger] self.open@[a])@ != (#[trigger] self.open@[b])@ by {
                        let x = if a < i {
                            a
                        } else {
                            a + 1
                        };
                        let y = if b < i {
                            b
                        } else {
                            b + 1
                        };
                        assert(self.open@[a] == old(self).open@[x]);
                        assert(self.open@[b] == old(self).open@[y]);
                    }
                    assert(self.sessions() =~= old(self).sessions().remove(token@));
                }
                return ;
            }
            i = i + 1;
        }
        proof {
            assert(!before.contains(token@));
            assert(self.sessions() =~= old(self).sessions().remove(token@));
        }
    }
}

/// What happens to the sessions.
pub enum SessionEvent {
    /// Somebody logged in, or tried to: the token is what was returned.
    Login { username: Seq<char>, password: Seq<char>, token: Option<Seq<char>> },
    /// The session with this token was closed, if there was one.
    Logout { token: Seq<char> },
}

/// Whether a login returned this token.
pub open spec fn opens(e: SessionEvent, token: Seq<char>) -> bool {
    e matches SessionEvent::Login { token: t, .. } && t == Some(token)
}

/// Whether a logout named this token.
pub open spec fn closes(e: SessionEvent, token: Seq<char>) -> bool {
    e matches SessionEvent::Logout { token: t } && t == token
}

/// Whether the `i`-th event is a login that returned `token`, with no logout
/// that names it behind.
pub open spec fn open_since(events: Seq<SessionEvent>, token: Seq<char>, i: int) -> bool {
    &&& 0 <= i < events.len()
    &&& opens(events[i], token)
    &&& forall|j: int| i < j < events.len() ==> !closes(#[trigger] events[j], token)
}

/// Whether some login returned `token` and no later logout named it.
pub open spec fn opened_and_not_closed(events: Seq<SessionEvent>, token: Seq<char>) -> bool {
    exists|i: int| #[trigger] open_since(events, token, i)
}

/// How an event changes the state: a login with the right credentials adds the
/// token that it returns, one with others returns none and changes nothing, a
/// logout takes its token away; the credentials stay.
pub open spec fn session_step(before: AuthState, e: SessionEvent, after: AuthState) -> bool {
    &&& match e {
        SessionEvent::Login { username, password, token } => match token {
            Some(t) => before.accepts(username, password) && after.sessions()
                == before.sessions().insert(t),
            None => !before.accepts(username, password) && after.sessions() == before.sessions(),
        },
        SessionEvent::Logout { token } => after.sessions() == before.sessions().remove(token),
    }
    &&& forall|u: Seq<char>, p: Seq<char>| #[trigger] after.accepts(u, p) == before.accepts(u, p)
}

proof fn lemma_insert(before: Seq<Seq<char>>, after: Seq<Seq<char>>, t: Seq<char>)
    requires
        after == before && before.contains(t) || after == before.push(t),
    ensures
        forall|x: Seq<char>| #[trigger] after.contains(x) <==> before.contains(x) || x == t,
{
    assert forall|x: Seq<char>| #[trigger] after.contains(x) implies before.contains(x) || x
        == t by {
        let i = choose|i: int| 0 <= i < after.len() && after[i] == x;
        if i < before.len() {
            assert(before[i] == x);
        }
    }
    assert forall|x: Seq<char>| before.contains(x) || x == t implies #[trigger] after.contains(
        x,
    ) by {
        if before.contains(x) {
            let i = choose|i: int| 0 <= i < before.len() && before[i] == x;
            assert(after[i] == x);
        } else {
            assert(after[before.len() as int] == t);
        }
    }
}

proof fn lemma_remove(before: Seq<Seq<char>>, k: int)
    requires
        0 <= k < before.len(),
        forall|i: int, j: int| 0 <= i < j < before.len() ==> before[i] != before[j],
    ensures
        forall|x: Seq<char>| #[trigger]
            before.remove(k).contains(x) <==> before.contains(x) && x != before[k],
{
    let after = before.remove(k);
    assert forall|x: Seq<char>| #[trigger] after.contains(x) implies before.contains(x) && x
        != before[k] by {
        let i = choose|i: int| 0 <= i < after.len() && after[i] == x;
        let o = if i < k {
            i
        } else {
            i + 1
        };
        assert(before[o] == x);
        if o < k {
            assert(before[o] != before[k]);
        } else {
            assert(before[k] != before[o]);
        }
    }
    assert forall|x: Seq<char>| before.contains(x) && x != before[k] implies
        #[trigger] after.contains(x) by {
        let i = choose|i: int| 0 <= i < before.len() && before[i] == x;
        let n = if i < k {
            i
        } else {
            i - 1
        };
        assert(after[n] == x);
    }
}

// ── Tokens in requests ─────────────────────────────────────────────

/// The parts of a request that can carry a session token.
#[derive(Clone, Copy)]
pub struct Credentials<'a> {
    /// The `Authorization` header.
    pub authorization: Option<&'a str>,
    /// The `Cookie` header.
    pub cookie: Option<&'a str>,
    /// The query of the address.
    pub query: Option<&'a str>,
}

/// What follows `prefix` in `s`, trimmed, unless that is empty.
pub open spec fn value_behind(s: Seq<char>, prefix: Seq<char>) -> Option<Seq<char>> {
    if text::starts(s, prefix) {
        let v = text::trimmed(text::after_prefix(s, prefix));
        if v.len() > 0 {
            Some(v)
        } else {
            None
        }
    } else {
        None
    }
}

/// The first value behind `prefix` among `parts`; with `trim`, parts are
/// trimmed first.
pub open spec fn first_value(
    parts: Seq<Seq<char>>,
    prefix: Seq<char>,
    trim: bool,
) -> Option<Seq<char>>
    decreases parts.len(),
{
    if parts.len() == 0 {
        None
    } else {
        let part = if trim {
            text::trimmed(parts[0])
        } else {
            parts[0]
        };
        match value_behind(part, prefix) {
            Some(v) => Some(v),
            None => first_value(parts.drop_first(), prefix, trim),
        }
    }
}

/// The token in a bearer header.
pub open spec fn bearer_token(header: Option<Seq<char>>) -> Option<Seq<char>> {
    match header {
        Some(h) => value_behind(h, "Bearer "@),
        None => None,
    }
}

/// The token in a cookie header.
pub open spec fn cookie_token(header: Option<Seq<char>>) -> Option<Seq<char>> {
    match header {
        Some(h) => first_value(text::split(h, ';'), "session="@, true),
        None => None,
    }
}

/// The token in a query.
pub open spec fn query_token(query: Option<Seq<char>>) -> Option<Seq<char>> {
    match query {
        Some(q) => first_value(text::split(q, '&'), "token="@, false),
        None => None,
    }
}

/// The text behind an optional string.
pub open spec fn text_of_option(s: Option<&str>) -> Option<Seq<char>> {
    match s {
        Some(s) => Some(s@),
        None => None,
    }
}

/// The session token of a request: that of the bearer header, else that of
/// the cookie, else that of the query.
pub open spec fn request_token(c: Credentials) -> Option<Seq<char>> {
    match bearer_token(text_of_option(c.authorization)) {
        Some(t) => Some(t),
        None => match cookie_token(text_of_option(c.cookie)) {
            Some(t) => Some(t),
            None => query_token(text_of_option(c.query)),
        },
    }
}

fn take_value(s: &[char], prefix: &str) -> (r: Option<String>)
    ensures
        match r {
            Some(v) => value_behind(s@, prefix@) == Some(v@),
            None => value_behind(s@, prefix@) is None,
        },
{
    match text::strip_prefix(s, prefix) {
        Some(rest) => {
            let v = text::trim(rest);
            if v.len() > 0 {
                Some(text::string_of(v))
            } else {
                None
            }
        },
        None => None,
    }
}

fn take_first_value(s: &str, separator: char, prefix: &str, trim: bool) -> (r: Option<String>)
    ensures
        match r {
            Some(v) => first_value(text::split(s@, separator), prefix@, trim) == Some(v@),
            None => first_value(text::split(s@, separator), prefix@, trim) is None,
        },
{
    let chars = text::chars_of(s);
    let parts = text::split_on(chars.as_slice(), separator);
    let ghost all = text::split(s@, separator);
    let mut i: usize = 0;
    proof {
        assert(all.skip(0) =~= all);
    }
    while i < parts.len()
        invariant
            i <= parts@.len(),
            all == text::split(s@, separator),
            text::pieces(parts@) == all,
            first_value(all.skip(i as int), prefix@, trim) == first_value(all, prefix@, trim),
        decreases parts@.len() - i,
    {
        proof {
            assert(all[i as int] == parts@[i as int]@);
            assert(all.skip(i as int)[0] == all[i as int]);
            assert(all.skip(i as int).drop_first() =~= all.skip(i + 1));
        }
        let part = if trim {
            text::trim(parts[i])
        } else {
            parts[i]
        };
        if let Some(v) = take_value(part, prefix) {
            return Some(v);
        }
        i = i + 1;
    }
    None
}

/// Finds the session token of a request.
pub fn extract_session_token(c: &Credentials) -> (r: Option<String>)
    ensures
        match r {
            Some(t) => request_token(*c) == Some(t@),
            None => request_token(*c) is None,
        },
{
    if let Some(header) = c.authorization {
        let chars = text::chars_of(header);
        if let Some(t) = take_value(chars.as_slice(), "Bearer ") {
            return Some(t);
        }
    }
    if let Some(header) = c.cookie {
        if let Some(t) = take_first_value(header, ';', "session=", true) {
            return Some(t);
        }
    }
    if let Some(query) = c.query {
        if let Some(t) = take_first_value(query, '&', "token=", false) {
            return Some(t);
        }
    }
    None
}

// ── Access ─────────────────────────────────────────────────────────

/// What happens to a request.
#[derive(Debug, Clone, Copy, PartialEq, Eq, Structural)]
pub enum Access {
    /// It goes on to its route.
    Granted,
    /// It is answered with status 401.
    Unauthorized,
    /// It is sent to the login page.
    RedirectToLogin,
}

/// Whether a path needs no session: the login page and its endpoint, the
/// application shell, and static assets.
pub open spec fn is_public(path: Seq<char>) -> bool {
    ||| path == "/login"@
    ||| path == "/api/login"@
    ||| path == "/"@
    ||| path == "/index.html"@
    ||| text::ends(path, ".js"@)
    ||| text::ends(path, ".wasm"@)
    ||| text::ends(path, ".css"@)
    ||| text::ends(path, ".png"@)
    ||| text::ends(path, ".ico"@)
}

/// Whether a request carries the token of an open session.
pub open spec fn has_session(auth: AuthState, c: Credentials) -> bool {
    match request_token(c) {
        Some(t) => auth.sessions().contains(t),
        None => false,
    }
}

/// What happens to a request for `path`. Without a session, what a program
/// asked for is refused, and a person is sent to the login page.
pub open spec fn access(auth: AuthState, path: Seq<char>, c: Credentials) -> Access {
    if is_public(path) || has_session(auth, c) {
        Access::Granted
    } else if text::starts(path, "/api/"@) || path == "/ws"@ {
        Access::Unauthorized
    } else {
        Access::RedirectToLogin
    }
}

fn public_path(path: &str) -> (r: bool)
    ensures
        r == is_public(path@),
{
    let chars = text::chars_of(path);
    let p = chars.as_slice();
    text::same(path, "/login") || text::same(path, "/api/login") || text::same(path, "/")
        || text::same(path, "/index.html") || text::ends_with(p, ".js") || text::ends_with(
        p,
        ".wasm",
    ) || text::ends_with(p, ".css") || text::ends_with(p, ".png") || text::ends_with(p, ".ico")
}

fn carries_session(auth: &AuthState, c: &Credentials) -> (r: bool)
    ensures
        r == has_session(*auth, *c),
{
    match extract_session_token(c) {
        Some(token) => auth.is_valid_session(token.as_str()),
        None => false,
    }
}

/// Decides what happens to a request.
pub fn auth_middleware(auth: &AuthState, path: &str, c: &Credentials) -> (r: Access)
    ensures
        r == access(*auth, path@, *c),
{
    if public_path(path) {
        return Access::Granted;
    }
    if carries_session(auth, c) {
        return Access::Granted;
    }
    let chars = text::chars_of(path);
    if text::starts_with(chars.as_slice(), "/api/") || text::same(path, "/ws") {
        Access::Unauthorized
    } else {
        Access::RedirectToLogin
    }
}

/// Status of success.
pub const STATUS_OK: u16 = 200;

/// Status of a request that could not be read.
pub const STATUS_BAD_REQUEST: u16 = 400;

/// Status of a request without a session.
pub const STATUS_UNAUTHORIZED: u16 = 401;

/// The status that tells whether a request carries the token of an open
/// session.
pub fn session_check(auth: &AuthState, c: &Credentials) -> (status: u16)
    ensures
        status == (if has_session(*auth, *c) {
            STATUS_OK
        } else {
            STATUS_UNAUTHORIZED
        }),
{
    if carries_session(auth, c) {
        STATUS_OK
    } else {
        STATUS_UNAUTHORIZED
    }
}

// ── Login and logout ───────────────────────────────────────────────

/// What the login form holds.
#[derive(Clone)]
pub struct LoginForm {
    pub username: String,
    pub password: String,
}

/// An answer to a login or logout request.
#[derive(Debug, Clone, PartialEq, Eq)]
pub struct Reply {
    pub status: u16,
    /// The value of the `Set-Cookie` header.
    pub cookie: Option<String>,
    pub body: String,
}

/// Seconds that a session cookie is kept.
pub const SESSION_SECS: u64 = 86400;

/// The session cookie: for the whole site, out of reach of scripts, sent along
/// when the site is navigated to, and over HTTPS only if `secure`.
pub open spec fn session_cookie(token: Seq<char>, max_age: u64, secure: bool) -> Seq<char> {
    "session="@ + token + "; Path=/; HttpOnly; SameSite=Lax; Max-Age="@ + text::decimal(
        max_age as nat,
    ) + if secure {
        "; Secure"@
    } else {
        Seq::empty()
    }
}

/// Builds the session cookie.
pub fn build_session_cookie(token: &str, max_age: u64, secure: bool) -> (cookie: String)
    ensures
        cookie@ == session_cookie(token@, max_age, secure),
{
    let mut cookie = "session=".to_owned();
    text::push_text(&mut cookie, token);
    text::push_text(&mut cookie, "; Path=/; HttpOnly; SameSite=Lax; Max-Age=");
    text::push_decimal(&mut cookie, max_age);
    if secure {
        text::push_text(&mut cookie, "; Secure");
    }
    proof {
        assert(cookie@ =~= session_cookie(token@, max_age, secure));
    }
    cookie
}

/// Whether a request came over HTTPS: what the proxy in front says, else what
/// the address says.
pub open spec fn over_https(forwarded: Option<Seq<char>>, scheme: Option<Seq<char>>) -> bool {
    match forwarded {
        Some(p) => text::lowered(p) == text::lowered("https"@),
        None => match scheme {
            Some(s) => text::lowered(s) == text::lowered("https"@),
            None => false,
        },
    }
}

/// Tells whether a request came over HTTPS, from the `X-Forwarded-Proto`
/// header if it can be read, else from the scheme of the address.
pub fn is_request_secure(forwarded: Option<&str>, scheme: Option<&str>) -> (r: bool)
    ensures
        r == over_https(text_of_option(forwarded), text_of_option(scheme)),
{
    match forwarded {
        Some(p) => text::same_ignoring_case(p, "https"),
        None => match scheme {
            Some(s) => text::same_ignoring_case(s, "https"),
            None => false,
        },
    }
}

/// Answers a login request. The form is `None` if it could not be read.
pub fn login_handler(auth: &mut AuthState, form: Option<LoginForm>, secure: bool) -> (r: Reply)
    requires
        old(auth).well_formed(),
    ensures
        final(auth).well_formed(),
        match form {
            None => {
                &&& r.status == STATUS_BAD_REQUEST
                &&& r.cookie is None
                &&& r.body@ == Seq::<char>::empty()
                &&& final(auth).sessions() == old(auth).sessions()
            },
            Some(f) => if old(auth).accepts(f.username@, f.password@) {
                &&& r.status == STATUS_OK
                &&& r.cookie matches Some(c) && c@ == session_cookie(r.body@, SESSION_SECS, secure)
                &&& exists|random: Seq<u8>|
                    random.len() == 32 && r.body@ == #[trigger] hex_text(random)
                &&& final(auth).sessions() == old(auth).sessions().insert(r.body@)
            } else {
                &&& r.status == STATUS_UNAUTHORIZED
                &&& r.cookie is None
                &&& r.body@ == Seq::<char>::empty()
                &&& final(auth).sessions() == old(auth).sessions()
            },
        },
{
    match form {
        None => Reply { status: STATUS_BAD_REQUEST, cookie: None, body: String::new() },
        Some(f) => match auth.login(f.username.as_str(), f.password.as_str()) {
            Some(token) => {
                let cookie = build_session_cookie(token.as_str(), SESSION_SECS, secure);
                Reply { status: STATUS_OK, cookie: Some(cookie), body: token }
            },
            None => Reply { status: STATUS_UNAUTHORIZED, cookie: None, body: String::new() },
        },
    }
}

/// Answers a logout request: closes its session, if it has one, and expires
/// the cookie.
pub fn logout_handler(auth: &mut AuthState, c: &Credentials, secure: bool) -> (r: Reply)
    requires
        old(auth).well_formed(),
    ensures
        final(auth).well_formed(),
        r.status == STATUS_OK,
        r.cookie matches Some(k) && k@ == session_cookie(Seq::<char>::empty(), 0, secure),
        r.body@ == Seq::<char>::empty(),
        final(auth).sessions() == (match request_token(*c) {
            Some(t) => old(auth).sessions().remove(t),
            None => old(auth).sessions(),
        }),
        !has_session(*final(auth), *c),
{
    if let Some(token) = extract_session_token(c) {
        auth.logout(token.as_str());
    }
    let cookie = build_session_cookie("", 0, secure);
    proof {
        reveal_strlit("");
        assert(""@ =~= Seq::<char>::empty());
    }
    Reply { status: STATUS_OK, cookie: Some(cookie), body: String::new() }
}

// ── Laws ───────────────────────────────────────────────────────────

/// A session token has two characters for each random byte, all of them
/// hexadecimal digits, and two tokens are the same only if they spell the same
/// bytes.
pub proof fn law_tokens(a: Seq<u8>, b: Seq<u8>)
    ensures
        hex_text(a).len() == 2 * a.len(),
        forall|i: int|
            0 <= i < hex_text(a).len() ==> ('0' <= #[trigger] hex_text(a)[i] <= '9' || 'a'
                <= hex_text(a)[i] <= 'f'),
        hex_text(a) == hex_text(b) ==> a == b,
{
    if hex_text(a) == hex_text(b) {
        assert(hex_text(a).len() == 2 * a.len());
        assert(hex_text(b).len() == 2 * b.len());
        assert forall|i: int| 0 <= i < a.len() implies a[i] == b[i] by {
            let hi = 2 * i;
            let lo = 2 * i + 1;
            assert(hex_text(a)[hi] == hex_text(b)[hi]);
            assert(hex_text(a)[lo] == hex_text(b)[lo]);
            assert(hi / 2 == i && hi % 2 == 0 && lo / 2 == i && lo % 2 == 1);
        }
        assert(a =~= b);
    }
}

/// Logging out undoes logging in: with the token of a session that was just
/// opened, and of no other, the sessions are as before.
pub proof fn law_logout_undoes_login(sessions: Set<Seq<char>>, token: Seq<char>)
    requires
        !sessions.contains(token),
    ensures
        sessions.insert(token).contains(token),
        sessions.insert(token).remove(token) == sessions,
{
    assert(sessions.insert(token).remove(token) =~= sessions);
}

/// A logout ends the session it names and no other, and a second one changes
/// nothing.
pub proof fn law_logout_ends_one_session(
    sessions: Set<Seq<char>>,
    token: Seq<char>,
    other: Seq<char>,
)
    requires
        other != token,
    ensures
        !sessions.remove(token).contains(token),
        sessions.remove(token).contains(other) == sessions.contains(other),
        sessions.remove(token).remove(token) == sessions.remove(token),
{
    assert(sessions.remove(token).remove(token) =~= sessions.remove(token));
}

/// Over any history of logins and logouts that starts with no session open, a
/// token is valid exactly if some login returned it and no later logout named
/// it. The credentials that are accepted stay the same throughout.
pub proof fn law_sessions_follow_the_history(
    states: Seq<AuthState>,
    events: Seq<SessionEvent>,
    token: Seq<char>,
)
    requires
        states.len() == events.len() + 1,
        states[0].sessions() == Set::<Seq<char>>::empty(),
        forall|i: int|
            0 <= i < events.len() ==> #[trigger] session_step(states[i], events[i], states[i + 1]),
    ensures
        states.last().sessions().contains(token) <==> opened_and_not_closed(events, token),
        forall|u: Seq<char>, p: Seq<char>| #[trigger]
            states.last().accepts(u, p) == states[0].accepts(u, p),
    decreases events.len(),
{
    if events.len() > 0 {
        let n = events.len() - 1;
        let before = events.drop_last();
        let last = events[n];
        assert forall|i: int| 0 <= i < before.len() implies #[trigger] session_step(
            states.drop_last()[i],
            before[i],
            states.drop_last()[i + 1],
        ) by {
            assert(session_step(states[i], events[i], states[i + 1]));
        }
        law_sessions_follow_the_history(states.drop_last(), before, token);
        assert(session_step(states[n], last, states[n + 1]));
        assert(states.drop_last().last() == states[n]);
        if opened_and_not_closed(before, token) && !closes(last, token) {
            let i = choose|i: int| #[trigger] open_since(before, token, i);
            assert(open_since(events, token, i)) by {
                assert forall|j: int| i < j < events.len() implies !closes(
                    #[trigger] events[j],
                    token,
                ) by {
                    if j < n {
                        assert(before[j] == events[j]);
                    }
                }
                assert(events[i] == before[i]);
            }
        }
        if opens(last, token) {
            assert(open_since(events, token, n));
        }
        if opened_and_not_closed(events, token) && !opens(last, token) {
            let i = choose|i: int| #[trigger] open_since(events, token, i);
            assert(i < n);
            assert(!closes(events[n], token));
            assert(open_since(before, token, i)) by {
                assert forall|j: int| i < j < before.len() implies !closes(
                    #[trigger] before[j],
                    token,
                ) by {
                    assert(before[j] == events[j]);
                }
                assert(events[i] == before[i]);
            }
        }
    }
}

/// Without the token of an open session a request gets nowhere but to public
/// paths: the WebSocket and every other endpoint under `/api/` answer 401, and
/// all else leads to the login page.
pub proof fn law_no_session_no_access(auth: AuthState, path: Seq<char>, c: Credentials)
    requires
        !has_session(auth, c),
    ensures
        access(auth, path, c) == Access::Granted ==> is_public(path),
        text::starts(path, "/api/"@) && !is_public(path) ==> access(auth, path, c)
            == Access::Unauthorized,
        access(auth, "/ws"@, c) == Access::Unauthorized,
        !is_public(path) && !text::starts(path, "/api/"@) && path != "/ws"@ ==> access(
            auth,
            path,
            c,
        ) == Access::RedirectToLogin,
{
    reveal_strlit("/ws");
    reveal_strlit("/login");
    reveal_strlit("/api/login");
    reveal_strlit("/");
    reveal_strlit("/index.html");
    reveal_strlit(".js");
    reveal_strlit(".wasm");
    reveal_strlit(".css");
    reveal_strlit(".png");
    reveal_strlit(".ico");
    let ws = "/ws"@;
    assert(ws.len() == 3);
    assert(ws[0] == '/');
    assert(".js"@[0] == '.');
    assert(!text::ends(ws, ".js"@)) by {
        if text::ends(ws, ".js"@) {
            assert(ws.subrange(0, 3)[0] == ".js"@[0]);
        }
    }
    assert(".css"@.len() == 4 && ".png"@.len() == 4 && ".ico"@.len() == 4 && ".wasm"@.len() == 5);
    assert("/login"@.len() == 6 && "/api/login"@.len() == 10 && "/"@.len() == 1
        && "/index.html"@.len() == 11);
}

/// The token of an open session opens every path.
pub proof fn law_session_opens_all(auth: AuthState, path: Seq<char>, c: Credentials)
    requires
        has_session(auth, c),
    ensures
        access(auth, path, c) == Access::Granted,
{
}

/// The pages and files that need no session: the login page and its endpoint,
/// the start page, and scripts, modules, style sheets and pictures wherever
/// they lie. Nothing else is public.
pub proof fn law_public_paths(path: Seq<char>, front: Seq<char>)
    ensures
        is_public("/login"@) && is_public("/api/login"@) && is_public("/"@) && is_public(
            "/index.html"@,
        ),
        is_public(front + ".js"@) && is_public(front + ".wasm"@) && is_public(front + ".css"@)
            && is_public(front + ".png"@) && is_public(front + ".ico"@),
        is_public(path) ==> {
            ||| seq!["/login"@, "/api/login"@, "/"@, "/index.html"@].contains(path)
            ||| exists|i: int|
                0 <= i <= path.len() && seq![".js"@, ".wasm"@, ".css"@, ".png"@, ".ico"@].contains(
                    #[trigger] path.skip(i),
                )
        },
{
    text::law_ends(path, ".js"@, front);
    text::law_ends(path, ".wasm"@, front);
    text::law_ends(path, ".css"@, front);
    text::law_ends(path, ".png"@, front);
    text::law_ends(path, ".ico"@, front);
    let whole = seq!["/login"@, "/api/login"@, "/"@, "/index.html"@];
    assert(whole[0] == "/login"@ && whole[1] == "/api/login"@ && whole[2] == "/"@ && whole[3]
        == "/index.html"@);
    let kinds = seq![".js"@, ".wasm"@, ".css"@, ".png"@, ".ico"@];
    assert(kinds[0] == ".js"@ && kinds[1] == ".wasm"@ && kinds[2] == ".css"@ && kinds[3]
        == ".png"@ && kinds[4] == ".ico"@);
    assert forall|k: int| 0 <= k < 5 && text::ends(path, #[trigger] kinds[k]) implies exists|i: int|
        0 <= i <= path.len() && kinds.contains(#[trigger] path.skip(i)) by {
        let i = path.len() - kinds[k].len();
        assert(path.skip(i) =~= path.subrange(i, path.len() as int));
        assert(kinds.contains(path.skip(i)));
    }
}

/// What stands behind a prefix counts without the white space around it.
proof fn lemma_value_behind(prefix: Seq<char>, a: Seq<char>, t: Seq<char>, b: Seq<char>)
    requires
        text::blank(a),
        text::blank(b),
        t.len() > 0,
        !text::is_space(t[0]),
        !text::is_space(t.last()),
    ensures
        value_behind(prefix + a + t + b, prefix) == Some(t),
{
    assert(prefix + a + t + b =~= prefix + (a + t + b));
    text::law_starts(prefix + a + t + b, prefix, a + t + b);
    text::law_trimmed(a, t, b);
}

/// The token of an authorization header is what stands behind `Bearer ` in it,
/// without the white space around it. Without that prefix, or with nothing
/// behind it, there is none.
pub proof fn law_bearer_token(a: Seq<char>, t: Seq<char>, b: Seq<char>, header: Seq<char>)
    requires
        text::blank(a),
        text::blank(b),
        t.len() > 0,
        !text::is_space(t[0]),
        !text::is_space(t.last()),
    ensures
        bearer_token(Some("Bearer "@ + a + t + b)) == Some(t),
        bearer_token(Some("Bearer "@ + a)) is None,
        !text::starts(header, "Bearer "@) ==> bearer_token(Some(header)) is None,
        bearer_token(None) is None,
{
    lemma_value_behind("Bearer "@, a, t, b);
    text::law_starts("Bearer "@ + a, "Bearer "@, a);
    text::law_trimmed(a, Seq::empty(), Seq::empty());
    assert(a + Seq::<char>::empty() + Seq::<char>::empty() =~= a);
}

/// The token of a cookie header is the value of its first cookie named
/// `session` that has one. Cookies are apart by semicolons, and white space
/// around them does not count.
pub proof fn law_cookie_token(
    a: Seq<char>,
    t: Seq<char>,
    b: Seq<char>,
    other: Seq<char>,
    rest: Seq<char>,
)
    requires
        text::blank(a),
        text::blank(b),
        t.len() > 0,
        !text::is_space(t[0]),
        !text::is_space(t.last()),
        !a.contains(';'),
        !t.contains(';'),
        !b.contains(';'),
        !other.contains(';'),
        !text::starts(text::trimmed(other), "session="@),
    ensures
        cookie_token(Some(a + "session="@ + t + b)) == Some(t),
        cookie_token(Some(a + "session="@ + t + b + seq![';'] + rest)) == Some(t),
        cookie_token(Some(other + seq![';'] + rest)) == cookie_token(Some(rest)),
        cookie_token(Some(other)) is None,
        cookie_token(None) is None,
{
    reveal_strlit("session=");
    let p = "session="@;
    let own = a + p + t + b;
    assert forall|i: int| 0 <= i < own.len() implies own[i] != ';' by {
        if i < a.len() {
            assert(own[i] == a[i]);
            assert(a.contains(a[i]));
        } else if i < a.len() + p.len() {
            assert(own[i] == p[i - a.len()]);
        } else if i < a.len() + p.len() + t.len() {
            assert(own[i] == t[i - a.len() - p.len()]);
            assert(t.contains(own[i]));
        } else {
            assert(own[i] == b[i - a.len() - p.len() - t.len()]);
            assert(b.contains(own[i]));
        }
    }
    assert(!own.contains(';'));
    text::law_split(own, ';', rest);
    text::law_split(other, ';', rest);
    let middle = p + t;
    assert(own =~= a + middle + b);
    assert(p[0] == 's');
    assert(middle[0] == 's');
    assert(middle.last() == t.last());
    text::law_white_space('s');
    text::law_trimmed(a, middle, b);
    assert(text::trimmed(own) == middle);
    let none = Seq::<char>::empty();
    lemma_value_behind(p, none, t, none);
    assert(p + none + t + none =~= middle);
    let first = seq![own] + text::split(rest, ';');
    assert(first[0] == own);
    let second = seq![other] + text::split(rest, ';');
    assert(second.drop_first() =~= text::split(rest, ';'));
    assert(seq![other].drop_first() =~= Seq::<Seq<char>>::empty());
    assert(first_value(Seq::empty(), p, true) is None);
}

/// The token of a query is the value of its first parameter named `token` that
/// has one. Parameters are apart by ampersands.
pub proof fn law_query_token(t: Seq<char>, other: Seq<char>, rest: Seq<char>)
    requires
        t.len() > 0,
        !text::is_space(t[0]),
        !text::is_space(t.last()),
        !t.contains('&'),
        !other.contains('&'),
        !text::starts(other, "token="@),
    ensures
        query_token(Some("token="@ + t)) == Some(t),
        query_token(Some("token="@ + t + seq!['&'] + rest)) == Some(t),
        query_token(Some(other + seq!['&'] + rest)) == query_token(Some(rest)),
        query_token(Some(other)) is None,
        query_token(None) is None,
{
    reveal_strlit("token=");
    let p = "token="@;
    let own = p + t;
    assert forall|i: int| 0 <= i < own.len() implies own[i] != '&' by {
        if i < p.len() {
            assert(own[i] == p[i]);
        } else {
            assert(own[i] == t[i - p.len()]);
            assert(t.contains(own[i]));
        }
    }
    assert(!own.contains('&'));
    text::law_split(own, '&', rest);
    text::law_split(other, '&', rest);
    let none = Seq::<char>::empty();
    lemma_value_behind(p, none, t, none);
    assert(p + none + t + none =~= own);
    let first = seq![own] + text::split(rest, '&');
    assert(first[0] == own);
    let second = seq![other] + text::split(rest, '&');
    assert(second.drop_first() =~= text::split(rest, '&'));
    assert(seq![other].drop_first() =~= Seq::<Seq<char>>::empty());
    assert(first_value(Seq::empty(), p, false) is None);
}

/// A request's token is that of its authorization header, else that of its
/// cookies, else that of its query.
pub proof fn law_token_order(c: Credentials)
    ensures
        ({
            let bearer = bearer_token(text_of_option(c.authorization));
            let cookie = cookie_token(text_of_option(c.cookie));
            let query = query_token(text_of_option(c.query));
            &&& bearer is Some ==> request_token(c) == bearer
            &&& bearer is None && cookie is Some ==> request_token(c) == cookie
            &&& bearer is None && cookie is None ==> request_token(c) == query
        }),
{
}

/// A request has a session exactly if it carries a token and that is open.
pub proof fn law_session_is_an_open_token(auth: AuthState, c: Credentials)
    ensures
        has_session(auth, c) <==> request_token(c) is Some && auth.sessions().contains(
            request_token(c)->0,
        ),
{
}

/// The cookie that carries a token names it first, then holds for every path,
/// out of the reach of scripts, on the same site, for the time given; over
/// HTTPS it says so at its end.
pub proof fn law_session_cookie(token: Seq<char>, max_age: u64)
    ensures
        session_cookie(token, max_age, false) == "session="@ + token
            + "; Path=/; HttpOnly; SameSite=Lax; Max-Age="@ + text::decimal(max_age as nat),
        session_cookie(token, max_age, true) == session_cookie(token, max_age, false)
            + "; Secure"@,
{
    let plain = session_cookie(token, max_age, false);
    assert(plain =~= "session="@ + token + "; Path=/; HttpOnly; SameSite=Lax; Max-Age="@
        + text::decimal(max_age as nat));
    assert(session_cookie(token, max_age, true) =~= plain + "; Secure"@);
}

/// The cookie that a login sets gives back its token when a browser sends its
/// name and value: what stands in front of the first semicolon.
pub proof fn law_cookie_gives_back_the_token(token: Seq<char>, max_age: u64, secure: bool)
    requires
        token.len() > 0,
        !text::is_space(token[0]),
        !text::is_space(token.last()),
        !token.contains(';'),
    ensures
        cookie_token(Some(session_cookie(token, max_age, secure))) == Some(token),
        cookie_token(Some("session="@ + token)) == Some(token),
{
    reveal_strlit("; Path=/; HttpOnly; SameSite=Lax; Max-Age=");
    let none = Seq::<char>::empty();
    let attributes = "; Path=/; HttpOnly; SameSite=Lax; Max-Age="@;
    assert(attributes =~= seq![';'] + attributes.skip(1));
    let tail = if secure {
        "; Secure"@
    } else {
        none
    };
    let rest = attributes.skip(1) + text::decimal(max_age as nat) + tail;
    reveal_strlit("session=");
    assert(!none.contains(';'));
    assert(text::trimmed(none) =~= none);
    assert(!text::starts(text::trimmed(none), "session="@));
    law_cookie_token(none, token, none, none, rest);
    assert(none + "session="@ + token + none =~= "session="@ + token);
    assert(session_cookie(token, max_age, secure) =~= none + "session="@ + token + none + seq![';']
        + rest);
}

/// A request came over HTTPS if the proxy says so, in letters of either case;
/// only without its word the request's own scheme counts.
pub proof fn law_over_https(proto: Seq<char>, scheme: Option<Seq<char>>)
    ensures
        over_https(Some(proto), scheme) <==> text::lowered(proto) == "https"@,
        scheme is Some ==> (over_https(None, scheme) <==> text::lowered(scheme->0) == "https"@),
        !over_https(None, None),
{
    reveal_strlit("https");
    assert(text::lowered("https"@) =~= "https"@);
}

/// The numbers of the answers, and how long a session lasts: a day.
pub proof fn law_answer_numbers()
    ensures
        STATUS_OK == 200,
        STATUS_BAD_REQUEST == 400,
        STATUS_UNAUTHORIZED == 401,
        SESSION_SECS == 24 * 60 * 60,
{
}

} // verus!
