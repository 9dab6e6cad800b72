use vstd::prelude::*;
use vstd::hash_map::StringHashMap;
use argon2::password_hash::{PasswordHasher, PasswordVerifier};

use crate::text::{hex_lower, hex_lower_spec};

verus! {

/// How long a session stays valid after it was created: seven days, in nanoseconds.
pub const SESSION_DURATION_NANOS: u128 = 604800000000000;

/// Failed logins allowed from one client address within a window.
pub const MAX_FAILED_ATTEMPTS: u32 = 5;

/// Length of the rate-limit window: ten minutes, in nanoseconds.
pub const RATE_LIMIT_WINDOW_NANOS: u128 = 600000000000;

#[verifier::external_type_specification]
#[verifier::external_body]
pub struct ExInstant(std::time::Instant);

#[verifier::external_type_specification]
#[verifier::external_body]
pub struct ExPasswordHashError(argon2::password_hash::Error);

/// Whether `phc` is a PHC string that `argon2::password_hash::PasswordHash::new` accepts.
pub uninterp spec fn phc_well_formed(phc: Seq<char>) -> bool;

/// Whether Argon2 verification of `password` against the PHC string `phc` succeeds.
pub uninterp spec fn argon2_accepts(password: Seq<char>, phc: Seq<char>) -> bool;

/// Calls `std::time::Instant::now`. Nothing is promised of the reading.
#[verifier::external_body]
fn clock_origin() -> std::time::Instant {
    std::time::Instant::now()
}

/// Calls `std::time::Instant::elapsed`. The reading depends on the clock, so nothing is
/// promised of it.
#[verifier::external_body]
fn elapsed_since(origin: &std::time::Instant) -> std::time::Duration {
    origin.elapsed()
}

/// Calls `Duration::as_nanos`: the length of `d` in nanoseconds.
#[verifier::external_body]
fn duration_nanos(d: &std::time::Duration) -> u128 {
    d.as_nanos()
}

/// A B64 character: a letter, a digit, `+` or `/`.
pub open spec fn is_b64_char(c: char) -> bool {
    ('A' <= c <= 'Z') || ('a' <= c <= 'z') || ('0' <= c <= '9') || c == '+' || c == '/'
}

/// Whether `s` is the unpadded B64 text of sixteen bytes: twenty-two B64 characters, the last
/// of which carries no bits beyond the sixteenth byte (its low four bits are zero).
pub open spec fn is_b64_of_sixteen_bytes(s: Seq<char>) -> bool {
    &&& s.len() == 22
    &&& forall|i: int| 0 <= i < 22 ==> is_b64_char(#[trigger] s[i])
    &&& (s[21] == 'A' || s[21] == 'Q' || s[21] == 'g' || s[21] == 'w')
}

/// Calls `SaltString::generate` with the operating system's random source and returns the
/// salt's text. The salt is random; what holds of every outcome, as the crate's source shows,
/// is that it encodes `Salt::RECOMMENDED_LENGTH` (sixteen) random bytes in unpadded B64.
#[verifier::external_body]
fn fresh_salt() -> (s: String)
    ensures
        is_b64_of_sixteen_bytes(s@),
{
    argon2::password_hash::SaltString::generate(&mut argon2::password_hash::rand_core::OsRng).as_str().to_string()
}

/// How a PHC string of `Argon2::default()` begins: Argon2id, version 19 (0x13), 19456 KiB of
/// memory, two passes, one lane.
pub open spec fn argon2id_default_prefix() -> Seq<char> {
    "$argon2id$v=19$m=19456,t=2,p=1$"@
}

/// Whether `h` is the PHC string of an Argon2id hash with the default parameters and salt
/// `salt`: the default prefix, the salt, a `$`, and the 32-byte output as 43 B64 characters.
pub open spec fn is_default_argon2id_phc(h: Seq<char>, salt: Seq<char>) -> bool {
    let p = argon2id_default_prefix().len() as int;
    &&& h.len() == p + salt.len() + 1 + 43
    &&& h.subrange(0, p) == argon2id_default_prefix()
    &&& h.subrange(p, p + salt.len()) == salt
    &&& h[p + salt.len()] == '$'
    &&& forall|i: int| p + salt.len() + 1 <= i < h.len() ==> is_b64_char(#[trigger] h[i])
}

/// Reads `salt` with `Salt::from_b64`, calls `PasswordHasher::hash_password` of
/// `Argon2::default()` and renders the hash as a PHC string. Claimed of a success, as the
/// crate's source shows it: the string parses again, and verification of the same password
/// against it succeeds (verification recomputes the hash with the algorithm, version,
/// parameters and salt written in the string). Claimed of when it succeeds: with the B64 text
/// of sixteen bytes as salt and a password of at most `u32::MAX` bytes, neither the salt
/// checks of `Salt::from_b64` nor those of `Argon2::verify_inputs` (password length, salt of
/// eight bytes at least) nor the default output and parameters can fail. Claimed of the
/// string's form, as `PasswordHash`'s `Display` and argon2's defaults (Argon2id, version 0x13,
/// `m=19456,t=2,p=1`, 32-byte output in B64) show: the default prefix, the salt, the output.
#[verifier::external_body]
fn argon2_hash(password: &str, salt: &str) -> (r: Result<String, argon2::password_hash::Error>)
    ensures
        r matches Ok(h) ==> phc_well_formed(h@) && argon2_accepts(password@, h@)
            && is_default_argon2id_phc(h@, salt@),
        is_b64_of_sixteen_bytes(salt@) && vstd::utf8::encode_utf8(password@).len() <= u32::MAX
            ==> r is Ok,
{
    argon2::password_hash::Salt::from_b64(salt).and_then(
        |s| argon2::Argon2::default().hash_password(password.as_bytes(), s),
    ).map(|h| h.to_string())
}

/// Calls `PasswordHash::new`; succeeds exactly on well-formed PHC strings.
#[verifier::external_body]
fn parse_phc(phc: &str) -> (r: Result<(), argon2::password_hash::Error>)
    ensures
        r is Ok <==> phc_well_formed(phc@),
{
    argon2::password_hash::PasswordHash::new(phc).map(|_| ())
}

/// Parses the PHC string with `PasswordHash::new` (which succeeds, as required) and calls
/// `PasswordVerifier::verify_password` of `Argon2::default()` on it; the answer is the named
/// verdict of the password against that string.
#[verifier::external_body]
fn argon2_verify(password: &str, phc: &str) -> (ok: bool)
    requires
        phc_well_formed(phc@),
    ensures
        ok == argon2_accepts(password@, phc@),
{
    match argon2::password_hash::PasswordHash::new(phc) {
        Ok(h) => argon2::Argon2::default().verify_password(password.as_bytes(), &h).is_ok(),
        Err(_) => false,
    }
}

/// Renders a `password_hash::Error` with its `Display` implementation.
#[verifier::external_body]
fn password_error_text(e: &argon2::password_hash::Error) -> String {
    e.to_string()
}

/// Calls `rand::random` for 32 random bytes; nothing is promised of their values.
#[verifier::external_body]
fn random_token_bytes() -> [u8; 32] {
    rand::random()
}

/// A login session. `created_at` is the reading, in nanoseconds, of the manager's clock when
/// the session was opened.
#[derive(Clone)]
pub struct Session {
    pub token: String,
    pub created_at: u128,
}

/// Failed-login bookkeeping for one client address.
#[derive(Clone, Copy)]
pub struct RateLimit {
    pub attempts: u32,
    pub window_start: u128,
}

#[verifier::ext_equal]
/// The abstract state of an [`AuthManager`]: the stored PHC string, the open sessions
/// (token to creation time) and the rate-limit entries (client address to entry).
pub struct AuthModel {
    pub password_hash: Option<Seq<char>>,
    pub sessions: Map<Seq<char>, u128>,
    pub rate_limits: Map<Seq<char>, RateLimit>,
}

/// Password check, open sessions and per-address rate limiting.
pub struct AuthManager {
    clock: std::time::Instant,
    password_hash: Option<String>,
    sessions: StringHashMap<Session>,
    session_tokens: Vec<String>,
    rate_limits: StringHashMap<RateLimit>,
    latest: u128,
}

/// Time from `since` to `now`, zero when `now` is earlier (as `Instant::duration_since` saturates).
pub open spec fn elapsed(since: u128, now: u128) -> int {
    if now >= since {
        now - since
    } else {
        0
    }
}

/// A session created at `created_at` is still valid at `now`.
pub open spec fn session_live(created_at: u128, now: u128) -> bool {
    elapsed(created_at, now) < SESSION_DURATION_NANOS
}

/// The rate-limit entry of an address at `now`, before the attempt is counted: a fresh entry
/// for an unknown address, and a reset one when the window has run out.
pub open spec fn entry_at(limit: Option<RateLimit>, now: u128) -> RateLimit {
    match limit {
        Some(l) => if elapsed(l.window_start, now) > RATE_LIMIT_WINDOW_NANOS {
            RateLimit { attempts: 0, window_start: now }
        } else {
            l
        },
        None => RateLimit { attempts: 0, window_start: now },
    }
}

/// A login attempt from `ip` at `now` is refused before the password is looked at.
pub open spec fn attempt_refused(limits: Map<Seq<char>, RateLimit>, ip: Seq<char>, now: u128) -> bool {
    entry_at(limits.get(ip), now).attempts >= MAX_FAILED_ATTEMPTS
}

/// The rate-limit table after an attempt from `ip` at `now` has been registered.
pub open spec fn limits_after_attempt(
    limits: Map<Seq<char>, RateLimit>,
    ip: Seq<char>,
    now: u128,
) -> Map<Seq<char>, RateLimit> {
    let e = entry_at(limits.get(ip), now);
    if e.attempts >= MAX_FAILED_ATTEMPTS {
        limits.insert(ip, e)
    } else {
        limits.insert(ip, RateLimit { attempts: (e.attempts + 1) as u32, window_start: e.window_start })
    }
}

/// What checking a password against the stored hash yields.
pub enum PasswordVerdict {
    NoPassword,
    MalformedHash,
    Mismatch,
    Accepted,
}

/// The verdict on `password` given the stored PHC string.
pub open spec fn password_verdict(hash: Option<Seq<char>>, password: Seq<char>) -> PasswordVerdict {
    match hash {
        None => PasswordVerdict::NoPassword,
        Some(h) => if !phc_well_formed(h) {
            PasswordVerdict::MalformedHash
        } else if !argon2_accepts(password, h) {
            PasswordVerdict::Mismatch
        } else {
            PasswordVerdict::Accepted
        },
    }
}

/// The answer to a refused attempt.
pub open spec fn too_many_attempts_message() -> Seq<char> {
    "Too many failed attempts. Please try again later."@
}

/// The answer while no password is set.
pub open spec fn no_password_message() -> Seq<char> {
    "No password set"@
}

/// How the answer to an unreadable stored hash begins.
pub open spec fn malformed_hash_prefix() -> Seq<char> {
    "Invalid password hash: "@
}

/// The answer to a wrong password.
pub open spec fn invalid_password_message() -> Seq<char> {
    "Invalid password"@
}

/// How the answer to a failed hashing begins.
pub open spec fn hash_failure_prefix() -> Seq<char> {
    "Failed to hash password: "@
}

/// The error message that goes with a verdict other than `Accepted`.
pub open spec fn verdict_message_fits(v: PasswordVerdict, m: Seq<char>) -> bool {
    match v {
        PasswordVerdict::NoPassword => m == no_password_message(),
        PasswordVerdict::MalformedHash => m.len() >= malformed_hash_prefix().len() && m.subrange(
            0,
            malformed_hash_prefix().len() as int,
        ) == malformed_hash_prefix(),
        PasswordVerdict::Mismatch => m == invalid_password_message(),
        PasswordVerdict::Accepted => false,
    }
}

/// A session token: 32 bytes written as 64 lowercase hexadecimal digits.
pub open spec fn is_session_token(t: Seq<char>) -> bool {
    exists|b: Seq<u8>| b.len() == 32 && #[trigger] hex_lower_spec(b) == t
}

/// One login attempt from `ip` with `password`, the clock reading `now` for the rate limit:
/// how the state and the result relate.
pub open spec fn login_step(
    pre: AuthModel,
    post: AuthModel,
    password: Seq<char>,
    ip: Seq<char>,
    now: u128,
    r: Result<String, String>,
) -> bool {
    if attempt_refused(pre.rate_limits, ip, now) {
        &&& post == pre
        &&& r matches Err(m) && m@ == too_many_attempts_message()
    } else {
        let limits = limits_after_attempt(pre.rate_limits, ip, now);
        let v = password_verdict(pre.password_hash, password);
        if v is Accepted {
            &&& post.password_hash == pre.password_hash
            &&& post.rate_limits == limits.remove(ip)
            &&& r matches Ok(t) && is_session_token(t@) && exists|created_at: u128|
                #[trigger] pre.sessions.insert(t@, created_at) == post.sessions
        } else {
            &&& post == AuthModel {
                password_hash: pre.password_hash,
                sessions: pre.sessions,
                rate_limits: limits,
            }
            &&& r matches Err(m) && verdict_message_fits(v, m@)
        }
    }
}

/// `token` names a session that is still valid at `now`.
pub open spec fn session_valid_at(sessions: Map<Seq<char>, u128>, token: Seq<char>, now: u128) -> bool {
    sessions.contains_key(token) && session_live(sessions[token], now)
}

/// The sessions after `token` was checked at `now`: a session found expired is dropped.
pub open spec fn sessions_after_check(
    sessions: Map<Seq<char>, u128>,
    token: Seq<char>,
    now: u128,
) -> Map<Seq<char>, u128> {
    if session_valid_at(sessions, token, now) {
        sessions
    } else {
        sessions.remove(token)
    }
}

/// The sessions that are still valid at `now`.
pub open spec fn live_sessions(sessions: Map<Seq<char>, u128>, now: u128) -> Map<Seq<char>, u128> {
    Map::new(
        |k: Seq<char>| sessions.contains_key(k) && session_live(sessions[k], now),
        |k: Seq<char>| sessions[k],
    )
}

/// The rate-limit table after the entry of `ip` was cleaned up at `now`: it goes once its
/// window has run out.
pub open spec fn limits_after_cleanup(
    limits: Map<Seq<char>, RateLimit>,
    ip: Seq<char>,
    now: u128,
) -> Map<Seq<char>, RateLimit> {
    if limits.contains_key(ip) && elapsed(limits[ip].window_start, now) > RATE_LIMIT_WINDOW_NANOS {
        limits.remove(ip)
    } else {
        limits
    }
}

impl View for AuthManager {
    type V = AuthModel;

    closed spec fn view(&self) -> AuthModel {
        AuthModel {
            password_hash: match self.password_hash {
                Some(h) => Some(h@),
                None => None,
            },
            sessions: self.sessions@.map_values(|s: Session| s.created_at),
            rate_limits: self.rate_limits@,
        }
    }
}

impl AuthManager {
    spec fn token_keys(&self) -> Seq<Seq<char>> {
        self.session_tokens@.map_values(|t: String| t@)
    }

    /// The manager's invariant: the token list names each open session exactly once, every
    /// session is stored under its own token, and no address has more than the allowed number
    /// of recorded attempts.
    pub closed spec fn wf(&self) -> bool {
        &&& self.token_keys().no_duplicates()
        &&& forall|k: Seq<char>| #[trigger]
            self.sessions@.contains_key(k) <==> self.token_keys().contains(k)
        &&& forall|k: Seq<char>| #[trigger]
            self.sessions@.contains_key(k) ==> self.sessions@[k].token@ == k
        &&& forall|ip: Seq<char>| #[trigger]
            self.rate_limits@.contains_key(ip) ==> self.rate_limits@[ip].attempts
                <= MAX_FAILED_ATTEMPTS
    }

    /// A manager with no password, no sessions and no rate-limit entries.
    pub fn new() -> (m: Self)
        ensures
            m.wf(),
            m@.password_hash is None,
            m@.sessions =~= Map::empty(),
            m@.rate_limits =~= Map::empty(),
    {
        let m = AuthManager {
            clock: clock_origin(),
            latest: 0,
            password_hash: None,
            sessions: StringHashMap::new(),
            session_tokens: Vec::new(),
            rate_limits: StringHashMap::new(),
        };
        assert(m.token_keys() =~= Seq::empty());
        m
    }

    /// The current reading of the manager's clock, in nanoseconds.
    /// The latest clock reading taken, zero before the first: no later reading is smaller.
    pub closed spec fn clock_floor(&self) -> u128 {
        self.latest
    }

    /// The current reading of the manager's clock, in nanoseconds. `Instant` never goes
    /// backwards; the reading is also held to be no smaller than the latest one taken, so the
    /// readings of a manager never decrease.
    pub(crate) fn clock_reading(&mut self) -> (t: u128)
        ensures
            t >= old(self).clock_floor(),
            final(self).clock_floor() == t,
            final(self)@ == old(self)@,
            final(self).wf() == old(self).wf(),
    {
        let d = elapsed_since(&self.clock);
        let n = duration_nanos(&d);
        let t = if n > self.latest {
            n
        } else {
            self.latest
        };
        self.latest = t;
        t
    }

    /// Hashes `password` with Argon2id (default parameters) and a fresh random salt of sixteen
    /// bytes and stores the PHC string. Hashing succeeds for every password of at most
    /// `u32::MAX` bytes; the stored hash then accepts `password`.
    /// Sessions and rate limits are untouched either way.
    pub fn set_password(&mut self, password: &str) -> (r: Result<(), String>)
        requires
            old(self).wf(),
        ensures
            final(self).wf(),
            final(self).clock_floor() >= old(self).clock_floor(),
            final(self)@.sessions == old(self)@.sessions,
            final(self)@.rate_limits == old(self)@.rate_limits,
            r is Ok ==> (final(self)@.password_hash matches Some(h) && phc_well_formed(h)
                && argon2_accepts(password@, h) && exists|salt: Seq<char>|
                is_b64_of_sixteen_bytes(salt) && #[trigger] is_default_argon2id_phc(h, salt)),
            r is Err ==> final(self)@.password_hash == old(self)@.password_hash,
            vstd::utf8::encode_utf8(password@).len() <= u32::MAX ==> r is Ok,
            r matches Err(m) ==> m@.len() >= hash_failure_prefix().len() && m@.subrange(
                0,
                hash_failure_prefix().len() as int,
            ) == hash_failure_prefix(),
    {
        let salt = fresh_salt();
        match argon2_hash(password, salt.as_str()) {
            Ok(h) => {
                self.password_hash = Some(h);
                Ok(())
            },
            Err(e) => {
                let mut m = String::from_str("Failed to hash password: ");
                let detail = password_error_text(&e);
                m.append(detail.as_str());
                assert(m@.subrange(0, hash_failure_prefix().len() as int) =~= hash_failure_prefix());
                Err(m)
            },
        }
    }

    /// Whether a password hash is stored.
    pub fn is_password_set(&self) -> (b: bool)
        ensures
            b == self@.password_hash is Some,
    {
        self.password_hash.is_some()
    }

    /// Registers a login attempt from `ip` at clock reading `now`. Returns `false` when the
    /// address has used up its attempts in the current window; the attempt is then not
    /// counted.
    fn begin_attempt(&mut self, ip: &str, now: u128) -> (allowed: bool)
        requires
            old(self).wf(),
        ensures
            final(self).wf(),
            final(self).clock_floor() >= old(self).clock_floor(),
            allowed == !attempt_refused(old(self)@.rate_limits, ip@, now),
            final(self)@.rate_limits == limits_after_attempt(old(self)@.rate_limits, ip@, now),
            final(self)@.password_hash == old(self)@.password_hash,
            final(self)@.sessions == old(self)@.sessions,
    {
        let current = match self.rate_limits.get(ip) {
            Some(l) => *l,
            None => RateLimit { attempts: 0, window_start: now },
        };
        let since = if now >= current.window_start {
            now - current.window_start
        } else {
            0
        };
        let entry = if since > RATE_LIMIT_WINDOW_NANOS {
            RateLimit { attempts: 0, window_start: now }
        } else {
            current
        };
        let key = ip.to_owned();
        if entry.attempts >= MAX_FAILED_ATTEMPTS {
            self.rate_limits.insert(key, entry);
            false
        } else {
            self.rate_limits.insert(
                key,
                RateLimit { attempts: entry.attempts + 1, window_start: entry.window_start },
            );
            true
        }
    }

    /// Stores the session `token` created at `created_at` and forgets the rate-limit entry of
    /// `ip`, as a successful login does.
    fn grant_session(&mut self, ip: &str, token: String, created_at: u128)
        requires
            old(self).wf(),
        ensures
            final(self).wf(),
            final(self).clock_floor() >= old(self).clock_floor(),
            final(self)@.sessions == old(self)@.sessions.insert(token@, created_at),
            final(self)@.rate_limits == old(self)@.rate_limits.remove(ip@),
            final(self)@.password_hash == old(self)@.password_hash,
    {
        self.rate_limits.remove(ip);
        let ghost keys0 = self.token_keys();
        if !self.sessions.contains_key(token.as_str()) {
            self.session_tokens.push(token.clone());
            proof {
                assert(self.token_keys() =~= keys0.push(token@));
                assert(!keys0.contains(token@));
                assert forall|i: int, j: int|
                    0 <= i < self.token_keys().len() && 0 <= j < self.token_keys().len() && i != j
                    implies self.token_keys()[i] != self.token_keys()[j] by {
                    if i < keys0.len() && j < keys0.len() {
                    } else if i == keys0.len() {
                        assert(keys0[j] == self.token_keys()[j]);
                    } else {
                        assert(keys0[i] == self.token_keys()[i]);
                    }
                }
            }
        }
        let ghost keys1 = self.token_keys();
        let key = token.clone();
        self.sessions.insert(key, Session { token, created_at });
        proof {
            assert forall|k: Seq<char>| #[trigger]
                self.token_keys().contains(k) implies self.sessions@.contains_key(k) by {
                if self.token_keys().contains(k) && k != token@ {
                    let i = choose|i: int| 0 <= i < keys1.len() && keys1[i] == k;
                    if i < keys0.len() {
                        assert(keys0[i] == k);
                    }
                }
            }
            assert forall|k: Seq<char>| #[trigger]
                self.sessions@.contains_key(k) implies self.token_keys().contains(k) by {
                if self.sessions@.contains_key(k) && k != token@ {
                    assert(keys0.contains(k));
                    let i = choose|i: int| 0 <= i < keys0.len() && keys0[i] == k;
                    assert(keys1[i] == k);
                }
                if k == token@ {
                    if keys0.contains(k) {
                        let i = choose|i: int| 0 <= i < keys0.len() && keys0[i] == k;
                        assert(keys1[i] == k);
                    } else {
                        assert(keys1[keys1.len() - 1] == k);
                    }
                }
            }
            assert(self@.sessions =~= old(self)@.sessions.insert(token@, created_at));
        }
    }

    /// Forgets the session `token`, if there is one.
    fn drop_session(&mut self, token: &str)
        requires
            old(self).wf(),
        ensures
            final(self).wf(),
            final(self).clock_floor() >= old(self).clock_floor(),
            final(self)@.sessions == old(self)@.sessions.remove(token@),
            final(self)@.rate_limits == old(self)@.rate_limits,
            final(self)@.password_hash == old(self)@.password_hash,
    {
        let key = token.to_owned();
        let ghost keys0 = self.token_keys();
        let n = self.session_tokens.len();
        let mut i: usize = 0;
        let mut found = false;
        while i < n && !found
            invariant
                n == self.session_tokens@.len(),
                keys0 == self.token_keys(),
                i <= n,
                !found ==> forall|j: int| 0 <= j < i ==> keys0[j] != key@,
                found ==> i < n && keys0[i as int] == key@,
            decreases n - i + (if found { 0int } else { 1int }),
        {
            if self.session_tokens[i] == key {
                found = true;
            } else {
                i = i + 1;
            }
        }
        if found {
            self.session_tokens.remove(i);
            proof {
                assert(self.token_keys() =~= keys0.remove(i as int));
                assert forall|a: int, b: int|
                    0 <= a < self.token_keys().len() && 0 <= b < self.token_keys().len() && a != b
                    implies self.token_keys()[a] != self.token_keys()[b] by {
                    let a0 = if a < i { a } else { a + 1 };
                    let b0 = if b < i { b } else { b + 1 };
                    assert(self.token_keys()[a] == keys0[a0]);
                    assert(self.token_keys()[b] == keys0[b0]);
                }
            }
        } else {
            proof {
                assert(!keys0.contains(key@)) by {
                    if keys0.contains(key@) {
                        let j = choose|j: int| 0 <= j < keys0.len() && keys0[j] == key@;
                        assert(keys0[j] != key@);
                    }
                }
            }
        }
        self.sessions.remove(token);
        proof {
            assert forall|k: Seq<char>| #[trigger]
                self.sessions@.contains_key(k) <==> self.token_keys().contains(k) by {
                if found {
                    if self.token_keys().contains(k) {
                        let a = choose|a: int| 0 <= a < self.token_keys().len() && self.token_keys()[a] == k;
                        let a0 = if a < i { a } else { a + 1 };
                        assert(keys0[a0] == k);
                        assert(a0 != i);
                    }
                    if self.sessions@.contains_key(k) {
                        assert(keys0.contains(k));
                        let a0 = choose|a: int| 0 <= a < keys0.len() && keys0[a] == k;
                        assert(a0 != i);
                        let a = if a0 < i { a0 } else { a0 - 1 };
                        assert(self.token_keys()[a] == k);
                    }
                }
            }
            assert(self@.sessions =~= old(self)@.sessions.remove(token@));
        }
    }

    /// Whether `token` names a session that is still valid at clock reading `now`; a session
    /// found expired is dropped.
    pub fn validate_session_at(&mut self, token: &str, now: u128) -> (valid: bool)
        requires
            old(self).wf(),
        ensures
            final(self).wf(),
            final(self).clock_floor() >= old(self).clock_floor(),
            valid == session_valid_at(old(self)@.sessions, token@, now),
            final(self)@.sessions == sessions_after_check(old(self)@.sessions, token@, now),
            final(self)@.rate_limits == old(self)@.rate_limits,
            final(self)@.password_hash == old(self)@.password_hash,
    {
        let live = match self.sessions.get(token) {
            Some(s) => {
                let age = if now >= s.created_at {
                    now - s.created_at
                } else {
                    0
                };
                age < SESSION_DURATION_NANOS
            },
            None => false,
        };
        if !live {
            self.drop_session(token);
        }
        proof {
            if !live {
                assert(sessions_after_check(old(self)@.sessions, token@, now)
                    == old(self)@.sessions.remove(token@));
            }
        }
        live
    }

    /// Whether `token` names a session that is still valid now; a session found expired is
    /// dropped.
    pub fn validate_session(&mut self, token: &str) -> (valid: bool)
        requires
            old(self).wf(),
        ensures
            final(self).wf(),
            final(self).clock_floor() >= old(self).clock_floor(),
            exists|now: u128|
                valid == session_valid_at(old(self)@.sessions, token@, now)
                    && #[trigger] sessions_after_check(old(self)@.sessions, token@, now)
                    == final(self)@.sessions && old(self).clock_floor() <= now <= final(self).clock_floor(),
            final(self)@.rate_limits == old(self)@.rate_limits,
            final(self)@.password_hash == old(self)@.password_hash,
    {
        let now = self.clock_reading();
        self.validate_session_at(token, now)
    }

    /// Drops every session that is no longer valid at clock reading `now`.
    pub fn cleanup_expired_at(&mut self, now: u128)
        requires
            old(self).wf(),
        ensures
            final(self).wf(),
            final(self).clock_floor() >= old(self).clock_floor(),
            final(self)@.sessions == live_sessions(old(self)@.sessions, now),
            final(self)@.rate_limits == old(self)@.rate_limits,
            final(self)@.password_hash == old(self)@.password_hash,
    {
        let ghost keys = self.token_keys();
        let ghost old_map = self.sessions@;
        let mut kept: StringHashMap<Session> = StringHashMap::new();
        let mut kept_tokens: Vec<String> = Vec::new();
        let n = self.session_tokens.len();
        for i in 0..n
            invariant
                n == self.session_tokens@.len(),
                keys == self.token_keys(),
                old_map == self.sessions@,
                self.wf(),
                kept_tokens@.map_values(|t: String| t@).no_duplicates(),
                forall|k: Seq<char>| #[trigger] kept@.contains_key(k) <==> kept_tokens@.map_values(|t: String| t@).contains(k),
                forall|k: Seq<char>| #[trigger] kept@.contains_key(k) <==> (keys.take(i as int).contains(k)
                    && session_live(old_map[k].created_at, now)),
                forall|k: Seq<char>| #[trigger] kept@.contains_key(k) ==> kept@[k] == old_map[k],
        {
            let ghost kk = kept_tokens@.map_values(|t: String| t@);
            let t = &self.session_tokens[i];
            proof {
                assert(keys[i as int] == t@);
                assert(self.token_keys().contains(t@));
                assert(self.sessions@.contains_key(t@));
                assert(!keys.take(i as int).contains(t@)) by {
                    if keys.take(i as int).contains(t@) {
                        let j = choose|j: int| 0 <= j < i && keys.take(i as int)[j] == t@;
                        assert(keys[j] == keys[i as int]);
                    }
                }
                assert(!kept@.contains_key(t@));
                assert(!kk.contains(t@));
            }
            let s = self.sessions.get(t.as_str()).unwrap();
            let age = if now >= s.created_at {
                now - s.created_at
            } else {
                0
            };
            let keep = age < SESSION_DURATION_NANOS;
            if keep {
                kept_tokens.push(t.clone());
                kept.insert(t.clone(), Session { token: s.token.clone(), created_at: s.created_at });
                proof {
                    let kk2 = kept_tokens@.map_values(|t: String| t@);
                    assert(kk2 =~= kk.push(t@));
                    assert forall|a: int, b: int| 0 <= a < kk2.len() && 0 <= b < kk2.len() && a != b
                        implies kk2[a] != kk2[b] by {
                        if a < kk.len() && b < kk.len() {
                            assert(kk[a] == kk2[a] && kk[b] == kk2[b]);
                        } else if a == kk.len() {
                            assert(kk[b] == kk2[b]);
                        } else {
                            assert(kk[a] == kk2[a]);
                        }
                    }
                }
            }
            proof {
                let kk2 = kept_tokens@.map_values(|t: String| t@);
                assert(keep == session_live(old_map[t@].created_at, now));
                assert forall|k: Seq<char>| #[trigger] kept@.contains_key(k) <==> kk2.contains(k) by {
                    if kk2.contains(k) && k != t@ {
                        let a = choose|a: int| 0 <= a < kk2.len() && kk2[a] == k;
                        if a < kk.len() {
                            assert(kk[a] == kk2[a]);
                        }
                    }
                    if kk.contains(k) {
                        let a = choose|a: int| 0 <= a < kk.len() && kk[a] == k;
                        assert(kk2[a] == kk[a]);
                    }
                    if kk2.len() > kk.len() {
                        assert(kk2[kk2.len() - 1] == t@);
                    }
                }
                assert forall|k: Seq<char>| #[trigger] kept@.contains_key(k) <==> (keys.take(i + 1).contains(k)
                    && session_live(old_map[k].created_at, now)) by {
                    if k == t@ {
                        assert(keys.take(i + 1)[i as int] == t@);
                    } else {
                        let prefix = keys.take(i + 1);
                        if prefix.contains(k) {
                            let j = choose|j: int| 0 <= j < prefix.len() && prefix[j] == k;
                            assert(keys.take(i as int)[j] == k);
                        }
                        if keys.take(i as int).contains(k) {
                            let j = choose|j: int| 0 <= j < i && keys.take(i as int)[j] == k;
                            assert(keys.take(i + 1)[j] == k);
                        }
                    }
                }
            }
        }
        proof {
            assert(keys.take(n as int) =~= keys);
        }
        self.sessions = kept;
        self.session_tokens = kept_tokens;
        proof {
            assert forall|k: Seq<char>| #[trigger] self.sessions@.contains_key(k) implies self.sessions@[k].token@ == k by {
                assert(keys.contains(k));
                assert(old_map.contains_key(k));
            }
            assert(self@.sessions =~= live_sessions(old(self)@.sessions, now)) by {
                assert forall|k: Seq<char>| #[trigger] old_map.contains_key(k) implies keys.contains(k) by {}
            }
        }
    }

    /// Drops every session that is no longer valid now.
    pub fn cleanup_expired(&mut self)
        requires
            old(self).wf(),
        ensures
            final(self).wf(),
            final(self).clock_floor() >= old(self).clock_floor(),
            exists|now: u128| #[trigger] live_sessions(old(self)@.sessions, now) == final(self)@.sessions
                && old(self).clock_floor() <= now <= final(self).clock_floor(),
            final(self)@.rate_limits == old(self)@.rate_limits,
            final(self)@.password_hash == old(self)@.password_hash,
    {
        let now = self.clock_reading();
        self.cleanup_expired_at(now);
    }

    /// Forgets the rate-limit entry of `ip` when its window has run out at clock reading `now`.
    pub fn cleanup_rate_limits_at(&mut self, ip: &str, now: u128)
        requires
            old(self).wf(),
        ensures
            final(self).wf(),
            final(self).clock_floor() >= old(self).clock_floor(),
            final(self)@.rate_limits == limits_after_cleanup(old(self)@.rate_limits, ip@, now),
            final(self)@.sessions == old(self)@.sessions,
            final(self)@.password_hash == old(self)@.password_hash,
    {
        let expired = match self.rate_limits.get(ip) {
            Some(l) => {
                let since = if now >= l.window_start {
                    now - l.window_start
                } else {
                    0
                };
                since > RATE_LIMIT_WINDOW_NANOS
            },
            None => false,
        };
        if expired {
            self.rate_limits.remove(ip);
        }
    }

    /// Forgets the rate-limit entry of `ip` when its window has run out.
    pub fn cleanup_rate_limits(&mut self, ip: &str)
        requires
            old(self).wf(),
        ensures
            final(self).wf(),
            final(self).clock_floor() >= old(self).clock_floor(),
            exists|now: u128| #[trigger] limits_after_cleanup(old(self)@.rate_limits, ip@, now)
                == final(self)@.rate_limits && old(self).clock_floor() <= now <= final(self).clock_floor(),
            final(self)@.sessions == old(self)@.sessions,
            final(self)@.password_hash == old(self)@.password_hash,
    {
        let now = self.clock_reading();
        self.cleanup_rate_limits_at(ip, now);
    }

    /// Counts an attempt from `ip` at clock reading `now` and checks `password`: the part of a
    /// login that comes before a session is opened.
    fn check_attempt(&mut self, password: &str, ip: &str, now: u128) -> (r: Result<(), String>)
        requires
            old(self).wf(),
        ensures
            final(self).wf(),
            final(self).clock_floor() >= old(self).clock_floor(),
            final(self)@.password_hash == old(self)@.password_hash,
            final(self)@.sessions == old(self)@.sessions,
            attempt_refused(old(self)@.rate_limits, ip@, now) ==> final(self)@ == old(self)@ && (r matches Err(
                m,
            ) && m@ == too_many_attempts_message()),
            !attempt_refused(old(self)@.rate_limits, ip@, now) ==> {
                let v = password_verdict(old(self)@.password_hash, password@);
                &&& final(self)@.rate_limits == limits_after_attempt(old(self)@.rate_limits, ip@, now)
                &&& (r is Ok <==> v is Accepted)
                &&& (r matches Err(m) ==> verdict_message_fits(v, m@))
            },
    {
        if !self.begin_attempt(ip, now) {
            proof {
                assert(self@.rate_limits =~= old(self)@.rate_limits);
                assert(self@ =~= old(self)@);
            }
            Err(String::from_str("Too many failed attempts. Please try again later."))
        } else {
            self.check_password(password)
        }
    }

    /// Opens a session under a fresh token, created at clock reading `created_at`, and forgets
    /// the rate-limit entry of `ip`: the part of a login after the password was accepted.
    fn open_session(&mut self, ip: &str, created_at: u128) -> (t: String)
        requires
            old(self).wf(),
        ensures
            final(self).wf(),
            final(self).clock_floor() >= old(self).clock_floor(),
            is_session_token(t@),
            final(self)@.sessions == old(self)@.sessions.insert(t@, created_at),
            final(self)@.rate_limits == old(self)@.rate_limits.remove(ip@),
            final(self)@.password_hash == old(self)@.password_hash,
    {
        let token = generate_token();
        self.grant_session(ip, token.clone(), created_at);
        token
    }

    /// Checks `password` for a login from `ip` at clock reading `now`. A refused attempt (too
    /// many failures from `ip` in the current window) is answered without looking at the
    /// password; every other attempt is counted, and a correct password opens a new session,
    /// created at `now`, and clears the address's count.
    pub fn authenticate_at(&mut self, password: &str, ip: &str, now: u128) -> (r: Result<String, String>)
        requires
            old(self).wf(),
        ensures
            final(self).wf(),
            final(self).clock_floor() >= old(self).clock_floor(),
            login_step(old(self)@, final(self)@, password@, ip@, now, r),
            r matches Ok(t) ==> final(self)@.sessions == old(self)@.sessions.insert(t@, now),
    {
        let r = match self.check_attempt(password, ip, now) {
            Err(e) => Err(e),
            Ok(()) => Ok(self.open_session(ip, now)),
        };
        proof {
            if r is Ok {
                assert(old(self)@.sessions.insert(r->Ok_0@, now) == self@.sessions);
            }
        }
        r
    }

    /// Checks `password` for a login from `ip` at the current time. The rate limit goes by the
    /// clock reading taken first; a session opened is stamped with a second reading, taken
    /// once the password has been checked.
    pub fn authenticate(&mut self, password: &str, ip: &str) -> (r: Result<String, String>)
        requires
            old(self).wf(),
        ensures
            final(self).wf(),
            final(self).clock_floor() >= old(self).clock_floor(),
            exists|now: u128| #[trigger] login_step(old(self)@, final(self)@, password@, ip@, now, r)
                && old(self).clock_floor() <= now <= final(self).clock_floor(),
    {
        let now = self.clock_reading();
        let r = match self.check_attempt(password, ip, now) {
            Err(e) => Err(e),
            Ok(()) => {
                let created_at = self.clock_reading();
                Ok(self.open_session(ip, created_at))
            },
        };
        proof {
            if r is Ok {
                let t = r->Ok_0;
                assert(exists|c: u128| #[trigger] old(self)@.sessions.insert(t@, c) == self@.sessions);
            }
            assert(login_step(old(self)@, self@, password@, ip@, now, r));
        }
        r
    }

    /// Checks `password` against the stored hash.
    pub fn check_password(&self, password: &str) -> (r: Result<(), String>)
        ensures
            r is Ok <==> password_verdict(self@.password_hash, password@) is Accepted,
            r matches Err(m) ==> verdict_message_fits(
                password_verdict(self@.password_hash, password@),
                m@,
            ),
    {
        match &self.password_hash {
            None => Err(String::from_str("No password set")),
            Some(h) => {
                match parse_phc(h.as_str()) {
                    Err(e) => {
                        let mut m = String::from_str("Invalid password hash: ");
                        let detail = password_error_text(&e);
                        m.append(detail.as_str());
                        assert(m@.subrange(0, malformed_hash_prefix().len() as int)
                            =~= malformed_hash_prefix());
                        Err(m)
                    },
                    Ok(()) => {
                        if argon2_verify(password, h.as_str()) {
                            Ok(())
                        } else {
                            Err(String::from_str("Invalid password"))
                        }
                    },
                }
            },
        }
    }
}

/// A fresh session token: 32 random bytes in lowercase hexadecimal.
fn generate_token() -> (t: String)
    ensures
        is_session_token(t@),
{
    let bytes = random_token_bytes();
    let t = hex_lower(bytes.as_slice());
    assert(bytes@.len() == 32);
    assert(hex_lower_spec(bytes@) == t@);
    t
}

} // verus!
