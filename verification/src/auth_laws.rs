use vstd::prelude::*;

use crate::auth::{
    attempt_refused, elapsed, entry_at, is_session_token, limits_after_attempt, limits_after_cleanup,
    live_sessions, login_step, password_verdict, invalid_password_message, phc_well_formed, argon2_accepts, session_valid_at,
    sessions_after_check, too_many_attempts_message, AuthModel, RateLimit, MAX_FAILED_ATTEMPTS,
    RATE_LIMIT_WINDOW_NANOS, SESSION_DURATION_NANOS,
};
use crate::text::{hex_lower_spec, is_lower_hex, lemma_hex_lower_charset};

verus! {

/// An address that already has the maximum number of failures counted in its current window
/// is refused whatever password it sends, and the attempt changes nothing.
pub proof fn law_locked_out_attempt_changes_nothing(
    pre: AuthModel,
    post: AuthModel,
    password: Seq<char>,
    ip: Seq<char>,
    now: u128,
    r: Result<String, String>,
)
    requires
        pre.rate_limits.contains_key(ip),
        pre.rate_limits[ip].attempts >= MAX_FAILED_ATTEMPTS,
        elapsed(pre.rate_limits[ip].window_start, now) <= RATE_LIMIT_WINDOW_NANOS,
        login_step(pre, post, password, ip, now, r),
    ensures
        post == pre,
        r matches Err(m) && m@ == too_many_attempts_message(),
{
}

/// A failed login that is not refused counts one more failure for the address: in the
/// current window when it still runs, in a new window starting now otherwise. No session is
/// opened.
pub proof fn law_failed_attempt_is_counted(
    pre: AuthModel,
    post: AuthModel,
    password: Seq<char>,
    ip: Seq<char>,
    now: u128,
    r: Result<String, String>,
)
    requires
        !attempt_refused(pre.rate_limits, ip, now),
        !(password_verdict(pre.password_hash, password) is Accepted),
        login_step(pre, post, password, ip, now, r),
    ensures
        r is Err,
        post.sessions == pre.sessions,
        post.password_hash == pre.password_hash,
        post.rate_limits.contains_key(ip),
        post.rate_limits[ip].attempts == entry_at(pre.rate_limits.get(ip), now).attempts + 1,
        post.rate_limits[ip].window_start == entry_at(pre.rate_limits.get(ip), now).window_start,
        forall|other: Seq<char>| other != ip ==> #[trigger] post.rate_limits.get(other)
            == pre.rate_limits.get(other),
{
}

/// Starting from an address with no entry, `n` failed logins whose clock readings all lie
/// within one window of the first leave exactly `n` failures counted in that window; after
/// the maximum number of them, a further attempt within the window is refused.
pub proof fn law_failures_accumulate_within_window(
    states: Seq<AuthModel>,
    passwords: Seq<Seq<char>>,
    times: Seq<u128>,
    results: Seq<Result<String, String>>,
    ip: Seq<char>,
    later: u128,
)
    requires
        states.len() == times.len() + 1,
        passwords.len() == times.len(),
        results.len() == times.len(),
        times.len() >= 1,
        !states[0].rate_limits.contains_key(ip),
        forall|k: int| 0 <= k < times.len() ==> login_step(
            states[k],
            states[k + 1],
            passwords[k],
            ip,
            times[k],
            results[k],
        ),
        forall|k: int| 0 <= k < times.len() ==> !(#[trigger] password_verdict(
            states[k].password_hash,
            passwords[k],
        ) is Accepted),
        forall|k: int| 0 <= k < times.len() ==> #[trigger] times[k] - times[0] <= RATE_LIMIT_WINDOW_NANOS,
        later - times[0] <= RATE_LIMIT_WINDOW_NANOS,
    ensures
        states[times.len() as int].rate_limits.contains_key(ip),
        states[times.len() as int].rate_limits[ip] == (RateLimit {
            attempts: if times.len() <= MAX_FAILED_ATTEMPTS {
                times.len() as u32
            } else {
                MAX_FAILED_ATTEMPTS
            },
            window_start: times[0],
        }),
        times.len() >= MAX_FAILED_ATTEMPTS ==> attempt_refused(
            states[times.len() as int].rate_limits,
            ip,
            later,
        ),
    decreases times.len(),
{
    let n = times.len();
    if n == 1 {
        assert(login_step(states[0], states[1], passwords[0], ip, times[0], results[0]));
        assert(password_verdict(states[0].password_hash, passwords[0]) !is Accepted);
        assert(times[0] - times[0] <= RATE_LIMIT_WINDOW_NANOS);
    } else {
        let m = (n - 1) as int;
        assert forall|k: int| 0 <= k < m implies login_step(
            states.take(m + 1)[k],
            states.take(m + 1)[k + 1],
            passwords.take(m)[k],
            ip,
            times.take(m)[k],
            results.take(m)[k],
        ) by {
            assert(login_step(states[k], states[k + 1], passwords[k], ip, times[k], results[k]));
        }
        assert forall|k: int| 0 <= k < m implies !(#[trigger] password_verdict(
            states.take(m + 1)[k].password_hash,
            passwords.take(m)[k],
        ) is Accepted) by {
            assert(!(password_verdict(states[k].password_hash, passwords[k]) is Accepted));
        }
        assert forall|k: int| 0 <= k < m implies #[trigger] times.take(m)[k] - times.take(m)[0]
            <= RATE_LIMIT_WINDOW_NANOS by {
            assert(times[k] - times[0] <= RATE_LIMIT_WINDOW_NANOS);
        }
        assert(times[m] - times[0] <= RATE_LIMIT_WINDOW_NANOS);
        law_failures_accumulate_within_window(
            states.take(m + 1),
            passwords.take(m),
            times.take(m),
            results.take(m),
            ip,
            times[m],
);
        assert(states.take(m + 1)[m] == states[m]);
        assert(login_step(states[m], states[m + 1], passwords[m], ip, times[m], results[m]));
        assert(password_verdict(states[m].password_hash, passwords[m]) !is Accepted);
        assert(times[m] - times[0] <= RATE_LIMIT_WINDOW_NANOS);
        if m < MAX_FAILED_ATTEMPTS {
            assert(states[m + 1].rate_limits =~= limits_after_attempt(
                states[m].rate_limits,
                ip,
                times[m],
            ));
        } else {
            assert(attempt_refused(states[m].rate_limits, ip, times[m]));
            assert(states[m + 1] == states[m]);
        }
    }
}

/// A login with the password whose hash is stored, from an address that is not locked out,
/// succeeds: it returns a session token, opens that session and clears the address's count.
pub proof fn law_stored_password_is_accepted(
    pre: AuthModel,
    post: AuthModel,
    password: Seq<char>,
    ip: Seq<char>,
    now: u128,
    r: Result<String, String>,
)
    requires
        pre.password_hash matches Some(h) && phc_well_formed(h) && argon2_accepts(password, h),
        !attempt_refused(pre.rate_limits, ip, now),
        login_step(pre, post, password, ip, now, r),
    ensures
        r matches Ok(t) && is_session_token(t@) && post.sessions.contains_key(t@),
        !post.rate_limits.contains_key(ip),
        forall|later: u128| !#[trigger] attempt_refused(post.rate_limits, ip, later),
        post.password_hash == pre.password_hash,
{
    let t = r->Ok_0;
    let c = choose|c: u128| #[trigger] pre.sessions.insert(t@, c) == post.sessions;
    assert(pre.sessions.insert(t@, c).contains_key(t@));
}

/// Any login that is refused or fails opens no session.
pub proof fn law_failed_login_opens_no_session(
    pre: AuthModel,
    post: AuthModel,
    password: Seq<char>,
    ip: Seq<char>,
    now: u128,
    r: Result<String, String>,
)
    requires
        login_step(pre, post, password, ip, now, r),
        r is Err,
    ensures
        post.sessions == pre.sessions,
        post.password_hash == pre.password_hash,
{
}

/// A session just stored is valid exactly while less than the session duration has passed
/// since its creation.
pub proof fn law_stored_session_valid_until_expiry(
    sessions: Map<Seq<char>, u128>,
    token: Seq<char>,
    created_at: u128,
    now: u128,
)
    ensures
        session_valid_at(sessions.insert(token, created_at), token, now) <==> elapsed(created_at, now)
            < SESSION_DURATION_NANOS,
{
}

/// A token found invalid is forgotten: it stays invalid at every later check.
pub proof fn law_invalid_session_stays_invalid(
    sessions: Map<Seq<char>, u128>,
    token: Seq<char>,
    now: u128,
    later: u128,
)
    requires
        !session_valid_at(sessions, token, now),
    ensures
        !session_valid_at(sessions_after_check(sessions, token, now), token, later),
{
}

/// Cleaning up expired sessions at `now` changes the answer of no check made at `now`.
pub proof fn law_cleanup_preserves_validity(
    sessions: Map<Seq<char>, u128>,
    token: Seq<char>,
    now: u128,
)
    ensures
        session_valid_at(live_sessions(sessions, now), token, now) == session_valid_at(
            sessions,
            token,
            now,
        ),
{
}

/// A valid session stays valid while time has not moved past its expiry, and checking it
/// changes nothing.
pub proof fn law_valid_check_changes_nothing(
    sessions: Map<Seq<char>, u128>,
    token: Seq<char>,
    now: u128,
)
    requires
        session_valid_at(sessions, token, now),
    ensures
        sessions_after_check(sessions, token, now) == sessions,
{
}

/// Session tokens are 64 lowercase hexadecimal digits.
pub proof fn law_session_token_shape(t: Seq<char>)
    requires
        is_session_token(t),
    ensures
        t.len() == 64,
        is_lower_hex(t),
{
    let b = choose|b: Seq<u8>| b.len() == 32 && #[trigger] hex_lower_spec(b) == t;
    lemma_hex_lower_charset(b);
}

/// Cleaning up the rate-limit entry of an address never touches another address, and keeps
/// the entry while its window still runs.
pub proof fn law_rate_limit_cleanup_is_local(
    limits: Map<Seq<char>, RateLimit>,
    ip: Seq<char>,
    now: u128,
    other: Seq<char>,
)
    ensures
        other != ip ==> limits_after_cleanup(limits, ip, now).get(other) == limits.get(other),
        limits.contains_key(ip) && elapsed(limits[ip].window_start, now) <= RATE_LIMIT_WINDOW_NANOS
            ==> limits_after_cleanup(limits, ip, now) == limits,
{
}

/// A login, whatever its outcome, leaves every other session as valid or invalid as it was,
/// at every time.
pub proof fn law_login_keeps_other_sessions(
    pre: AuthModel,
    post: AuthModel,
    password: Seq<char>,
    ip: Seq<char>,
    now: u128,
    r: Result<String, String>,
    token: Seq<char>,
    at: u128,
)
    requires
        login_step(pre, post, password, ip, now, r),
        r matches Ok(t) ==> t@ != token,
    ensures
        session_valid_at(post.sessions, token, at) == session_valid_at(pre.sessions, token, at),
{
    if r is Ok {
        let t = r->Ok_0;
        let c = choose|c: u128| #[trigger] pre.sessions.insert(t@, c) == post.sessions;
        assert(post.sessions.contains_key(token) == pre.sessions.contains_key(token));
    }
}

/// A session opened by a login at `now` is valid at a later check exactly while less than the
/// session duration has passed since `now`.
pub proof fn law_login_session_valid_for_duration(
    pre: AuthModel,
    post: AuthModel,
    password: Seq<char>,
    ip: Seq<char>,
    now: u128,
    token: String,
    at: u128,
)
    requires
        login_step(pre, post, password, ip, now, Ok(token)),
        post.sessions == pre.sessions.insert(token@, now),
    ensures
        session_valid_at(post.sessions, token@, at) <==> elapsed(now, at) < SESSION_DURATION_NANOS,
{
}

/// No login changes the stored password: only setting one does.
pub proof fn law_login_keeps_password(
    pre: AuthModel,
    post: AuthModel,
    password: Seq<char>,
    ip: Seq<char>,
    now: u128,
    r: Result<String, String>,
)
    requires
        login_step(pre, post, password, ip, now, r),
    ensures
        post.password_hash == pre.password_hash,
{
}

/// Cleaning up the rate-limit entry of an address at `now` changes the answer to no later
/// attempt from it, nor what that attempt leaves behind.
pub proof fn law_rate_limit_cleanup_changes_no_later_attempt(
    limits: Map<Seq<char>, RateLimit>,
    ip: Seq<char>,
    now: u128,
    later: u128,
)
    requires
        now <= later,
    ensures
        attempt_refused(limits_after_cleanup(limits, ip, now), ip, later) == attempt_refused(limits, ip, later),
        limits_after_attempt(limits_after_cleanup(limits, ip, now), ip, later) == limits_after_attempt(
            limits,
            ip,
            later,
        ),
{
    let cleaned = limits_after_cleanup(limits, ip, now);
    if cleaned != limits {
        assert(entry_at(cleaned.get(ip), later) == entry_at(limits.get(ip), later));
        assert(limits_after_attempt(cleaned, ip, later) =~= limits_after_attempt(limits, ip, later));
    }
}

/// A password that Argon2 does not verify against the stored hash is answered "Invalid
/// password" (unless the address is locked out), and the attempt opens no session.
pub proof fn law_rejected_password_is_invalid(
    pre: AuthModel,
    post: AuthModel,
    password: Seq<char>,
    ip: Seq<char>,
    now: u128,
    r: Result<String, String>,
)
    requires
        pre.password_hash matches Some(h) && phc_well_formed(h) && !argon2_accepts(password, h),
        !attempt_refused(pre.rate_limits, ip, now),
        login_step(pre, post, password, ip, now, r),
    ensures
        r matches Err(m) && m@ == invalid_password_message(),
        post.sessions == pre.sessions,
        post.rate_limits == limits_after_attempt(pre.rate_limits, ip, now),
{
}

/// Once the window of an address has run out, its attempts are let in again whatever was
/// counted before: the attempt starts a new window, counted once.
pub proof fn law_expired_window_lets_attempts_in(limits: Map<Seq<char>, RateLimit>, ip: Seq<char>, now: u128)
    requires
        limits.contains_key(ip),
        elapsed(limits[ip].window_start, now) > RATE_LIMIT_WINDOW_NANOS,
    ensures
        !attempt_refused(limits, ip, now),
        limits_after_attempt(limits, ip, now)[ip] == (RateLimit { attempts: 1, window_start: now }),
{
}

proof fn lemma_password_history(states: Seq<AuthModel>, stored: Seq<bool>, j: int)
    requires
        states.len() == stored.len() + 1,
        states[0].password_hash is None,
        forall|k: int| 0 <= k < stored.len() ==> (if #[trigger] stored[k] {
            states[k + 1].password_hash is Some
        } else {
            states[k + 1].password_hash == states[k].password_hash
        }),
        0 <= j < states.len(),
    ensures
        states[j].password_hash is Some <==> exists|k: int| 0 <= k < j && #[trigger] stored[k],
    decreases j,
{
    if j > 0 {
        lemma_password_history(states, stored, j - 1);
        if stored[j - 1] {
            assert(exists|k: int| 0 <= k < j && #[trigger] stored[k]);
        } else if exists|k: int| 0 <= k < j && #[trigger] stored[k] {
            let k = choose|k: int| 0 <= k < j && #[trigger] stored[k];
            assert(k < j - 1);
        }
    }
}

/// Over any run of calls on a new manager, a password is set exactly when some earlier call
/// stored one, and once set it stays set. Each step is one call: `stored[k]` marks a
/// `set_password` that succeeded (its contract: the hash is then `Some`); every other call
/// (a failed `set_password`, logins, session checks, cleanups) keeps the stored hash, as its
/// contract says.
pub proof fn law_password_set_follows_history(states: Seq<AuthModel>, stored: Seq<bool>)
    requires
        states.len() == stored.len() + 1,
        states[0].password_hash is None,
        forall|k: int| 0 <= k < stored.len() ==> (if #[trigger] stored[k] {
            states[k + 1].password_hash is Some
        } else {
            states[k + 1].password_hash == states[k].password_hash
        }),
    ensures
        forall|j: int| 0 <= j < states.len() ==> (#[trigger] states[j].password_hash is Some <==> exists|k: int|
            0 <= k < j && #[trigger] stored[k]),
        forall|i: int, j: int| 0 <= i <= j < states.len() && #[trigger] states[i].password_hash is Some
            ==> #[trigger] states[j].password_hash is Some,
{
    assert forall|j: int| 0 <= j < states.len() implies (#[trigger] states[j].password_hash is Some <==> exists|k: int|
        0 <= k < j && #[trigger] stored[k]) by {
        lemma_password_history(states, stored, j);
    }
    assert forall|i: int, j: int| 0 <= i <= j < states.len() && #[trigger] states[i].password_hash is Some
        implies #[trigger] states[j].password_hash is Some by {
        lemma_password_history(states, stored, i);
        lemma_password_history(states, stored, j);
        let k = choose|k: int| 0 <= k < i && #[trigger] stored[k];
        assert(0 <= k < j && stored[k]);
    }
}

/// A lock-out lasts one window: if an attempt from an address is refused at clock reading
/// `t0`, an attempt from it at a later reading `t1`, more than the window after `t0`, is let in
/// and starts a new window. (Windows start at earlier readings, and readings do not go
/// backwards.)
pub proof fn law_lockout_ends_after_window(
    limits: Map<Seq<char>, RateLimit>,
    ip: Seq<char>,
    t0: u128,
    t1: u128,
)
    requires
        attempt_refused(limits, ip, t0),
        limits.contains_key(ip) ==> limits[ip].window_start <= t0,
        t1 >= t0,
        t1 - t0 > RATE_LIMIT_WINDOW_NANOS,
    ensures
        !attempt_refused(limits, ip, t1),
        limits_after_attempt(limits, ip, t1)[ip] == (RateLimit { attempts: 1, window_start: t1 }),
{
}

} // verus!
