//! Password login and session tokens.
//!
//! This server is meant to be reachable from outside the house, so every route
//! except login and health requires a token. The design is deliberately small:
//! one password, opaque random session tokens, no user accounts.
//!
//! The password is hashed at startup with Argon2id and the plaintext dropped, so
//! a later memory dump or accidental log of the configuration does not hand over
//! the credential.
//!
//! Times are readings of one steady clock, and spans of it, in nanoseconds.

use argon2::password_hash::{PasswordHash, PasswordHasher, PasswordVerifier, Salt, SaltString};
use argon2::Argon2;
use vstd::prelude::*;

use crate::server::ServerError;
use crate::text;
use crate::text::{append_text, chars_of, same_text, text_of};

verus! {

/// Bytes of entropy in a session token. 256 bits is far beyond guessable.
pub const TOKEN_BYTES: usize = 32;

/// Bytes of a password salt.
pub const SALT_BYTES: usize = 16;

/// One second.
pub const SECOND: u128 = 1_000_000_000;

/// How guessing is slowed down.
///
/// Argon2 alone is not enough. Verification takes about 15 ms, which a handful of
/// parallel connections turns into some 150 guesses a second, and a dictionary
/// password falls in minutes. A lockout that doubles with each failure turns that
/// into an unworkable rate within a few attempts.
#[derive(Debug, Clone, Copy, PartialEq, Eq, Structural)]
pub struct LoginPolicy {
    /// Failures allowed before lockouts begin, so ordinary typos cost nothing.
    pub free_attempts: u32,
    /// Lockout after the first excess failure; doubles from there.
    pub base_lockout: u128,
    pub max_lockout: u128,
    /// Idle period after which a client's failures are forgotten.
    pub forget_after: u128,
}

impl Default for LoginPolicy {
    fn default() -> (r: Self)
        ensures
            r == (LoginPolicy {
                free_attempts: 5,
                base_lockout: (2 * SECOND) as u128,
                max_lockout: (15 * 60 * SECOND) as u128,
                forget_after: (60 * 60 * SECOND) as u128,
            }),
    {
        LoginPolicy {
            free_attempts: 5,
            base_lockout: 2 * SECOND,
            max_lockout: 15 * 60 * SECOND,
            forget_after: 60 * 60 * SECOND,
        }
    }
}

/// The address a login attempt is counted against.
#[derive(Debug, Clone, Copy, PartialEq, Eq, Structural)]
pub enum ClientAddr {
    V4(u32),
    V6(u128),
}

/// One client's recent failures.
#[derive(Debug, Clone, Copy, PartialEq, Eq, Structural)]
pub struct Attempts {
    pub client: ClientAddr,
    pub failures: u32,
    pub locked_until: Option<u128>,
    pub last_seen: u128,
}

/// A live session.
struct Session {
    token: String,
    expires: u128,
}

/// What a session holds.
pub struct SessionView {
    pub token: Seq<char>,
    pub expires: u128,
}

/// Holds the password hash, the live sessions, and the guess limiter.
pub struct Auth {
    password_hash: String,
    session_ttl: u128,
    sessions: Vec<Session>,
    policy: LoginPolicy,
    attempts: Vec<Attempts>,
}

/// What an [`Auth`] holds.
#[verifier::ext_equal]
pub struct AuthView {
    pub password_hash: Seq<char>,
    pub session_ttl: u128,
    pub sessions: Seq<SessionView>,
    pub policy: LoginPolicy,
    pub attempts: Seq<Attempts>,
}

spec fn session_views(s: Seq<Session>) -> Seq<SessionView> {
    s.map_values(|x: Session| SessionView { token: x.token@, expires: x.expires })
}

impl View for Auth {
    type V = AuthView;

    closed spec fn view(&self) -> AuthView {
        AuthView {
            password_hash: self.password_hash@,
            session_ttl: self.session_ttl,
            sessions: session_views(self.sessions@),
            policy: self.policy,
            attempts: self.attempts@,
        }
    }
}

/// The texts of a result.
pub open spec fn result_text(r: Result<String, String>) -> Result<Seq<char>, Seq<char>> {
    match r {
        Ok(s) => Ok(s@),
        Err(e) => Err(e@),
    }
}

/// What `SaltString::encode_b64` makes of bytes.
pub uninterp spec fn salt_of(bytes: Seq<u8>) -> Result<Seq<char>, Seq<char>>;

/// Calls `SaltString::encode_b64`: the bytes in unpadded base64, or why they do
/// not fit. Sixteen bytes fit.
#[verifier::external_body]
fn encode_salt(bytes: &[u8]) -> (r: Result<String, String>)
    ensures
        result_text(r) == salt_of(bytes@),
        bytes@.len() == SALT_BYTES ==> r is Ok,
{
    SaltString::encode_b64(bytes).map(|s| s.as_str().to_string()).map_err(|e| e.to_string())
}

/// What `Argon2::hash_password` makes, with the default parameters, of a password
/// and the text of a salt.
pub uninterp spec fn hash_of(password: Seq<u8>, salt: Seq<char>) -> Result<Seq<char>, Seq<char>>;

/// Calls `Argon2::hash_password` with the default parameters. The result is a
/// hash in the PHC format for Argon2id, which parses and which the password it was
/// made of verifies against. That no other password does is not promised.
#[verifier::external_body]
fn argon2_hash(password: &[u8], salt: &str) -> (r: Result<String, String>)
    ensures
        result_text(r) == hash_of(password@, salt@),
        r matches Ok(h) ==> "$argon2id$"@.is_prefix_of(h@) && hash_fault(h@) is None && accepts(
            password@,
            h@,
        ),
{
    Salt::from_b64(salt)
        .and_then(|s| Argon2::default().hash_password(password, s))
        .map(|h| h.to_string())
        .map_err(|e| e.to_string())
}

/// Why `PasswordHash::new` refuses a text; nothing when it takes it.
pub uninterp spec fn hash_fault(hash: Seq<char>) -> Option<Seq<char>>;

/// Calls `PasswordHash::new`: why the text is no password hash, if it is none.
#[verifier::external_body]
fn parse_hash(hash: &str) -> (r: Option<String>)
    ensures
        text::opt_text(r) == hash_fault(hash@),
{
    PasswordHash::new(hash).err().map(|e| e.to_string())
}

/// Whether `Argon2::verify_password` accepts a password for a hash.
pub uninterp spec fn accepts(password: Seq<u8>, hash: Seq<char>) -> bool;

/// A hash that `Argon2::hash_password` made with the default parameters.
pub open spec fn is_made(hash: Seq<char>) -> bool {
    exists|password: Seq<u8>, salt: Seq<char>| #[trigger]
        hash_of(password, salt) == Ok::<Seq<char>, Seq<char>>(hash)
}

/// Calls `Argon2::verify_password`: whether hashing the password as the hash says
/// gives that hash. A text that is no hash accepts nothing. The hash says with
/// which parameters to work, and some make the call panic or run on without end,
/// so only a hash made with the default ones is taken.
#[verifier::external_body]
fn argon2_verify(password: &[u8], hash: &str) -> (r: bool)
    requires
        is_made(hash@),
    ensures
        r == accepts(password@, hash@),
        hash_fault(hash@) is Some ==> !r,
{
    PasswordHash::new(hash).is_ok_and(|h| Argon2::default().verify_password(password, &h).is_ok())
}

/// Calls `getrandom::fill`: so many bytes from the system's random source, or why
/// it has none. Which bytes they are is not promised.
#[verifier::external_body]
fn random_bytes(n: usize) -> (r: Result<Vec<u8>, String>)
    ensures
        r matches Ok(b) ==> b@.len() == n,
{
    let mut buffer = vec![0u8; n];
    getrandom::fill(&mut buffer).map(|_| buffer).map_err(|e| e.to_string())
}

/// The character for a hexadecimal digit.
pub open spec fn hex_digit(d: int) -> char {
    if d < 10 {
        (('0' as u8) + d) as u8 as char
    } else {
        (('a' as u8) + d - 10) as u8 as char
    }
}

/// Bytes as two lower-case hexadecimal digits each.
pub open spec fn hex_text(bytes: Seq<u8>) -> Seq<char>
    decreases bytes.len(),
{
    if bytes.len() == 0 {
        Seq::empty()
    } else {
        hex_text(bytes.drop_last()).push(hex_digit(bytes.last() as int / 16)).push(
            hex_digit(bytes.last() as int % 16),
        )
    }
}

fn hex_char(d: u8) -> (r: char)
    requires
        d < 16,
    ensures
        r == hex_digit(d as int),
{
    if d < 10 {
        ('0' as u8 + d) as char
    } else {
        ('a' as u8 + (d - 10)) as char
    }
}

pub fn hex(bytes: &[u8]) -> (r: String)
    ensures
        r@ == hex_text(bytes@),
{
    let mut out: Vec<char> = Vec::new();
    for i in 0..bytes.len()
        invariant
            out@ == hex_text(bytes@.take(i as int)),
    {
        assert(bytes@.take(i + 1).drop_last() =~= bytes@.take(i as int));
        out.push(hex_char(bytes[i] / 16));
        out.push(hex_char(bytes[i] % 16));
    }
    assert(bytes@.take(bytes@.len() as int) =~= bytes@);
    text_of(&out)
}

/// The first record of a client at or after `i`; the length when there is none.
pub open spec fn record_at(s: Seq<Attempts>, client: ClientAddr, i: int) -> int
    decreases s.len() - i,
{
    if i >= s.len() || s[i].client == client {
        i
    } else {
        record_at(s, client, i + 1)
    }
}

/// A client's record, where there is one.
pub open spec fn record_of(s: Seq<Attempts>, client: ClientAddr) -> Option<Attempts> {
    let i = record_at(s, client, 0);
    if i < s.len() {
        Some(s[i])
    } else {
        None
    }
}

/// How long ago a time was; nothing for one yet to come.
pub open spec fn since(then: u128, now: u128) -> int {
    if then <= now {
        now - then
    } else {
        0
    }
}

/// The records of clients that have been seen lately.
pub open spec fn remembered(s: Seq<Attempts>, now: u128, forget_after: u128) -> Seq<Attempts>
    decreases s.len(),
{
    if s.len() == 0 {
        Seq::empty()
    } else {
        let before = remembered(s.drop_last(), now, forget_after);
        if since(s.last().last_seen, now) < forget_after {
            before.push(s.last())
        } else {
            before
        }
    }
}

/// The records of all other clients.
pub open spec fn without_client(s: Seq<Attempts>, client: ClientAddr) -> Seq<Attempts>
    decreases s.len(),
{
    if s.len() == 0 {
        Seq::empty()
    } else {
        let before = without_client(s.drop_last(), client);
        if s.last().client != client {
            before.push(s.last())
        } else {
            before
        }
    }
}

/// Two to the power of `n`.
pub open spec fn doublings(n: nat) -> nat
    decreases n,
{
    if n == 0 {
        1
    } else {
        2 * doublings((n - 1) as nat)
    }
}

/// How often a lockout doubles at most.
pub const MAX_DOUBLINGS: u32 = 20;

/// How long a client is locked out once it has failed so often: not at all while
/// the free attempts last, then the base, doubling with each further failure up
/// to the cap.
pub open spec fn lockout_after(p: LoginPolicy, failures: u32) -> Option<int> {
    if failures <= p.free_attempts {
        None
    } else {
        let excess = failures - p.free_attempts - 1;
        let n = if excess < MAX_DOUBLINGS {
            excess as nat
        } else {
            MAX_DOUBLINGS as nat
        };
        let grown = p.base_lockout * doublings(n);
        Some(if grown < p.max_lockout {
            grown
        } else {
            p.max_lockout as int
        })
    }
}

/// A client's record after one more failure.
pub open spec fn failed_again(r: Attempts, p: LoginPolicy, now: u128) -> Attempts {
    let failures = if r.failures < u32::MAX {
        (r.failures + 1) as u32
    } else {
        r.failures
    };
    Attempts {
        client: r.client,
        failures,
        locked_until: match lockout_after(p, failures) {
            Some(d) => Some((now + d) as u128),
            None => r.locked_until,
        },
        last_seen: now,
    }
}

/// All records after a failure of one client. Clients that have behaved for a
/// while are dropped, so the table cannot grow without bound on a server facing
/// the open internet.
pub open spec fn after_failure(
    s: Seq<Attempts>,
    p: LoginPolicy,
    client: ClientAddr,
    now: u128,
) -> Seq<Attempts> {
    let kept = remembered(s, now, p.forget_after);
    let i = record_at(kept, client, 0);
    if i < kept.len() {
        kept.update(i, failed_again(kept[i], p, now))
    } else {
        kept.push(
            failed_again(
                Attempts { client, failures: 0, locked_until: None, last_seen: now },
                p,
                now,
            ),
        )
    }
}

/// The sessions that have not expired.
pub open spec fn live(s: Seq<SessionView>, now: u128) -> Seq<SessionView>
    decreases s.len(),
{
    if s.len() == 0 {
        Seq::empty()
    } else {
        let before = live(s.drop_last(), now);
        if s.last().expires > now {
            before.push(s.last())
        } else {
            before
        }
    }
}

/// The sessions of all other tokens.
pub open spec fn without_token(s: Seq<SessionView>, token: Seq<char>) -> Seq<SessionView>
    decreases s.len(),
{
    if s.len() == 0 {
        Seq::empty()
    } else {
        let before = without_token(s.drop_last(), token);
        if s.last().token != token {
            before.push(s.last())
        } else {
            before
        }
    }
}

/// Some session of this token has not expired.
pub open spec fn is_live(s: Seq<SessionView>, token: Seq<char>, now: u128) -> bool {
    exists|i: int| 0 <= i < s.len() && (#[trigger] s[i]).token == token && s[i].expires > now
}

/// How an attempt to sign in goes, before a session is opened.
pub enum Admission {
    /// Still locked out, for so long.
    LockedOut(u128),
    /// The stored hash is unusable.
    BadHash(Seq<char>),
    Refused,
    Admitted,
}

impl AuthView {
    /// How long a client must still wait, if it is locked out.
    pub open spec fn wait(self, client: ClientAddr, now: u128) -> Option<u128> {
        match record_of(self.attempts, client) {
            Some(r) => match r.locked_until {
                Some(until) => if now <= until {
                    Some((until - now) as u128)
                } else {
                    None
                },
                None => None,
            },
            None => None,
        }
    }

    /// How an attempt to sign in goes. The lockout is checked *before* the
    /// password is verified, so a client being throttled cannot keep burning CPU
    /// on Argon2, and the right password tells it nothing.
    pub open spec fn admission(self, client: ClientAddr, password: Seq<char>, now: u128) -> Admission {
        match self.wait(client, now) {
            Some(d) => Admission::LockedOut(d),
            None => match hash_fault(self.password_hash) {
                Some(e) => Admission::BadHash(e),
                None => if accepts(vstd::utf8::encode_utf8(password), self.password_hash) {
                    Admission::Admitted
                } else {
                    Admission::Refused
                },
            },
        }
    }

    /// The state after an attempt to sign in that went so: a refusal counts a
    /// failure against the client, a success clears its history.
    pub open spec fn after_attempt(self, a: Admission, client: ClientAddr, now: u128) -> AuthView {
        match a {
            Admission::Refused => AuthView {
                attempts: after_failure(self.attempts, self.policy, client, now),
                ..self
            },
            Admission::Admitted => AuthView {
                attempts: without_client(self.attempts, client),
                ..self
            },
            _ => self,
        }
    }

    /// The state with a session opened under a token. Expired sessions are
    /// dropped, so the table cannot grow without bound over a long-running
    /// deployment.
    pub open spec fn opened(self, token: Seq<char>, now: u128) -> AuthView {
        AuthView {
            sessions: without_token(live(self.sessions, now), token).push(
                SessionView { token, expires: (now + self.session_ttl) as u128 },
            ),
            ..self
        }
    }

    /// No time that is computed from `now` overflows.
    pub open spec fn in_range(self, now: u128) -> bool {
        &&& now + self.session_ttl <= u128::MAX
        &&& now + self.policy.max_lockout <= u128::MAX
    }
}

fn find_record(s: &Vec<Attempts>, client: ClientAddr) -> (r: usize)
    ensures
        r == record_at(s@, client, 0),
        r <= s@.len(),
{
    let mut i: usize = 0;
    while i < s.len() && s[i].client != client
        invariant
            i <= s@.len(),
            record_at(s@, client, 0) == record_at(s@, client, i as int),
        decreases s@.len() - i,
    {
        i += 1;
    }
    i
}

proof fn lemma_doublings(n: nat)
    requires
        n <= MAX_DOUBLINGS,
    ensures
        1 <= doublings(n) <= 0x10_0000,
    decreases n,
{
    reveal_with_fuel(doublings, 21);
}

fn doublings_of(n: u32) -> (r: u128)
    requires
        n <= MAX_DOUBLINGS,
    ensures
        r == doublings(n as nat),
{
    let mut r: u128 = 1;
    for i in 0..n
        invariant
            n <= MAX_DOUBLINGS,
            r == doublings(i as nat),
    {
        proof {
            lemma_doublings(i as nat);
            lemma_doublings((i + 1) as nat);
        }
        r = 2 * r;
    }
    r
}

/// How long a client is locked out once it has failed so often.
pub fn lockout(p: &LoginPolicy, failures: u32) -> (r: Option<u128>)
    ensures
        match r {
            Some(d) => lockout_after(*p, failures) == Some(d as int) && d <= p.max_lockout,
            None => lockout_after(*p, failures) is None,
        },
{
    if failures <= p.free_attempts {
        return None;
    }
    let excess: u32 = failures - p.free_attempts - 1;
    let n: u32 = if excess < MAX_DOUBLINGS {
        excess
    } else {
        MAX_DOUBLINGS
    };
    match p.base_lockout.checked_mul(doublings_of(n)) {
        Some(grown) => Some(
            if grown < p.max_lockout {
                grown
            } else {
                p.max_lockout
            },
        ),
        None => Some(p.max_lockout),
    }
}

/// The system gives out no random bytes.
fn no_randomness(why: &str) -> (r: ServerError)
    ensures
        r matches ServerError::Config(m) && m@ == "no source of randomness: "@ + why@,
        r matches ServerError::Config(m) && "no source of randomness: "@.is_prefix_of(m@),
{
    let prefix = "no source of randomness: ";
    assert(prefix@ =~= (prefix@ + why@).take(prefix@.len() as int));
    ServerError::Config(joined(prefix, why))
}

/// The hash of a password made with a salt of these bytes, or why there is none.
pub open spec fn salted(password: Seq<char>, salt: Seq<u8>) -> Result<Seq<char>, Seq<char>> {
    match salt_of(salt) {
        Ok(s) => match hash_of(vstd::utf8::encode_utf8(password), s) {
            Ok(h) => Ok(h),
            Err(e) => Err("hashing password: "@ + e),
        },
        Err(e) => Err("building password salt: "@ + e),
    }
}

impl Auth {
    /// The stored hash was made here; none comes from outside.
    #[verifier::type_invariant]
    spec fn keeps_a_made_hash(self) -> bool {
        is_made(self.password_hash@)
    }

    /// An empty table of sessions for a password hash. The plaintext is not
    /// retained.
    fn from_hash(password_hash: String, session_ttl: u128, policy: LoginPolicy) -> (r: Auth)
        requires
            is_made(password_hash@),
        ensures
            r@ == (AuthView {
                password_hash: password_hash@,
                session_ttl,
                sessions: Seq::empty(),
                policy,
                attempts: Seq::empty(),
            }),
    {
        let r = Auth {
            password_hash,
            session_ttl,
            sessions: Vec::new(),
            policy,
            attempts: Vec::new(),
        };
        assert(r@.sessions =~= Seq::empty());
        r
    }

    /// Hash the configured password with the given salt.
    pub fn with_salt(password: &str, salt: &[u8], session_ttl: u128, policy: LoginPolicy) -> (r:
        Result<Auth, ServerError>)
        ensures
            match salted(password@, salt@) {
                Ok(h) => r matches Ok(a) && {
                    &&& a@ == (AuthView {
                        password_hash: h,
                        session_ttl,
                        sessions: Seq::empty(),
                        policy,
                        attempts: Seq::empty(),
                    })
                    &&& "$argon2id$"@.is_prefix_of(h)
                    &&& hash_fault(h) is None
                    &&& accepts(vstd::utf8::encode_utf8(password@), h)
                },
                Err(e) => r matches Err(ServerError::Config(m)) && m@ == e,
            },
            salt@.len() == SALT_BYTES ==> salt_of(salt@) is Ok,
    {
        let salt = match encode_salt(salt) {
            Ok(s) => s,
            Err(e) => {
                return Err(ServerError::Config(joined("building password salt: ", &e)));
            },
        };
        match argon2_hash(password.as_bytes(), &salt) {
            Ok(h) => Ok(Auth::from_hash(h, session_ttl, policy)),
            Err(e) => Err(ServerError::Config(joined("hashing password: ", &e))),
        }
    }

    /// Hash the configured password, with an explicit lockout policy. Tests use
    /// tiny durations so they do not have to wait out a real lockout.
    pub fn with_policy(password: &str, session_ttl: u128, policy: LoginPolicy) -> (r: Result<
        Auth,
        ServerError,
    >)
        ensures
            r matches Ok(a) ==> {
                &&& a@.session_ttl == session_ttl
                &&& a@.policy == policy
                &&& a@.sessions.len() == 0
                &&& a@.attempts.len() == 0
                &&& "$argon2id$"@.is_prefix_of(a@.password_hash)
                &&& hash_fault(a@.password_hash) is None
                &&& accepts(vstd::utf8::encode_utf8(password@), a@.password_hash)
                &&& exists|salt: Seq<u8>|
                    salt.len() == SALT_BYTES && #[trigger] salted(password@, salt) == Ok::<
                        Seq<char>,
                        Seq<char>,
                    >(a@.password_hash)
            },
            r matches Err(e) ==> e matches ServerError::Config(m) && {
                ||| "no source of randomness: "@.is_prefix_of(m@)
                ||| exists|salt: Seq<u8>|
                    salt.len() == SALT_BYTES && #[trigger] salted(password@, salt) == Err::<
                        Seq<char>,
                        Seq<char>,
                    >(m@)
            },
    {
        match random_bytes(SALT_BYTES) {
            Ok(salt) => Auth::with_salt(password, salt.as_slice(), session_ttl, policy),
            Err(e) => Err(no_randomness(&e)),
        }
    }

    /// Hash the configured password. The plaintext is not retained.
    pub fn new(password: &str, session_ttl: u128) -> (r: Result<Auth, ServerError>)
        ensures
            r matches Ok(a) ==> {
                &&& a@.session_ttl == session_ttl
                &&& a@.policy == (LoginPolicy {
                    free_attempts: 5,
                    base_lockout: (2 * SECOND) as u128,
                    max_lockout: (15 * 60 * SECOND) as u128,
                    forget_after: (60 * 60 * SECOND) as u128,
                })
                &&& a@.sessions.len() == 0
                &&& a@.attempts.len() == 0
                &&& "$argon2id$"@.is_prefix_of(a@.password_hash)
                &&& hash_fault(a@.password_hash) is None
                &&& accepts(vstd::utf8::encode_utf8(password@), a@.password_hash)
                &&& exists|salt: Seq<u8>|
                    salt.len() == SALT_BYTES && #[trigger] salted(password@, salt) == Ok::<
                        Seq<char>,
                        Seq<char>,
                    >(a@.password_hash)
            },
            r matches Err(e) ==> e matches ServerError::Config(m) && {
                ||| "no source of randomness: "@.is_prefix_of(m@)
                ||| exists|salt: Seq<u8>|
                    salt.len() == SALT_BYTES && #[trigger] salted(password@, salt) == Err::<
                        Seq<char>,
                        Seq<char>,
                    >(m@)
            },
    {
        Auth::with_policy(password, session_ttl, LoginPolicy::default())
    }

    /// How long this client must wait, if it is currently locked out.
    pub fn locked_out(&self, client: ClientAddr, now: u128) -> (r: Option<u128>)
        ensures
            r == self@.wait(client, now),
    {
        let i: usize = find_record(&self.attempts, client);
        if i == self.attempts.len() {
            return None;
        }
        match self.attempts[i].locked_until {
            Some(until) => if now <= until {
                Some(until - now)
            } else {
                None
            },
            None => None,
        }
    }

    /// Count a failure and extend the lockout.
    fn record_failure(&mut self, client: ClientAddr, now: u128)
        requires
            old(self)@.in_range(now),
        ensures
            final(self)@ == (AuthView {
                attempts: after_failure(old(self)@.attempts, old(self)@.policy, client, now),
                ..old(self)@
            }),
    {
        let ghost start = self@;
        let mut kept: Vec<Attempts> = Vec::new();
        assert(start.attempts.take(0) =~= Seq::empty());
        for i in 0..self.attempts.len()
            invariant
                self@ == start,
                kept@ == remembered(
                    start.attempts.take(i as int),
                    now,
                    start.policy.forget_after,
                ),
        {
            assert(start.attempts.take(i + 1).drop_last() =~= start.attempts.take(i as int));
            let r = self.attempts[i];
            let idle: u128 = if r.last_seen <= now {
                now - r.last_seen
            } else {
                0
            };
            if idle < self.policy.forget_after {
                kept.push(r);
            }
        }
        assert(start.attempts.take(start.attempts.len() as int) =~= start.attempts);
        let i: usize = find_record(&kept, client);
        let known = i < kept.len();
        let r = if known {
            kept[i]
        } else {
            Attempts { client, failures: 0, locked_until: None, last_seen: now }
        };
        let failures: u32 = if r.failures < u32::MAX {
            r.failures + 1
        } else {
            r.failures
        };
        let locked_until = match lockout(&self.policy, failures) {
            Some(d) => Some(now + d),
            None => r.locked_until,
        };
        let updated = Attempts { client: r.client, failures, locked_until, last_seen: now };
        if known {
            kept.set(i, updated);
        } else {
            kept.push(updated);
        }
        proof {
            use_type_invariant(&*self);
        }
        self.attempts = kept;
        assert(self@.attempts =~= after_failure(start.attempts, start.policy, client, now));
    }

    /// Clear a client's history after a successful login.
    fn forget(&mut self, client: ClientAddr)
        ensures
            final(self)@ == (AuthView {
                attempts: without_client(old(self)@.attempts, client),
                ..old(self)@
            }),
    {
        let ghost start = self@;
        let mut kept: Vec<Attempts> = Vec::new();
        assert(start.attempts.take(0) =~= Seq::empty());
        for i in 0..self.attempts.len()
            invariant
                self@ == start,
                kept@ == without_client(start.attempts.take(i as int), client),
        {
            assert(start.attempts.take(i + 1).drop_last() =~= start.attempts.take(i as int));
            if self.attempts[i].client != client {
                kept.push(self.attempts[i]);
            }
        }
        assert(start.attempts.take(start.attempts.len() as int) =~= start.attempts);
        proof {
            use_type_invariant(&*self);
        }
        self.attempts = kept;
    }

    /// Check a password, before a session is opened. `client` is the address the
    /// attempt came from; failures are counted against it.
    pub fn check_password(&mut self, client: ClientAddr, password: &str, now: u128) -> (r: Result<
        (),
        ServerError,
    >)
        requires
            old(self)@.in_range(now),
        ensures
            match old(self)@.admission(client, password@, now) {
                Admission::LockedOut(d) => r == Err::<(), ServerError>(
                    ServerError::TooManyAttempts { retry_after: d },
                ),
                Admission::BadHash(e) => r matches Err(ServerError::Config(m)) && m@
                    == "stored password hash is invalid: "@ + e,
                Admission::Refused => r == Err::<(), ServerError>(ServerError::Unauthorized),
                Admission::Admitted => r is Ok,
            },
            final(self)@ == old(self)@.after_attempt(
                old(self)@.admission(client, password@, now),
                client,
                now,
            ),
    {
        if let Some(retry_after) = self.locked_out(client, now) {
            return Err(ServerError::TooManyAttempts { retry_after });
        }
        if let Some(e) = parse_hash(&self.password_hash) {
            return Err(ServerError::Config(joined("stored password hash is invalid: ", &e)));
        }
        proof {
            use_type_invariant(&*self);
        }
        if !argon2_verify(password.as_bytes(), &self.password_hash) {
            self.record_failure(client, now);
            return Err(ServerError::Unauthorized);
        }
        self.forget(client);
        Ok(())
    }

    /// Open a session whose token is made of the given random bytes.
    pub fn open_session(&mut self, bytes: &[u8], now: u128) -> (r: String)
        requires
            old(self)@.in_range(now),
        ensures
            r@ == hex_text(bytes@),
            final(self)@ == old(self)@.opened(hex_text(bytes@), now),
    {
        let ghost start = self@;
        let token = hex(bytes);
        self.sweep(now);
        self.logout(&token);
        let expires: u128 = now + self.session_ttl;
        let ghost before = self.sessions@;
        let mut sessions: Vec<Session> = Vec::new();
        proof {
            use_type_invariant(&*self);
        }
        std::mem::swap(&mut sessions, &mut self.sessions);
        sessions.push(Session { token: token.clone(), expires });
        self.sessions = sessions;
        assert(session_views(self.sessions@) =~= session_views(before).push(
            SessionView { token: token@, expires },
        ));
        token
    }

    /// Drop the sessions that have expired.
    fn sweep(&mut self, now: u128)
        ensures
            final(self)@ == (AuthView { sessions: live(old(self)@.sessions, now), ..old(self)@ }),
    {
        let ghost start = self@;
        let mut kept: Vec<Session> = Vec::new();
        assert(session_views(kept@) =~= live(start.sessions.take(0), now));
        for i in 0..self.sessions.len()
            invariant
                self@ == start,
                session_views(kept@) == live(start.sessions.take(i as int), now),
        {
            assert(start.sessions.take(i + 1).drop_last() =~= start.sessions.take(i as int));
            let s = &self.sessions[i];
            assert(start.sessions[i as int] == (SessionView {
                token: s.token@,
                expires: s.expires,
            }));
            if s.expires > now {
                let ghost before = kept@;
                let copy = Session { token: s.token.clone(), expires: s.expires };
                kept.push(copy);
                assert(session_views(kept@) =~= session_views(before).push(
                    start.sessions[i as int],
                ));
            }
        }
        assert(start.sessions.take(start.sessions.len() as int) =~= start.sessions);
        proof {
            use_type_invariant(&*self);
        }
        self.sessions = kept;
    }

    /// Exchange a password for a session token.
    pub fn login(&mut self, client: ClientAddr, password: &str, now: u128) -> (r: Result<
        String,
        ServerError,
    >)
        requires
            old(self)@.in_range(now),
        ensures
            ({
                let a = old(self)@.admission(client, password@, now);
                let checked = old(self)@.after_attempt(a, client, now);
                match a {
                    Admission::LockedOut(d) => r == Err::<String, ServerError>(
                        ServerError::TooManyAttempts { retry_after: d },
                    ) && final(self)@ == checked,
                    Admission::BadHash(e) => r matches Err(ServerError::Config(m)) && m@
                        == "stored password hash is invalid: "@ + e && final(self)@ == checked,
                    Admission::Refused => r == Err::<String, ServerError>(
                        ServerError::Unauthorized,
                    ) && final(self)@ == checked,
                    Admission::Admitted => match r {
                        Ok(token) => final(self)@ == checked.opened(token@, now) && exists|
                            bytes: Seq<u8>,
                        | bytes.len() == TOKEN_BYTES && token@ == #[trigger] hex_text(bytes),
                        Err(e) => e matches ServerError::Config(m)
                            && "no source of randomness: "@.is_prefix_of(m@) && final(self)@
                            == checked,
                    },
                }
            }),
    {
        match self.check_password(client, password, now) {
            Ok(()) => {},
            Err(e) => {
                return Err(e);
            },
        }
        match random_bytes(TOKEN_BYTES) {
            Ok(bytes) => {
                let token = self.open_session(bytes.as_slice(), now);
                assert(token@ == hex_text(bytes@));
                Ok(token)
            },
            Err(e) => Err(no_randomness(&e)),
        }
    }

    /// True if the token names a live session.
    pub fn verify(&self, token: &str, now: u128) -> (r: bool)
        ensures
            r == is_live(self@.sessions, token@, now),
    {
        for i in 0..self.sessions.len()
            invariant
                forall|k: int|
                    0 <= k < i ==> !((#[trigger] self@.sessions[k]).token == token@
                        && self@.sessions[k].expires > now),
        {
            let s = &self.sessions[i];
            assert(self@.sessions[i as int] == (SessionView {
                token: s.token@,
                expires: s.expires,
            }));
            if s.expires > now && same_text(&s.token, token) {
                return true;
            }
        }
        false
    }

    /// Invalidate one session.
    pub fn logout(&mut self, token: &str)
        ensures
            final(self)@ == (AuthView {
                sessions: without_token(old(self)@.sessions, token@),
                ..old(self)@
            }),
    {
        let ghost start = self@;
        let mut kept: Vec<Session> = Vec::new();
        assert(session_views(kept@) =~= without_token(start.sessions.take(0), token@));
        for i in 0..self.sessions.len()
            invariant
                self@ == start,
                session_views(kept@) == without_token(start.sessions.take(i as int), token@),
        {
            assert(start.sessions.take(i + 1).drop_last() =~= start.sessions.take(i as int));
            let s = &self.sessions[i];
            assert(start.sessions[i as int] == (SessionView {
                token: s.token@,
                expires: s.expires,
            }));
            if !same_text(&s.token, token) {
                let ghost before = kept@;
                let copy = Session { token: s.token.clone(), expires: s.expires };
                kept.push(copy);
                assert(session_views(kept@) =~= session_views(before).push(
                    start.sessions[i as int],
                ));
            }
        }
        assert(start.sessions.take(start.sessions.len() as int) =~= start.sessions);
        proof {
            use_type_invariant(&*self);
        }
        self.sessions = kept;
    }

    /// How many sessions are held.
    pub fn session_count(&self) -> (r: usize)
        ensures
            r == self@.sessions.len(),
    {
        self.sessions.len()
    }

    /// The hash that passwords are checked against.
    pub fn password_hash(&self) -> (r: &String)
        ensures
            r@ == self@.password_hash,
    {
        &self.password_hash
    }
}

fn joined(a: &str, b: &str) -> (r: String)
    ensures
        r@ == a@ + b@,
{
    let mut out = chars_of(a);
    append_text(&mut out, b);
    text_of(&out)
}

/// A hexadecimal text has two digits for each byte.
pub proof fn hex_doubles_the_length(bytes: Seq<u8>)
    ensures
        hex_text(bytes).len() == 2 * bytes.len(),
    decreases bytes.len(),
{
    if bytes.len() > 0 {
        hex_doubles_the_length(bytes.drop_last());
    }
}

/// Different bytes give different texts, so tokens made of different random bytes
/// differ.
pub proof fn hex_tells_bytes_apart(a: Seq<u8>, b: Seq<u8>)
    requires
        hex_text(a) == hex_text(b),
    ensures
        a == b,
    decreases a.len(),
{
    hex_doubles_the_length(a);
    hex_doubles_the_length(b);
    if a.len() == 0 {
        assert(a =~= b);
    } else {
        let (ta, tb) = (hex_text(a), hex_text(b));
        let n = ta.len() as int;
        assert(ta[n - 1] == hex_digit(a.last() as int % 16));
        assert(tb[n - 1] == hex_digit(b.last() as int % 16));
        assert(ta[n - 2] == hex_digit(a.last() as int / 16));
        assert(tb[n - 2] == hex_digit(b.last() as int / 16));
        assert(a.last() == b.last());
        assert(ta.take(n - 2) =~= hex_text(a.drop_last()));
        assert(tb.take(n - 2) =~= hex_text(b.drop_last()));
        hex_tells_bytes_apart(a.drop_last(), b.drop_last());
        assert(a =~= a.drop_last().push(a.last()));
        assert(b =~= b.drop_last().push(b.last()));
    }
}

/// While a client is locked out, every password is refused alike and nothing
/// changes: the lockout cannot be probed, and costs no hashing.
pub proof fn a_locked_client_learns_nothing(
    auth: AuthView,
    client: ClientAddr,
    password: Seq<char>,
    other: Seq<char>,
    now: u128,
)
    requires
        auth.wait(client, now) is Some,
    ensures
        auth.admission(client, password, now) == auth.admission(client, other, now),
        auth.admission(client, password, now) is LockedOut,
        auth.after_attempt(auth.admission(client, password, now), client, now) == auth,
{
}

/// A password that the stored hash accepts is let in by every client that is not
/// locked out, and one it does not accept is not.
pub proof fn the_hash_decides(auth: AuthView, client: ClientAddr, password: Seq<char>, now: u128)
    ensures
        hash_fault(auth.password_hash) is None && auth.wait(client, now) is None ==> (
        auth.admission(client, password, now) is Admitted <==> accepts(
            vstd::utf8::encode_utf8(password),
            auth.password_hash,
        )),
{
}

proof fn lemma_record_at(s: Seq<Attempts>, client: ClientAddr, i: int)
    requires
        0 <= i <= s.len(),
    ensures
        i <= record_at(s, client, i) <= s.len(),
        record_at(s, client, i) < s.len() ==> s[record_at(s, client, i)].client == client,
        forall|k: int| i <= k < record_at(s, client, i) ==> (#[trigger] s[k]).client != client,
    decreases s.len() - i,
{
    if i < s.len() && s[i].client != client {
        lemma_record_at(s, client, i + 1);
    }
}

proof fn lemma_record_push(s: Seq<Attempts>, r: Attempts, client: ClientAddr, i: int)
    requires
        0 <= i <= s.len(),
    ensures
        record_at(s.push(r), client, i) == if record_at(s, client, i) < s.len() {
            record_at(s, client, i)
        } else if r.client == client {
            s.len() as int
        } else {
            s.len() as int + 1
        },
    decreases s.len() - i,
{
    if i < s.len() {
        assert(s.push(r)[i] == s[i]);
        if s[i].client != client {
            lemma_record_push(s, r, client, i + 1);
        }
    } else {
        assert(s.push(r)[i] == r);
        assert(record_at(s.push(r), client, i + 1) == i + 1);
    }
}

proof fn lemma_record_update(s: Seq<Attempts>, j: int, r: Attempts, client: ClientAddr, i: int)
    requires
        0 <= i <= s.len(),
        0 <= j < s.len(),
        r.client == s[j].client,
    ensures
        record_at(s.update(j, r), client, i) == record_at(s, client, i),
    decreases s.len() - i,
{
    if i < s.len() && s[i].client != client {
        lemma_record_update(s, j, r, client, i + 1);
    }
}

/// A record, or nothing when the client was dropped for having behaved.
pub open spec fn same_or_gone(before: Option<Attempts>, after: Option<Attempts>) -> bool {
    after == before || after is None
}

/// Every client has one record at most.
pub open spec fn one_record_each(s: Seq<Attempts>) -> bool {
    forall|i: int, j: int|
        0 <= i < j < s.len() ==> (#[trigger] s[i]).client != (#[trigger] s[j]).client
}

proof fn lemma_remembered(s: Seq<Attempts>, now: u128, span: u128, client: ClientAddr)
    requires
        one_record_each(s),
    ensures
        same_or_gone(record_of(s, client), record_of(remembered(s, now, span), client)),
        one_record_each(remembered(s, now, span)),
        forall|k: int|
            0 <= k < remembered(s, now, span).len() ==> s.contains(
                #[trigger] remembered(s, now, span)[k],
            ),
    decreases s.len(),
{
    if s.len() > 0 {
        let front = s.drop_last();
        let last = s.last();
        lemma_remembered(front, now, span, client);
        assert(front.push(last) =~= s);
        lemma_record_push(front, last, client, 0);
        let kept = remembered(front, now, span);
        lemma_record_push(kept, last, client, 0);
        lemma_record_at(front, client, 0);
        lemma_record_at(kept, client, 0);
        assert forall|k: int| 0 <= k < kept.len() implies s.contains(#[trigger] kept[k])
            && kept[k].client != last.client by {
            let j = choose|j: int| 0 <= j < front.len() && front[j] == kept[k];
            assert(s[j] == kept[k]);
            assert(s[s.len() - 1] == last);
        }
        let out = remembered(s, now, span);
        assert forall|k: int| 0 <= k < out.len() implies s.contains(#[trigger] out[k]) by {
            if k < kept.len() {
                assert(out[k] == kept[k]);
            } else {
                assert(s[s.len() - 1] == out[k]);
            }
        }
        let i = record_at(front, client, 0);
        if i < front.len() {
            assert(front[i] == s[i]);
        }
    }
}

/// Failures are counted per client: one client's failure leaves another's record
/// as it is, or drops it for having behaved, so a hostile address does not deny
/// the service to the household.
pub proof fn one_client_cannot_lock_out_another(
    auth: AuthView,
    attacker: ClientAddr,
    other: ClientAddr,
    now: u128,
    later: u128,
)
    requires
        attacker != other,
        one_record_each(auth.attempts),
    ensures
        ({
            let after = auth.after_attempt(Admission::Refused, attacker, now);
            &&& same_or_gone(
                record_of(auth.attempts, other),
                record_of(after.attempts, other),
            )
            &&& auth.wait(other, later) is None ==> after.wait(other, later) is None
            &&& one_record_each(after.attempts)
        }),
{
    let span = auth.policy.forget_after;
    let kept = remembered(auth.attempts, now, span);
    lemma_remembered(auth.attempts, now, span, other);
    let i = record_at(kept, attacker, 0);
    lemma_record_at(kept, attacker, 0);
    lemma_record_at(kept, other, 0);
    if i < kept.len() {
        let r = failed_again(kept[i], auth.policy, now);
        lemma_record_update(kept, i, r, other, 0);
    } else {
        let fresh = Attempts { client: attacker, failures: 0, locked_until: None, last_seen: now };
        let r = failed_again(fresh, auth.policy, now);
        lemma_record_push(kept, r, other, 0);
    }
}

proof fn lemma_doublings_grow(m: nat, n: nat)
    requires
        m <= n,
    ensures
        1 <= doublings(m) <= doublings(n),
    decreases n,
{
    if m < n {
        lemma_doublings_grow(m, (n - 1) as nat);
    } else if n > 0 {
        lemma_doublings_grow((m - 1) as nat, (n - 1) as nat);
    }
}

/// Ordinary typos cost nothing; after the free attempts the first lockout is the
/// base, each further failure doubles it until the cap, and it never shrinks or
/// exceeds the cap.
pub proof fn lockouts_double_up_to_a_cap(p: LoginPolicy, failures: u32)
    requires
        failures < u32::MAX,
    ensures
        failures <= p.free_attempts ==> lockout_after(p, failures) is None,
        failures == p.free_attempts + 1 && p.base_lockout <= p.max_lockout ==> lockout_after(
            p,
            failures,
        ) == Some(p.base_lockout as int),
        lockout_after(p, failures) matches Some(d) ==> {
            &&& 0 <= d <= p.max_lockout
            &&& lockout_after(p, (failures + 1) as u32) matches Some(e) && d <= e
            &&& failures - p.free_attempts <= MAX_DOUBLINGS ==> lockout_after(
                p,
                (failures + 1) as u32,
            ) == Some(if 2 * d < p.max_lockout {
                2 * d
            } else {
                p.max_lockout as int
            })
        },
{
    if failures > p.free_attempts {
        let excess = failures - p.free_attempts - 1;
        let n = if excess < MAX_DOUBLINGS {
            excess as nat
        } else {
            MAX_DOUBLINGS as nat
        };
        let m = if excess + 1 < MAX_DOUBLINGS {
            (excess + 1) as nat
        } else {
            MAX_DOUBLINGS as nat
        };
        lemma_doublings_grow(n, m);
        let b = p.base_lockout as int;
        let (x, y) = (doublings(n) as int, doublings(m) as int);
        assert(0 <= b * x <= b * y) by (nonlinear_arith)
            requires
                0 <= b,
                1 <= x <= y,
        ;
        if excess < MAX_DOUBLINGS {
            assert(y == 2 * x);
            assert(b * (2 * x) == 2 * (b * x)) by (nonlinear_arith);
        }
        if excess == 0 {
            assert(b * x == b) by (nonlinear_arith)
                requires
                    x == 1,
            ;
        }
    }
}

/// Signing in clears the slate: the client's failures are forgotten and nobody
/// else's are.
pub proof fn signing_in_clears_the_slate(s: Seq<Attempts>, client: ClientAddr, other: ClientAddr)
    ensures
        record_of(without_client(s, client), client) is None,
        other != client ==> record_of(without_client(s, client), other) == record_of(s, other),
    decreases s.len(),
{
    if s.len() > 0 {
        let front = s.drop_last();
        let last = s.last();
        signing_in_clears_the_slate(front, client, other);
        assert(front.push(last) =~= s);
        let kept = without_client(front, client);
        lemma_record_push(front, last, other, 0);
        lemma_record_push(kept, last, other, 0);
        lemma_record_push(kept, last, client, 0);
        lemma_record_at(kept, client, 0);
        lemma_record_at(kept, other, 0);
        lemma_record_at(front, other, 0);
    }
}

proof fn lemma_live(s: Seq<SessionView>, now: u128, token: Seq<char>, t: u128)
    requires
        now <= t,
    ensures
        is_live(live(s, now), token, t) == is_live(s, token, t),
        forall|k: int| 0 <= k < live(s, now).len() ==> (#[trigger] live(s, now)[k]).expires > now,
    decreases s.len(),
{
    if s.len() > 0 {
        let front = s.drop_last();
        lemma_live(front, now, token, t);
        let kept = live(front, now);
        let out = live(s, now);
        if is_live(s, token, t) {
            let i = choose|i: int|
                0 <= i < s.len() && (#[trigger] s[i]).token == token && s[i].expires > t;
            if i < front.len() {
                assert(front[i] == s[i]);
                assert(is_live(front, token, t));
                let k = choose|k: int|
                    0 <= k < kept.len() && (#[trigger] kept[k]).token == token && kept[k].expires
                        > t;
                assert(out[k] == kept[k]);
            } else {
                assert(out[kept.len() as int] == s[i]);
            }
        }
        if is_live(out, token, t) {
            let k = choose|k: int|
                0 <= k < out.len() && (#[trigger] out[k]).token == token && out[k].expires > t;
            if k < kept.len() {
                assert(kept[k] == out[k]);
                assert(is_live(kept, token, t));
                let i = choose|i: int|
                    0 <= i < front.len() && (#[trigger] front[i]).token == token
                        && front[i].expires > t;
                assert(s[i] == front[i]);
            } else {
                assert(s[s.len() - 1] == out[k]);
            }
        }
    }
}

proof fn lemma_without_token(s: Seq<SessionView>, gone: Seq<char>, token: Seq<char>, t: u128)
    ensures
        is_live(without_token(s, gone), token, t) == (token != gone && is_live(s, token, t)),
    decreases s.len(),
{
    if s.len() > 0 {
        let front = s.drop_last();
        lemma_without_token(front, gone, token, t);
        let kept = without_token(front, gone);
        let out = without_token(s, gone);
        if token != gone && is_live(s, token, t) {
            let i = choose|i: int|
                0 <= i < s.len() && (#[trigger] s[i]).token == token && s[i].expires > t;
            if i < front.len() {
                assert(front[i] == s[i]);
                assert(is_live(front, token, t));
                let k = choose|k: int|
                    0 <= k < kept.len() && (#[trigger] kept[k]).token == token && kept[k].expires
                        > t;
                assert(out[k] == kept[k]);
            } else {
                assert(out[kept.len() as int] == s[i]);
            }
        }
        if is_live(out, token, t) {
            let k = choose|k: int|
                0 <= k < out.len() && (#[trigger] out[k]).token == token && out[k].expires > t;
            if k < kept.len() {
                assert(kept[k] == out[k]);
                assert(is_live(kept, token, t));
                let i = choose|i: int|
                    0 <= i < front.len() && (#[trigger] front[i]).token == token
                        && front[i].expires > t;
                assert(s[i] == front[i]);
            } else {
                assert(s[s.len() - 1] == out[k]);
            }
        }
    }
}

/// A token works from the moment its session is opened until it expires, and not
/// after; the other sessions go on as they were.
pub proof fn a_token_works_until_it_expires(
    auth: AuthView,
    token: Seq<char>,
    other: Seq<char>,
    now: u128,
    t: u128,
)
    requires
        auth.in_range(now),
        now <= t,
    ensures
        is_live(auth.opened(token, now).sessions, token, t) <==> t < now + auth.session_ttl,
        other != token ==> is_live(auth.opened(token, now).sessions, other, t) == is_live(
            auth.sessions,
            other,
            t,
        ),
{
    let swept = live(auth.sessions, now);
    let kept = without_token(swept, token);
    let out = auth.opened(token, now).sessions;
    lemma_live(auth.sessions, now, other, t);
    lemma_without_token(swept, token, token, t);
    lemma_without_token(swept, token, other, t);
    assert(out[kept.len() as int].token == token);
    assert forall|x: Seq<char>| is_live(out, x, t) == (#[trigger] is_live(kept, x, t) || (x == token
        && t < now + auth.session_ttl)) by {
        if is_live(kept, x, t) {
            let k = choose|k: int|
                0 <= k < kept.len() && (#[trigger] kept[k]).token == x && kept[k].expires > t;
            assert(out[k] == kept[k]);
        }
        if is_live(out, x, t) {
            let k = choose|k: int|
                0 <= k < out.len() && (#[trigger] out[k]).token == x && out[k].expires > t;
            if k < kept.len() {
                assert(kept[k] == out[k]);
            }
        }
    }
    assert(is_live(out, token, t) == (is_live(kept, token, t) || t < now + auth.session_ttl));
    assert(is_live(out, other, t) == (is_live(kept, other, t) || (other == token && t < now
        + auth.session_ttl)));
}

/// Logging out invalidates the token at once, for good, and no other.
pub proof fn logging_out_ends_the_session(
    sessions: Seq<SessionView>,
    token: Seq<char>,
    other: Seq<char>,
    t: u128,
)
    ensures
        !is_live(without_token(sessions, token), token, t),
        other != token ==> is_live(without_token(sessions, token), other, t) == is_live(
            sessions,
            other,
            t,
        ),
{
    lemma_without_token(sessions, token, token, t);
    lemma_without_token(sessions, token, other, t);
}

proof fn lemma_fresh(s: Seq<Attempts>, now: u128, span: u128, client: ClientAddr)
    requires
        one_record_each(s),
    ensures
        record_of(remembered(s, now, span), client) == match record_of(s, client) {
            Some(r) if since(r.last_seen, now) < span => Some(r),
            _ => None,
        },
    decreases s.len(),
{
    if s.len() > 0 {
        let front = s.drop_last();
        let last = s.last();
        assert(front.push(last) =~= s);
        assert(one_record_each(front)) by {
            assert forall|i: int, j: int| 0 <= i < j < front.len() implies (#[trigger] front[i]).client
                != (#[trigger] front[j]).client by {
                assert(front[i] == s[i] && front[j] == s[j]);
            }
        }
        lemma_fresh(front, now, span, client);
        lemma_record_push(front, last, client, 0);
        lemma_record_at(front, client, 0);
        lemma_record_at(s, client, 0);
        let kept = remembered(front, now, span);
        lemma_record_push(kept, last, client, 0);
        lemma_record_at(kept, client, 0);
        let i = record_at(front, client, 0);
        if i < front.len() {
            assert(s[i] == front[i]);
            assert(last.client != client) by {
                assert(s[i].client != s[s.len() - 1].client);
            }
        }
        if since(last.last_seen, now) < span {
            assert(remembered(s, now, span) == kept.push(last));
            let k = record_at(kept, client, 0);
            if k < kept.len() {
                assert(kept.push(last)[k] == kept[k]);
            } else {
                assert(kept.push(last)[kept.len() as int] == last);
            }
        }
    }
}

/// Every refusal counts one failure against the client, unless it behaved for long
/// enough that its history was forgotten: then the count starts at one. Beyond the
/// free attempts the client is locked out from then on for as long as the policy
/// says.
pub proof fn every_refusal_counts(auth: AuthView, client: ClientAddr, now: u128)
    requires
        auth.in_range(now),
        one_record_each(auth.attempts),
    ensures
        ({
            let before = record_of(auth.attempts, client);
            let after = auth.after_attempt(Admission::Refused, client, now);
            let r = record_of(after.attempts, client).unwrap();
            &&& record_of(after.attempts, client) is Some
            &&& r.last_seen == now
            &&& before is None ==> r.failures == 1
            &&& before is Some && now - before.unwrap().last_seen >= auth.policy.forget_after
                && now >= before.unwrap().last_seen ==> r.failures == 1
            &&& before is Some && now - before.unwrap().last_seen < auth.policy.forget_after && 0
                < auth.policy.forget_after && before.unwrap().failures < u32::MAX ==> r.failures
                == before.unwrap().failures + 1
            &&& lockout_after(auth.policy, r.failures) matches Some(d) ==> after.wait(client, now)
                == Some(d as u128)
            &&& before is None && auth.policy.free_attempts >= 1 ==> after.wait(client, now) is None
            &&& after.password_hash == auth.password_hash
            &&& after.sessions == auth.sessions
        }),
{
    let kept = remembered(auth.attempts, now, auth.policy.forget_after);
    let i = record_at(kept, client, 0);
    lemma_fresh(auth.attempts, now, auth.policy.forget_after, client);
    lemma_record_at(kept, client, 0);
    let fresh = Attempts { client, failures: 0, locked_until: None, last_seen: now };
    let after = auth.after_attempt(Admission::Refused, client, now);
    if i < kept.len() {
        let r = failed_again(kept[i], auth.policy, now);
        lemma_record_update(kept, i, r, client, 0);
        assert(after.attempts[i] == r);
        if r.failures < u32::MAX {
            lockouts_double_up_to_a_cap(auth.policy, r.failures);
        }
        lemma_lockout_capped(auth.policy, r.failures);
    } else {
        let r = failed_again(fresh, auth.policy, now);
        lemma_record_push(kept, r, client, 0);
        assert(after.attempts[kept.len() as int] == r);
        lemma_lockout_capped(auth.policy, r.failures);
    }
}

proof fn lemma_lockout_capped(p: LoginPolicy, failures: u32)
    ensures
        lockout_after(p, failures) matches Some(d) ==> 0 <= d <= p.max_lockout,
{
    if failures > p.free_attempts {
        let excess = failures - p.free_attempts - 1;
        let n = if excess < MAX_DOUBLINGS {
            excess as nat
        } else {
            MAX_DOUBLINGS as nat
        };
        lemma_doublings(n);
        assert(p.base_lockout * doublings(n) >= 0) by (nonlinear_arith)
            requires
                p.base_lockout >= 0,
                doublings(n) >= 0,
        ;
    }
}

/// A lockout runs down as time passes and ends once its time is over.
pub proof fn lockouts_run_down(auth: AuthView, client: ClientAddr, now: u128, later: u128)
    requires
        now <= later,
        auth.wait(client, now) is Some,
    ensures
        ({
            let left = auth.wait(client, now).unwrap();
            &&& later - now <= left ==> auth.wait(client, later) == Some((left - (later - now)) as u128)
            &&& later - now > left ==> auth.wait(client, later) is None
        }),
{
}

/// Five typos cost nothing. The sixth failure locks a client out for two seconds,
/// each further one for twice as long, up to a quarter of an hour.
pub proof fn typos_cost_nothing(p: LoginPolicy, failures: u32)
    requires
        p.free_attempts == 5,
        p.base_lockout == 2_000_000_000,
        p.max_lockout == 900_000_000_000,
    ensures
        failures <= 5 ==> lockout_after(p, failures) is None,
        6 <= failures <= 14 ==> lockout_after(p, failures) == Some(
            2_000_000_000 * vstd::arithmetic::power2::pow2((failures - 6) as nat) as int,
        ),
        failures >= 15 ==> lockout_after(p, failures) == Some(900_000_000_000int),
{
    if failures >= 6 {
        let excess = (failures - 6) as nat;
        let n = if excess < 20 {
            excess
        } else {
            20
        };
        lemma_pow2(n);
        vstd::arithmetic::power2::lemma2_to64();
        if excess >= 9 {
            lemma_doublings_grow(9, n);
            lemma_pow2(9);
        } else {
            lemma_doublings_grow(n, 8);
            lemma_pow2(8);
        }
    }
}

proof fn lemma_pow2(n: nat)
    ensures
        doublings(n) == vstd::arithmetic::power2::pow2(n),
    decreases n,
{
    if n == 0 {
        vstd::arithmetic::power2::lemma2_to64();
    } else {
        lemma_pow2((n - 1) as nat);
        vstd::arithmetic::power2::lemma_pow2_unfold(n);
    }
}

/// Signing in opens one session more at most, and no session that has run out is
/// kept.
pub proof fn expired_sessions_are_dropped(auth: AuthView, token: Seq<char>, now: u128, k: int)
    requires
        auth.in_range(now),
        auth.session_ttl > 0,
        0 <= k < auth.opened(token, now).sessions.len(),
    ensures
        auth.opened(token, now).sessions[k].expires > now,
        auth.opened(token, now).sessions.len() <= auth.sessions.len() + 1,
        auth.opened(token, now).attempts == auth.attempts,
        auth.opened(token, now).password_hash == auth.password_hash,
{
    let kept = live(auth.sessions, now);
    lemma_live(auth.sessions, now, token, now);
    lemma_live_len(auth.sessions, now);
    lemma_without_token_keeps(kept, token);
    let out = without_token(kept, token);
    if k < out.len() {
        assert(auth.opened(token, now).sessions[k] == out[k]);
        assert(kept.contains(out[k]));
        let j = choose|j: int| 0 <= j < kept.len() && kept[j] == out[k];
        assert(kept[j].expires > now);
    }
}

proof fn lemma_live_len(s: Seq<SessionView>, now: u128)
    ensures
        live(s, now).len() <= s.len(),
    decreases s.len(),
{
    if s.len() > 0 {
        lemma_live_len(s.drop_last(), now);
    }
}

proof fn lemma_without_token_keeps(s: Seq<SessionView>, token: Seq<char>)
    ensures
        without_token(s, token).len() <= s.len(),
        forall|k: int|
            0 <= k < without_token(s, token).len() ==> s.contains(
                #[trigger] without_token(s, token)[k],
            ),
    decreases s.len(),
{
    if s.len() > 0 {
        let front = s.drop_last();
        lemma_without_token_keeps(front, token);
        assert forall|k: int| 0 <= k < without_token(s, token).len() implies s.contains(
            #[trigger] without_token(s, token)[k],
        ) by {
            let kept = without_token(front, token);
            if k < kept.len() {
                assert(without_token(s, token)[k] == kept[k]);
                assert(front.contains(kept[k]));
                let j = choose|j: int| 0 <= j < front.len() && front[j] == kept[k];
                assert(s[j] == kept[k]);
            } else {
                assert(s[s.len() - 1] == s.last());
            }
        }
    }
}

/// A token is written in the digits `0` to `9` and the letters `a` to `f`, two for
/// each byte, the high half first.
pub proof fn tokens_are_hexadecimal(bytes: Seq<u8>, i: int)
    requires
        0 <= i < bytes.len(),
    ensures
        ({
            let high = "0123456789abcdef"@[bytes[i] as int / 16];
            let low = "0123456789abcdef"@[bytes[i] as int % 16];
            hex_text(bytes)[2 * i] == high && hex_text(bytes)[2 * i + 1] == low
        }),
    decreases bytes.len(),
{
    reveal_strlit("0123456789abcdef");
    hex_doubles_the_length(bytes);
    let front = bytes.drop_last();
    hex_doubles_the_length(front);
    if i < front.len() {
        tokens_are_hexadecimal(front, i);
        assert(front[i] == bytes[i]);
    } else {
        let b = bytes.last();
        assert(0 <= b as int / 16 < 16);
        assert(0 <= b as int % 16 < 16);
        assert(hex_text(bytes)[2 * i] == hex_digit(b as int / 16));
        assert(hex_text(bytes)[2 * i + 1] == hex_digit(b as int % 16));
        lemma_hex_digit(b as int / 16);
        lemma_hex_digit(b as int % 16);
    }
}

proof fn lemma_hex_digit(d: int)
    requires
        0 <= d < 16,
    ensures
        hex_digit(d) == "0123456789abcdef"@[d],
{
    reveal_strlit("0123456789abcdef");
}

/// A lockout doubles with each failure for twenty failures past the free ones, then
/// stays as it is, and never exceeds the longest one.
pub proof fn lockouts_double_twenty_times(p: LoginPolicy, failures: u32)
    requires
        p.free_attempts < failures < u32::MAX,
    ensures
        ({
            let d = lockout_after(p, failures).unwrap();
            let next = lockout_after(p, (failures + 1) as u32).unwrap();
            &&& lockout_after(p, failures) is Some
            &&& lockout_after(p, (failures + 1) as u32) is Some
            &&& failures - p.free_attempts <= 20 ==> next == if 2 * d < p.max_lockout {
                2 * d
            } else {
                p.max_lockout as int
            }
            &&& failures - p.free_attempts > 20 ==> next == d
        }),
{
    lockouts_double_up_to_a_cap(p, failures);
}

} // verus!
