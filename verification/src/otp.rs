//! Host-minted 6-digit PIN, hashed storage, short-lived viewer sessions.
//!
//! Instants are nanoseconds on a clock that never goes back.

use crate::entropy::random_bytes;
use crate::table::Table;
use crate::text::{digit_char, digits_value, is_digit, trim, trimmed};
use crate::wol::{byte_text, small_hex};
use sha2::Digest;
use subtle::ConstantTimeEq;
use vstd::prelude::*;
use vstd::utf8::encode_utf8;

verus! {

/// Five minutes.
pub const PIN_TTL: u64 = 300_000_000_000;

/// Five minutes in milliseconds.
pub const PIN_TTL_MS: u64 = 300_000;

/// A day.
pub const SESSION_TTL: u64 = 86_400_000_000_000;

pub const FAIL_LIMIT: u32 = 5;

/// Half a minute.
pub const LOCKOUT: u64 = 30_000_000_000;

/// One reading of the clocks: the monotonic one in nanoseconds and the wall
/// clock in milliseconds.
#[derive(Clone, Copy, Debug)]
pub struct Reading {
    pub now: u64,
    pub unix_ms: u64,
}

impl Reading {
    /// Far enough from the end of both clocks for every term below.
    pub open spec fn in_range(self) -> bool {
        self.now + SESSION_TTL <= u64::MAX && self.unix_ms + PIN_TTL_MS <= u64::MAX
    }
}

/// A clock that is set by hand.
#[derive(Clone, Copy, Debug)]
pub struct FakeClock {
    at: Reading,
}

impl FakeClock {
    pub closed spec fn shows(self) -> Reading {
        self.at
    }

    pub fn new() -> (c: Self)
        ensures
            c.shows().now == 0,
            c.shows().unix_ms == 1_700_000_000_000,
    {
        FakeClock { at: Reading { now: 0, unix_ms: 1_700_000_000_000 } }
    }

    pub fn read(&self) -> (r: Reading)
        ensures
            r == self.shows(),
    {
        self.at
    }

    pub fn advance(&mut self, d: u64)
        requires
            old(self).shows().now + d <= u64::MAX,
            old(self).shows().unix_ms + d / 1_000_000 <= u64::MAX,
        ensures
            final(self).shows().now == old(self).shows().now + d,
            final(self).shows().unix_ms == old(self).shows().unix_ms + d / 1_000_000,
    {
        self.at = Reading { now: self.at.now + d, unix_ms: self.at.unix_ms + d / 1_000_000 };
    }
}

#[derive(Debug)]
pub struct PinState {
    pub pin: String,
    pub hash: String,
    pub exp: u64,
    pub exp_unix_ms: u64,
}

#[derive(Debug)]
pub struct Session {
    pub token: String,
    pub hash: String,
    pub exp: u64,
}

#[derive(Debug, Clone, Copy, PartialEq, Eq, Structural)]
pub enum RedeemError {
    Unauthorized,
    RateLimited,
}

#[verifier::ext_equal]
pub ghost struct PinFacts {
    pub pin: Seq<char>,
    pub hash: Seq<char>,
    pub exp: int,
    pub exp_unix_ms: int,
}

impl View for PinState {
    type V = PinFacts;

    open spec fn view(&self) -> PinFacts {
        PinFacts {
            pin: self.pin@,
            hash: self.hash@,
            exp: self.exp as int,
            exp_unix_ms: self.exp_unix_ms as int,
        }
    }
}

impl PinState {
    fn copy(&self) -> (r: Self)
        ensures
            r@ == self@,
    {
        PinState {
            pin: self.pin.clone(),
            hash: self.hash.clone(),
            exp: self.exp,
            exp_unix_ms: self.exp_unix_ms,
        }
    }
}

/// The SHA-256 digest of the bytes.
pub uninterp spec fn sha256_of(data: Seq<u8>) -> Seq<u8>;

/// `sha2::Sha256::digest`: the thirty-two bytes of the SHA-256 digest of
/// `data`. What the digest of given bytes is, is left to the name.
#[verifier::external_body]
pub(crate) fn sha256_digest(data: &[u8]) -> (d: Vec<u8>)
    ensures
        d@ == sha256_of(data@),
        d@.len() == 32,
{
    sha2::Sha256::digest(data).to_vec()
}

/// `subtle::ConstantTimeEq::ct_eq` on byte slices: whether they hold the same
/// bytes.
#[verifier::external_body]
fn ct_same(a: &[u8], b: &[u8]) -> (r: bool)
    ensures
        r == (a@ == b@),
{
    a.ct_eq(b).into()
}

/// Two small hexadecimal digits for every byte.
pub open spec fn hex_text(bytes: Seq<u8>) -> Seq<char> {
    Seq::new(
        2 * bytes.len(),
        |i: int| byte_text(bytes[i / 2])[i % 2],
    )
}

/// The digest of a text's UTF-8 bytes in hexadecimal.
pub open spec fn digest_text(s: Seq<char>) -> Seq<char> {
    hex_text(sha256_of(encode_utf8(s)))
}

/// Two texts have the same SHA-256 digest.
pub open spec fn digests_agree(a: Seq<char>, b: Seq<char>) -> bool {
    sha256_of(encode_utf8(a)) == sha256_of(encode_utf8(b))
}

pub fn hex_encode(bytes: &[u8]) -> (out: String)
    ensures
        out@ == hex_text(bytes@),
{
    let mut out = String::new();
    let mut i: usize = 0;
    while i < bytes.len()
        invariant
            i <= bytes@.len(),
            out@ == hex_text(bytes@).take(2 * i),
        decreases bytes@.len() - i,
    {
        let b: u8 = bytes[i];
        out.push(crate::wol::small_digit(b / 16));
        out.push(crate::wol::small_digit(b % 16));
        proof {
            let h = hex_text(bytes@);
            assert(h[2 * i] == small_hex(b as int / 16));
            assert(h[2 * i + 1] == small_hex(b as int % 16));
            assert(h.take(2 * i + 2) =~= h.take(2 * i).push(h[2 * i]).push(h[2 * i + 1]));
        }
        i += 1;
    }
    assert(hex_text(bytes@).take(2 * bytes@.len() as int) =~= hex_text(bytes@));
    out
}

/// Sixty-four small hexadecimal digits.
pub open spec fn is_digest_text(h: Seq<char>) -> bool {
    &&& h.len() == 64
    &&& forall|i: int|
        0 <= i < h.len() ==> ('0' <= #[trigger] h[i] <= '9') || ('a' <= h[i] <= 'f')
}

pub fn sha256_hex(s: &str) -> (h: String)
    ensures
        h@ == digest_text(s@),
        is_digest_text(h@),
{
    let d = sha256_digest(s.as_bytes());
    let h = hex_encode(d.as_slice());
    proof {
        assert forall|i: int| 0 <= i < h@.len() implies ('0' <= #[trigger] h@[i] <= '9') || ('a'
            <= h@[i] <= 'f') by {
            assert(h@[i] == byte_text(d@[i / 2])[i % 2]);
        }
    }
    h
}

pub fn hash_eq(a: &str, b: &str) -> (r: bool)
    ensures
        r == digests_agree(a@, b@),
{
    let da = sha256_digest(a.as_bytes());
    let db = sha256_digest(b.as_bytes());
    ct_same(da.as_slice(), db.as_slice())
}

/// The digits of a number below a million, six of them.
pub open spec fn six_digits(n: int) -> Seq<char> {
    seq![
        digit_char((n / 100_000 % 10) as nat),
        digit_char((n / 10_000 % 10) as nat),
        digit_char((n / 1_000 % 10) as nat),
        digit_char((n / 100 % 10) as nat),
        digit_char((n / 10 % 10) as nat),
        digit_char((n % 10) as nat),
    ]
}

/// The number that four bytes stand for, the lowest first.
pub open spec fn le32(b: Seq<u8>) -> int {
    b[0] + 0x100 * b[1] + 0x1_0000 * b[2] + 0x100_0000 * b[3]
}

/// A PIN: six decimal digits.
pub open spec fn is_pin(s: Seq<char>) -> bool {
    s.len() == 6 && forall|i: int| 0 <= i < 6 ==> is_digit(#[trigger] s[i])
}

/// The PIN that four bytes give.
pub fn pin_from(b: &[u8]) -> (s: String)
    requires
        b@.len() == 4,
    ensures
        s@ == six_digits(le32(b@) % 1_000_000),
        is_pin(s@),
{
    let n: u32 = (b[0] as u32 + 0x100 * b[1] as u32 + 0x1_0000 * b[2] as u32 + 0x100_0000
        * b[3] as u32) % 1_000_000;
    let mut s = String::new();
    s.push((48 + (n / 100_000 % 10) as u8) as char);
    s.push((48 + (n / 10_000 % 10) as u8) as char);
    s.push((48 + (n / 1_000 % 10) as u8) as char);
    s.push((48 + (n / 100 % 10) as u8) as char);
    s.push((48 + (n / 10 % 10) as u8) as char);
    s.push((48 + (n % 10) as u8) as char);
    assert(s@ =~= six_digits(n as int));
    s
}

pub fn random_pin() -> (s: String)
    ensures
        is_pin(s@),
{
    pin_from(random_bytes(4).as_slice())
}

/// A session token: thirty-two bytes in hexadecimal.
pub open spec fn is_token(s: Seq<char>) -> bool {
    s.len() == 64 && exists|b: Seq<u8>| b.len() == 32 && s == #[trigger] hex_text(b)
}

/// What the door remembers.
#[verifier::ext_equal]
pub ghost struct GateState {
    pub pin: Option<PinFacts>,
    /// Digest of the password that always opens the door; empty for none.
    pub unattended: Seq<char>,
    /// Digests of the tokens given out, each with the instant it ends.
    pub sessions: Map<Seq<char>, u64>,
    pub fails: int,
    pub lock_until: Option<int>,
}

/// The PIN's facts when it is minted.
pub open spec fn fresh_pin(pin: Seq<char>, at: Reading) -> PinFacts {
    PinFacts {
        pin,
        hash: digest_text(pin),
        exp: at.now + PIN_TTL,
        exp_unix_ms: at.unix_ms + PIN_TTL_MS,
    }
}

impl GateState {
    /// A new PIN takes the place of the old one and lifts a lockout.
    pub open spec fn with_pin(self, pin: Seq<char>, at: Reading) -> GateState {
        GateState {
            pin: Some(fresh_pin(pin, at)),
            fails: 0,
            lock_until: None,
            ..self
        }
    }

    /// The PIN that is still good at `now`.
    pub open spec fn live_pin(self, now: int) -> Option<PinFacts> {
        match self.pin {
            Some(p) if p.exp > now => Some(p),
            _ => None,
        }
    }

    /// Whether a lockout is in force.
    pub open spec fn locked(self, now: int) -> bool {
        self.lock_until matches Some(t) && now < t
    }

    /// Whether a secret opens the door: the live PIN, or the unattended
    /// password.
    pub open spec fn opens(self, secret: Seq<char>, now: int) -> bool {
        let h = digest_text(trimmed(secret));
        ||| (self.live_pin(now) matches Some(p) && digests_agree(p.hash, h))
        ||| (self.unattended.len() > 0 && digests_agree(self.unattended, h))
    }

    /// The door once a lockout that is over has been forgotten.
    pub open spec fn unlocked(self) -> GateState {
        if self.lock_until is Some {
            GateState { lock_until: None, fails: 0, ..self }
        } else {
            self
        }
    }

    /// One more wrong attempt; the last allowed one locks the door.
    pub open spec fn failed(self, now: int) -> GateState {
        if self.fails + 1 >= FAIL_LIMIT {
            GateState { lock_until: Some(now + LOCKOUT), fails: 0, ..self }
        } else {
            GateState { fails: self.fails + 1, ..self }
        }
    }

    /// The door after an attempt with `secret`, where `token` is the token
    /// given out if it succeeds.
    pub open spec fn after_attempt(self, secret: Seq<char>, now: int, token: Seq<char>) -> GateState {
        if self.locked(now) {
            self
        } else if !self.opens(secret, now) {
            self.unlocked().failed(now)
        } else {
            let s = self.unlocked();
            GateState {
                fails: 0,
                sessions: s.sessions.insert(digest_text(token), (now + SESSION_TTL) as u64),
                ..s
            }
        }
    }

    /// Whether a token stands for a session at `now`.
    pub open spec fn admits(self, token: Seq<char>, now: int) -> bool {
        &&& token.len() > 0
        &&& self.sessions.contains_key(digest_text(token))
        &&& self.sessions[digest_text(token)] > now
    }

    /// The door after a token was shown: a session that is over is forgotten.
    pub open spec fn after_check(self, token: Seq<char>, now: int) -> GateState {
        let h = digest_text(token);
        if token.len() > 0 && self.sessions.contains_key(h) && self.sessions[h] <= now {
            GateState { sessions: self.sessions.remove(h), ..self }
        } else {
            self
        }
    }
}

pub struct OtpGate {
    pin: Option<PinState>,
    unattended: String,
    sessions: Table<u64>,
    fails: u32,
    lock_until: Option<u64>,
}

impl View for OtpGate {
    type V = GateState;

    closed spec fn view(&self) -> GateState {
        GateState {
            pin: match self.pin {
                Some(p) => Some(p@),
                None => None,
            },
            unattended: self.unattended@,
            sessions: self.sessions@,
            fails: self.fails as int,
            lock_until: match self.lock_until {
                Some(t) => Some(t as int),
                None => None,
            },
        }
    }
}

impl OtpGate {
    #[verifier::type_invariant]
    spec fn wf(self) -> bool {
        self.fails < FAIL_LIMIT
    }

    pub fn new() -> (g: Self)
        ensures
            g@ == (GateState {
                pin: None,
                unattended: Seq::empty(),
                sessions: Map::empty(),
                fails: 0,
                lock_until: None,
            }),
    {
        OtpGate {
            pin: None,
            unattended: String::new(),
            sessions: Table::new(),
            fails: 0,
            lock_until: None,
        }
    }

    /// The digest of the unattended password; empty for none.
    pub fn set_unattended(&mut self, hash: String)
        ensures
            final(self)@ == (GateState { unattended: hash@, ..old(self)@ }),
    {
        proof {
            use_type_invariant(&*self);
        }
        self.unattended = hash;
    }

    pub fn unattended_hash(&self) -> (h: String)
        ensures
            h@ == self@.unattended,
    {
        self.unattended.clone()
    }

    pub fn mint(&mut self, at: Reading) -> (st: PinState)
        requires
            at.in_range(),
        ensures
            is_pin(st.pin@),
            st@ == fresh_pin(st.pin@, at),
            final(self)@ == old(self)@.with_pin(st.pin@, at),
    {
        let pin = random_pin();
        self.install(pin, at)
    }

    /// Puts a given PIN in force.
    pub fn install(&mut self, pin: String, at: Reading) -> (st: PinState)
        requires
            at.in_range(),
        ensures
            st@ == fresh_pin(pin@, at),
            final(self)@ == old(self)@.with_pin(pin@, at),
    {
        let st = PinState {
            hash: sha256_hex(pin.as_str()),
            exp: at.now + PIN_TTL,
            exp_unix_ms: at.unix_ms + PIN_TTL_MS,
            pin,
        };
        proof {
            use_type_invariant(&*self);
        }
        let kept = st.copy();
        self.pin = Some(kept);
        self.fails = 0;
        self.lock_until = None;
        st
    }

    pub fn current_pin(&self, now: u64) -> (r: Option<PinState>)
        ensures
            match r {
                Some(st) => self@.live_pin(now as int) == Some(st@),
                None => self@.live_pin(now as int) is None,
            },
    {
        match &self.pin {
            Some(st) => {
                if st.exp <= now {
                    None
                } else {
                    Some(st.copy())
                }
            },
            None => None,
        }
    }

    /// Keep a live PIN on the wire so new watchers can join without the host clicking.
    pub fn ensure_current(&mut self, at: Reading) -> (st: PinState)
        requires
            at.in_range(),
        ensures
            match old(self)@.live_pin(at.now as int) {
                Some(p) => st@ == p && final(self)@ == old(self)@,
                None => is_pin(st.pin@) && st@ == fresh_pin(st.pin@, at) && final(self)@ == old(
                    self,
                )@.with_pin(st.pin@, at),
            },
    {
        if let Some(st) = self.current_pin(at.now) {
            return st;
        }
        self.mint(at)
    }

    pub fn wire_payload(&self, now: u64) -> (r: Option<(String, u64)>)
        ensures
            match r {
                Some(w) => self@.live_pin(now as int) matches Some(p) && w.0@ == p.hash && w.1
                    == p.exp_unix_ms,
                None => self@.live_pin(now as int) is None,
            },
    {
        match self.current_pin(now) {
            Some(st) => Some((st.hash, st.exp_unix_ms)),
            None => None,
        }
    }

    fn secret_opens(&self, secret: &str, now: u64) -> (r: bool)
        ensures
            r == self@.opens(secret@, now as int),
    {
        let h = sha256_hex(trim(secret).as_str());
        let by_pin = match &self.pin {
            Some(st) => st.exp > now && hash_eq(st.hash.as_str(), h.as_str()),
            None => false,
        };
        by_pin || (!self.unattended.as_str().is_empty() && hash_eq(
            self.unattended.as_str(),
            h.as_str(),
        ))
    }

    /// One attempt, where `token` is what a success gives out.
    pub fn redeem_with(&mut self, pin: &str, now: u64, token: String) -> (r: Result<
        Session,
        RedeemError,
    >)
        requires
            now + SESSION_TTL <= u64::MAX,
        ensures
            match r {
                Ok(s) => !old(self)@.locked(now as int) && old(self)@.opens(pin@, now as int)
                    && s.token@ == token@ && s.hash@ == digest_text(token@) && s.exp == now
                    + SESSION_TTL,
                Err(RedeemError::RateLimited) => old(self)@.locked(now as int),
                Err(RedeemError::Unauthorized) => !old(self)@.locked(now as int) && !old(
                    self,
                )@.opens(pin@, now as int),
            },
            final(self)@ == old(self)@.after_attempt(pin@, now as int, token@),
    {
        proof {
            use_type_invariant(&*self);
        }
        if let Some(until) = self.lock_until {
            if now < until {
                return Err(RedeemError::RateLimited);
            }
            self.lock_until = None;
            self.fails = 0;
        }
        assert(self@ =~= old(self)@.unlocked());
        if !self.secret_opens(pin, now) {
            if self.fails + 1 >= FAIL_LIMIT {
                self.lock_until = Some(now + LOCKOUT);
                self.fails = 0;
            } else {
                self.fails = self.fails + 1;
            }
            assert(self@ =~= old(self)@.unlocked().failed(now as int));
            return Err(RedeemError::Unauthorized);
        }
        self.fails = 0;
        let hash = sha256_hex(token.as_str());
        let exp: u64 = now + SESSION_TTL;
        let mut sessions: Table<u64> = Table::new();
        std::mem::swap(&mut sessions, &mut self.sessions);
        sessions.insert(hash.clone(), exp);
        self.sessions = sessions;
        Ok(Session { token, hash, exp })
    }

    /// One attempt with a PIN or the unattended password; a success gives out
    /// a random token.
    pub fn redeem(&mut self, pin: &str, now: u64) -> (r: Result<Session, RedeemError>)
        requires
            now + SESSION_TTL <= u64::MAX,
        ensures
            match r {
                Ok(s) => !old(self)@.locked(now as int) && old(self)@.opens(pin@, now as int)
                    && is_token(s.token@) && s.hash@ == digest_text(s.token@) && s.exp == now
                    + SESSION_TTL && final(self)@ == old(self)@.after_attempt(
                    pin@,
                    now as int,
                    s.token@,
                ),
                Err(RedeemError::RateLimited) => old(self)@.locked(now as int) && final(self)@
                    == old(self)@,
                Err(RedeemError::Unauthorized) => !old(self)@.locked(now as int) && !old(
                    self,
                )@.opens(pin@, now as int) && final(self)@ == old(self)@.unlocked().failed(
                    now as int,
                ),
            },
    {
        let bytes = random_bytes(32);
        let token = hex_encode(bytes.as_slice());
        assert(token@ == hex_text(bytes@));
        self.redeem_with(pin, now, token)
    }

    pub fn session_ok(&mut self, token: &str, now: u64) -> (r: bool)
        ensures
            r == old(self)@.admits(token@, now as int),
            final(self)@ == old(self)@.after_check(token@, now as int),
    {
        if token.is_empty() {
            return false;
        }
        proof {
            use_type_invariant(&*self);
        }
        let hash = sha256_hex(token);
        let found: Option<u64> = match self.sessions.get(hash.as_str()) {
            Some(exp) => Some(*exp),
            None => None,
        };
        match found {
            Some(exp) => {
                if exp > now {
                    return true;
                }
                let mut sessions: Table<u64> = Table::new();
                std::mem::swap(&mut sessions, &mut self.sessions);
                let _ = sessions.remove(hash.as_str());
                self.sessions = sessions;
                false
            },
            None => false,
        }
    }
}

/// A token given out is good for exactly one session term: right after the
/// attempt that gave it out, it is admitted at every instant before the end of
/// the term and at none from then on.
pub proof fn session_lasts_its_term(
    g: GateState,
    secret: Seq<char>,
    now: int,
    token: Seq<char>,
    later: int,
)
    requires
        !g.locked(now),
        g.opens(secret, now),
        token.len() > 0,
        0 <= now,
        now + SESSION_TTL <= u64::MAX,
    ensures
        g.after_attempt(secret, now, token).admits(token, later) <==> later < now + SESSION_TTL,
{
}

/// Other people's attempts, a new PIN and checks of tokens take no session
/// away that is not over, unless an attempt gives out the very same token.
pub proof fn sessions_outlive_other_calls(
    g: GateState,
    token: Seq<char>,
    now: int,
    secret: Seq<char>,
    other: Seq<char>,
    at: Reading,
)
    requires
        g.admits(token, now),
        0 <= now,
        now + SESSION_TTL <= u64::MAX,
    ensures
        g.with_pin(secret, at).admits(token, now),
        g.after_check(other, now).admits(token, now),
        g.after_attempt(secret, now, other).admits(token, now),
{
}

/// A new PIN puts the previous one out of force: where the two differ in their
/// stored digests and no unattended password is set, the old PIN is refused.
pub proof fn new_pin_replaces_old(g: GateState, a: Seq<char>, b: Seq<char>, at: Reading, now: int)
    requires
        g.unattended.len() == 0,
        !digests_agree(digest_text(b), digest_text(trimmed(a))),
    ensures
        !g.with_pin(a, at).with_pin(b, at).opens(a, now),
        g.with_pin(a, at).with_pin(b, at) == g.with_pin(b, at),
{
}

/// A PIN opens the door until its five minutes are over, then no longer.
pub proof fn pin_expires(g: GateState, pin: Seq<char>, at: Reading, now: int)
    requires
        g.unattended.len() == 0,
        trimmed(pin) == pin,
    ensures
        g.with_pin(pin, at).opens(pin, now) <==> now < at.now + PIN_TTL,
        g.with_pin(pin, at).live_pin(now) is Some <==> now < at.now + PIN_TTL,
{
}

/// The door after a run of attempts, each with its instant.
pub open spec fn after_attempts(g: GateState, tries: Seq<(Seq<char>, int)>) -> GateState
    decreases tries.len(),
{
    if tries.len() == 0 {
        g
    } else {
        after_attempts(g, tries.drop_last()).after_attempt(
            tries.last().0,
            tries.last().1,
            Seq::empty(),
        )
    }
}

proof fn wrong_tries_count(g: GateState, tries: Seq<(Seq<char>, int)>)
    requires
        g.fails == 0,
        g.lock_until is None,
        tries.len() < FAIL_LIMIT,
        forall|i: int| 0 <= i < tries.len() ==> !g.opens((#[trigger] tries[i]).0, tries[i].1),
    ensures
        after_attempts(g, tries) == (GateState { fails: tries.len() as int, ..g }),
    decreases tries.len(),
{
    if tries.len() > 0 {
        wrong_tries_count(g, tries.drop_last());
        let before = after_attempts(g, tries.drop_last());
        assert(tries.last() == tries[tries.len() - 1]);
        assert(before.opens(tries.last().0, tries.last().1) == g.opens(
            tries.last().0,
            tries.last().1,
        ));
        assert(after_attempts(g, tries) =~= GateState { fails: tries.len() as int, ..g });
    } else {
        assert(g =~= GateState { fails: 0, ..g });
    }
}

/// Guessing is slowed down: the fifth wrong attempt in a row locks the door for
/// half a minute, in which no secret is let in, not even the right one, and
/// nothing changes.
pub proof fn wrong_tries_lock_the_gate(
    g: GateState,
    tries: Seq<(Seq<char>, int)>,
    secret: Seq<char>,
    now: int,
    token: Seq<char>,
)
    requires
        g.fails == 0,
        g.lock_until is None,
        tries.len() == FAIL_LIMIT,
        forall|i: int| 0 <= i < tries.len() ==> !g.opens((#[trigger] tries[i]).0, tries[i].1),
    ensures
        ({
            let locked = after_attempts(g, tries);
            &&& locked.locked(now) <==> now < tries.last().1 + LOCKOUT
            &&& locked.locked(now) ==> locked.after_attempt(secret, now, token) == locked
            &&& !locked.locked(now) && g.opens(secret, now) ==> locked.after_attempt(
                secret,
                now,
                token,
            ).sessions == g.sessions.insert(digest_text(token), (now + SESSION_TTL) as u64)
        }),
{
    let four = tries.drop_last();
    wrong_tries_count(g, four);
    let before = after_attempts(g, four);
    assert(tries.last() == tries[tries.len() - 1]);
    assert(before.opens(tries.last().0, tries.last().1) == g.opens(
        tries.last().0,
        tries.last().1,
    ));
    let locked = after_attempts(g, tries);
    assert(locked =~= GateState {
        fails: 0,
        lock_until: Some(tries.last().1 + LOCKOUT),
        ..g
    });
    assert(locked.opens(secret, now) == g.opens(secret, now));
}

/// A PIN opens for five minutes from when it is made, and no longer.
pub proof fn pin_opens_for_five_minutes(g: GateState, pin: Seq<char>, at: Reading, now: int)
    requires
        g.unattended.len() == 0,
        trimmed(pin) == pin,
    ensures
        g.with_pin(pin, at).opens(pin, now) <==> now < at.now + 300_000_000_000,
        fresh_pin(pin, at).exp_unix_ms == at.unix_ms + 300_000,
        fresh_pin(pin, at).pin == pin,
        fresh_pin(pin, at).hash == digest_text(pin),
        g.with_pin(pin, at).fails == 0,
        g.with_pin(pin, at).lock_until is None,
        g.with_pin(pin, at).unattended == g.unattended,
{
}

/// The password that is set opens at any time, with or without a PIN, and white
/// space around a secret does not count.
pub proof fn password_always_opens(g: GateState, password: Seq<char>, secret: Seq<char>, now: int)
    requires
        trimmed(password) == password,
        g.unattended == digest_text(password),
        g.unattended.len() > 0,
    ensures
        g.opens(password, now),
        g.opens(secret, now) == g.opens(trimmed(secret), now),
{
    crate::text::trimmed_twice(secret);
}

/// Without a password and without a live PIN nothing opens.
pub proof fn nothing_opens_a_shut_door(g: GateState, secret: Seq<char>, now: int)
    requires
        g.unattended.len() == 0,
        g.pin is None || g.pin->Some_0.exp <= now,
    ensures
        !g.opens(secret, now),
{
}

/// The right secret opens a session for a day and forgets the failures; a wrong
/// one opens none and is counted, the fifth in a row for half a minute's wait.
pub proof fn attempts_are_answered(g: GateState, secret: Seq<char>, now: int, token: Seq<char>)
    requires
        0 <= now,
        now + 86_400_000_000_000 <= u64::MAX,
        0 <= g.fails < 5,
        token.len() > 0,
    ensures
        ({
            let r = g.after_attempt(secret, now, token);
            let shut = g.lock_until matches Some(t) && now < t;
            let fails = if g.lock_until is Some {
                0
            } else {
                g.fails
            };
            &&& shut ==> r == g
            &&& !shut && g.opens(secret, now) ==> r.fails == 0 && r.lock_until is None && r.admits(
                token,
                now,
            ) && r.admits(token, now + 86_399_999_999_999) && !r.admits(
                token,
                now + 86_400_000_000_000,
            )
            &&& !shut && !g.opens(secret, now) ==> r.sessions == g.sessions && r.pin == g.pin
            &&& !shut && !g.opens(secret, now) && fails < 4 ==> r.fails == fails + 1
                && r.lock_until is None
            &&& !shut && !g.opens(secret, now) && fails == 4 ==> r.lock_until == Some(
                now + 30_000_000_000,
            ) && r.fails == 0
        }),
{
}

/// A token is admitted until its session ends; a session that ended is
/// forgotten when it is asked for, and no other.
pub proof fn ended_sessions_are_forgotten(
    g: GateState,
    token: Seq<char>,
    other: Seq<char>,
    now: int,
)
    requires
        token.len() > 0,
        g.sessions.contains_key(digest_text(token)),
    ensures
        g.admits(token, now) <==> now < g.sessions[digest_text(token)],
        !g.admits(token, now) ==> !g.after_check(token, now).sessions.contains_key(
            digest_text(token),
        ),
        g.admits(token, now) ==> g.after_check(token, now) == g,
        digest_text(other) != digest_text(token) ==> g.after_check(other, now).sessions.contains_key(
            digest_text(token),
        ),
        !g.admits(Seq::empty(), now),
{
}

/// What a hexadecimal digit stands for.
pub open spec fn hex_worth(c: char) -> int {
    if '0' <= c <= '9' {
        c as int - 48
    } else {
        c as int - 87
    }
}

/// Two small digits tell each byte, the high half first.
pub proof fn hex_reads_back(bytes: Seq<u8>, i: int)
    requires
        0 <= i < bytes.len(),
    ensures
        hex_text(bytes).len() == 2 * bytes.len(),
        hex_worth(hex_text(bytes)[2 * i]) * 16 + hex_worth(hex_text(bytes)[2 * i + 1]) == bytes[i],
        0 <= hex_worth(hex_text(bytes)[2 * i]) < 16,
        0 <= hex_worth(hex_text(bytes)[2 * i + 1]) < 16,
{
    assert((2 * i) / 2 == i && (2 * i) % 2 == 0 && (2 * i + 1) / 2 == i && (2 * i + 1) % 2 == 1);
}

/// The six digits of a PIN spell its number.
pub proof fn six_digits_spell_the_number(n: int)
    requires
        0 <= n < 1_000_000,
    ensures
        six_digits(n).len() == 6,
        digits_value(six_digits(n)) == n,
{
    let s = six_digits(n);
    assert(s.take(0) =~= Seq::<char>::empty());
    assert(s.take(1).drop_last() =~= s.take(0));
    assert(s.take(2).drop_last() =~= s.take(1));
    assert(s.take(3).drop_last() =~= s.take(2));
    assert(s.take(4).drop_last() =~= s.take(3));
    assert(s.take(5).drop_last() =~= s.take(4));
    assert(s.drop_last() =~= s.take(5));
    assert(digits_value(s.take(0)) == 0);
    assert(digits_value(s.take(1)) == n / 100_000);
    assert(digits_value(s.take(2)) == n / 10_000);
    assert(digits_value(s.take(3)) == n / 1_000);
    assert(digits_value(s.take(4)) == n / 100);
    assert(digits_value(s.take(5)) == n / 10);
}

/// Of four random bytes the first counts least.
pub proof fn first_byte_counts_least(a: u8, b: u8, c: u8, d: u8)
    ensures
        le32(seq![a, b, c, d]) == a + 256 * (b + 256 * (c + 256 * d)),
{
}

} // verus!
