//! Access control of the web back end: unlock patterns, the per-client guard
//! against guessing (three failed attempts block a client for three hours),
//! access tokens and their sessions.
use vstd::prelude::*;
use crate::assoc::{AssocList, keep_where};
use crate::text::{chars_of, is_ascii_digit, push_char, string_from_chars, trim, trim_str};
use rand::RngCore;

verus! {

/// The fewest points an unlock pattern has.
pub const MIN_UNLOCK_PATTERN_POINTS: usize = 6;
/// The failed attempts after which a client is blocked.
pub const MAX_FAILED_UNLOCK_ATTEMPTS: u8 = 3;
/// How long a client stays blocked, in seconds.
pub const UNLOCK_BLOCK_SECONDS: u64 = 10800;
/// How long an access grant lasts, in seconds.
pub const ACCESS_GRANT_TTL_SECONDS: u64 = 43200;
/// How long an access grant lasts, in nanoseconds of the session clock.
pub const ACCESS_GRANT_TTL_NANOS: u64 = 43200000000000;
/// The number of random bytes of an access token.
pub const ACCESS_TOKEN_BYTE_LENGTH: usize = 32;

/// The errors of `normalize_pattern`.
#[derive(Debug, Clone, Copy, PartialEq, Eq)]
pub enum PatternError {
    /// Fewer than six points.
    TooFewPoints,
    /// A point `0`.
    PointOutOfRange,
    /// A point that occurs twice.
    RepeatedPoint,
}

impl PatternError {
    /// The text of the error.
    pub fn message(&self) -> (r: String)
        ensures
            r@ == match self {
                PatternError::TooFewPoints => "Unlock pattern must contain at least 6 points"@,
                PatternError::PointOutOfRange => "Unlock pattern points must be between 1 and 9"@,
                PatternError::RepeatedPoint => "Unlock pattern must not contain repeated points"@,
            },
    {
        match self {
            PatternError::TooFewPoints => "Unlock pattern must contain at least 6 points".to_owned(),
            PatternError::PointOutOfRange => "Unlock pattern points must be between 1 and 9".to_owned(),
            PatternError::RepeatedPoint => "Unlock pattern must not contain repeated points".to_owned(),
        }
    }
}

/// The ASCII digits of `s`, in order.
pub open spec fn digits_only(s: Seq<char>) -> Seq<char>
    decreases s.len(),
{
    if s.len() == 0 {
        seq![]
    } else if is_ascii_digit(s.last()) {
        digits_only(s.drop_last()).push(s.last())
    } else {
        digits_only(s.drop_last())
    }
}

proof fn lemma_digits_only_digits(s: Seq<char>)
    ensures
        forall|j: int| 0 <= j < digits_only(s).len() ==> #[trigger] is_ascii_digit(digits_only(s)[j]),
    decreases s.len(),
{
    if s.len() > 0 {
        lemma_digits_only_digits(s.drop_last());
        let d = digits_only(s.drop_last());
        if is_ascii_digit(s.last()) {
            assert forall|j: int| 0 <= j < digits_only(s).len() implies #[trigger] is_ascii_digit(digits_only(s)[j]) by {
                if j < d.len() {
                    assert(digits_only(s)[j] == d[j]);
                }
            }
        }
    }
}

/// The first fault among the points `ds[i..]`: a `0`, or a point seen before.
pub open spec fn first_point_error(ds: Seq<char>, i: int) -> Option<PatternError>
    decreases ds.len() - i,
{
    if i < 0 || i >= ds.len() {
        None
    } else if ds[i] == '0' {
        Some(PatternError::PointOutOfRange)
    } else if ds.take(i).contains(ds[i]) {
        Some(PatternError::RepeatedPoint)
    } else {
        first_point_error(ds, i + 1)
    }
}

/// The normal form of an unlock pattern: its digits, if they are at least six
/// distinct points `1..9`.
pub open spec fn normalized_pattern(s: Seq<char>) -> Result<Seq<char>, PatternError> {
    let ds = digits_only(s);
    if ds.len() < 6 {
        Err(PatternError::TooFewPoints)
    } else {
        match first_point_error(ds, 0) {
            Some(e) => Err(e),
            None => Ok(ds),
        }
    }
}

/// The digits of `pattern`, if they form a valid unlock pattern.
pub fn normalize_pattern(pattern: &str) -> (r: Result<String, PatternError>)
    ensures
        match r {
            Ok(p) => normalized_pattern(pattern@) == Ok::<Seq<char>, PatternError>(p@),
            Err(e) => normalized_pattern(pattern@) == Err::<Seq<char>, PatternError>(e),
        },
{
    let chars = chars_of(pattern);
    let mut digits: Vec<char> = Vec::new();
    let mut i: usize = 0;
    while i < chars.len()
        invariant
            i <= chars.len(),
            chars@ == pattern@,
            digits@ == digits_only(chars@.take(i as int)),
        decreases chars.len() - i,
    {
        assert(chars@.take(i + 1).drop_last() =~= chars@.take(i as int));
        if '0' <= chars[i] && chars[i] <= '9' {
            digits.push(chars[i]);
        }
        i += 1;
    }
    assert(chars@.take(i as int) =~= chars@);
    if digits.len() < MIN_UNLOCK_PATTERN_POINTS {
        return Err(PatternError::TooFewPoints);
    }
    let ghost ds = digits@;
    proof {
        lemma_digits_only_digits(pattern@);
    }
    let mut seen: Vec<bool> = vec![false; 10];
    let mut k: usize = 0;
    while k < digits.len()
        invariant
            k <= digits.len(),
            ds == digits@,
            ds == digits_only(pattern@),
            ds.len() >= 6,
            seen.len() == 10,
            forall|j: int| 0 <= j < ds.len() ==> #[trigger] is_ascii_digit(ds[j]),
            forall|d: int| 0 <= d < 10 ==> #[trigger] seen@[d] == ds.take(k as int).contains(((d + 48) as char)),
            first_point_error(ds, 0) == first_point_error(ds, k as int),
        decreases digits.len() - k,
    {
        let c = digits[k];
        assert(is_ascii_digit(ds[k as int]));
        let x: u32 = c as u32;
        let value: usize = (x - 48) as usize;
        assert(((value + 48) as char) == c);
        if value == 0 {
            return Err(PatternError::PointOutOfRange);
        }
        if seen[value] {
            return Err(PatternError::RepeatedPoint);
        }
        assert(ds.take(k + 1) =~= ds.take(k as int).push(c));
        seen.set(value, true);
        assert forall|d: int| 0 <= d < 10 implies #[trigger] seen@[d] == ds.take(k + 1).contains(((d + 48) as char)) by {
            if d != value {
                assert(((d + 48) as char) != c);
                let t = ds.take(k + 1);
                if t.contains(((d + 48) as char)) {
                    let j = choose|j: int| 0 <= j < t.len() && #[trigger] t[j] == ((d + 48) as char);
                    assert(j < k);
                    assert(ds.take(k as int)[j] == ((d + 48) as char));
                }
            } else {
                assert(ds.take(k + 1)[k as int] == c);
            }
        }
        k += 1;
    }
    assert(first_point_error(ds, k as int) == None::<PatternError>);
    Ok(string_from_chars(&digits))
}

/// What the web back end remembers of one client's unlock attempts.
#[derive(Debug, Clone, Copy, PartialEq, Eq)]
pub struct UnlockGuard {
    /// Failed attempts since the last block or success.
    pub failed_attempts: u8,
    /// The second (since the Unix epoch) until which the client is blocked.
    pub blocked_until: Option<u64>,
}

/// The guard of a client that has not failed yet.
pub open spec fn fresh_guard() -> UnlockGuard {
    UnlockGuard { failed_attempts: 0, blocked_until: None }
}

/// The guard is blocked at second `now`.
pub open spec fn guard_blocked(g: UnlockGuard, now: u64) -> bool {
    g.blocked_until matches Some(b) && b > now
}

/// The guard with a block that has run out at `now` taken away.
pub open spec fn guard_cleared(g: UnlockGuard, now: u64) -> UnlockGuard {
    if g.blocked_until matches Some(b) && b <= now {
        UnlockGuard { failed_attempts: g.failed_attempts, blocked_until: None }
    } else {
        g
    }
}

/// The guard after one more failed attempt at `now`, and whether that attempt
/// blocks the client: the third failed attempt blocks it for three hours and
/// starts the count again.
pub open spec fn guard_failed(g: UnlockGuard, now: u64) -> (UnlockGuard, bool) {
    let n: int = if g.failed_attempts < 255 { g.failed_attempts + 1 } else { 255 };
    if n >= 3 {
        (UnlockGuard { failed_attempts: 0, blocked_until: Some((now + 10800) as u64) }, true)
    } else {
        (UnlockGuard { failed_attempts: n as u8, blocked_until: g.blocked_until }, false)
    }
}

impl UnlockGuard {
    pub fn new() -> (r: Self)
        ensures
            r == fresh_guard(),
    {
        UnlockGuard { failed_attempts: 0, blocked_until: None }
    }

    /// The guard holds nothing worth keeping.
    pub fn is_empty(&self) -> (r: bool)
        ensures
            r == (*self == fresh_guard()),
    {
        self.failed_attempts == 0 && self.blocked_until.is_none()
    }

    /// The client is blocked at second `now`.
    pub fn is_blocked(&self, now: u64) -> (r: bool)
        ensures
            r == guard_blocked(*self, now),
    {
        match self.blocked_until {
            Some(blocked_until) => blocked_until > now,
            None => false,
        }
    }

    /// Takes away a block that has run out at `now`; says whether there was one.
    pub fn clear_expired_block(&mut self, now: u64) -> (r: bool)
        ensures
            *final(self) == guard_cleared(*old(self), now),
            r == (old(self).blocked_until matches Some(b) && b <= now),
    {
        match self.blocked_until {
            Some(blocked_until) => {
                if blocked_until <= now {
                    self.blocked_until = None;
                    true
                } else {
                    false
                }
            },
            None => false,
        }
    }

    /// Counts a failed attempt at `now`; the third one blocks the client.
    pub fn record_failed_attempt(&mut self, now: u64) -> (r: UnlockAttemptResult)
        requires
            now <= u64::MAX - UNLOCK_BLOCK_SECONDS,
        ensures
            *final(self) == guard_failed(*old(self), now).0,
            guard_failed(*old(self), now).1 ==> r is TooManyAttempts,
            !guard_failed(*old(self), now).1 ==> r is PatternNotAccepted,
    {
        self.failed_attempts = if self.failed_attempts < 255 { self.failed_attempts + 1 } else { 255 };
        if self.failed_attempts >= MAX_FAILED_UNLOCK_ATTEMPTS {
            self.failed_attempts = 0;
            self.blocked_until = Some(now + UNLOCK_BLOCK_SECONDS);
            UnlockAttemptResult::TooManyAttempts
        } else {
            UnlockAttemptResult::PatternNotAccepted
        }
    }

    /// Forgets the failed attempts and any block.
    pub fn reset(&mut self)
        ensures
            *final(self) == fresh_guard(),
    {
        self.failed_attempts = 0;
        self.blocked_until = None;
    }
}

/// The access token handed out on a successful unlock.
#[derive(Debug, Clone)]
pub struct AccessGrant {
    pub access_token: String,
    pub expires_in_seconds: u64,
}

/// The answer to an unlock attempt.
#[derive(Debug, Clone)]
pub enum UnlockAttemptResult {
    Unlocked(AccessGrant),
    PatternNotAccepted,
    TooManyAttempts,
}


/// `s` up to its first comma.
pub open spec fn before_comma(s: Seq<char>) -> Seq<char>
    decreases s.len(),
{
    if s.len() == 0 || s[0] == ',' {
        seq![]
    } else {
        seq![s[0]] + before_comma(s.drop_first())
    }
}

/// The client a request comes from: the trimmed `Fly-Client-IP` header when it
/// is not blank, else the first trimmed entry of `X-Forwarded-For` when that is
/// not blank, else `unknown-client`.
pub open spec fn client_id_of(fly_client_ip: Option<Seq<char>>, forwarded_for: Option<Seq<char>>) -> Seq<char> {
    if fly_client_ip is Some && trim(fly_client_ip.unwrap()).len() > 0 {
        trim(fly_client_ip.unwrap())
    } else if forwarded_for is Some && trim(before_comma(forwarded_for.unwrap())).len() > 0 {
        trim(before_comma(forwarded_for.unwrap()))
    } else {
        "unknown-client"@
    }
}

/// `s` up to its first comma.
fn prefix_before_comma(s: &str) -> (r: String)
    ensures
        r@ == before_comma(s@),
{
    let v = chars_of(s);
    let mut i: usize = 0;
    assert(v@.skip(0) =~= v@);
    assert(v@.take(0) + before_comma(v@) =~= before_comma(v@));
    while i < v.len() && v[i] != ','
        invariant
            i <= v.len(),
            v@ == s@,
            before_comma(s@) == v@.take(i as int) + before_comma(v@.skip(i as int)),
        decreases v.len() - i,
    {
        assert(v@.skip(i as int).drop_first() =~= v@.skip(i + 1));
        assert(v@.take(i + 1) =~= v@.take(i as int) + seq![v@[i as int]]);
        i += 1;
    }
    assert(v@.take(i as int) == v@.subrange(0, i as int));
    assert(before_comma(v@.skip(i as int)) =~= Seq::<char>::empty());
    assert(v@.take(i as int) + Seq::<char>::empty() =~= v@.take(i as int));
    crate::text::string_from_range(&v, 0, i)
}

/// The client a request comes from, given the values of its `Fly-Client-IP`
/// and `X-Forwarded-For` headers.
pub fn determine_client_id(fly_client_ip: Option<&str>, forwarded_for: Option<&str>) -> (r: String)
    ensures
        r@ == client_id_of(
            match fly_client_ip { Some(v) => Some(v@), None => None },
            match forwarded_for { Some(v) => Some(v@), None => None },
        ),
{
    if let Some(value) = fly_client_ip {
        let trimmed = trim_str(value);
        if !trimmed.as_str().is_empty() {
            return trimmed;
        }
    }
    if let Some(value) = forwarded_for {
        let first = prefix_before_comma(value);
        let trimmed = trim_str(first.as_str());
        if !trimmed.as_str().is_empty() {
            return trimmed;
        }
    }
    "unknown-client".to_owned()
}

/// The lower-case hexadecimal digit of `n < 16`.
pub open spec fn hex_digit(n: int) -> char {
    if n < 10 {
        (48 + n) as char
    } else {
        (87 + n) as char
    }
}

/// `bs` in lower-case hexadecimal, two digits a byte.
pub open spec fn hex_lower(bs: Seq<u8>) -> Seq<char>
    decreases bs.len(),
{
    if bs.len() == 0 {
        seq![]
    } else {
        hex_lower(bs.drop_last()) + seq![hex_digit((bs.last() / 16) as int), hex_digit((bs.last() % 16) as int)]
    }
}

fn hex_digit_char(n: u8) -> (c: char)
    requires
        n < 16,
    ensures
        c == hex_digit(n as int),
{
    if n < 10 {
        (48 + n) as char
    } else {
        (87 + n) as char
    }
}

/// `bytes` in lower-case hexadecimal, two digits a byte.
pub fn hex_encode(bytes: &Vec<u8>) -> (r: String)
    ensures
        r@ == hex_lower(bytes@),
{
    let mut r = String::new();
    let mut i: usize = 0;
    while i < bytes.len()
        invariant
            i <= bytes.len(),
            r@ == hex_lower(bytes@.take(i as int)),
        decreases bytes.len() - i,
    {
        let b = bytes[i];
        assert(bytes@.take(i + 1).drop_last() =~= bytes@.take(i as int));
        push_char(&mut r, hex_digit_char(b / 16));
        push_char(&mut r, hex_digit_char(b % 16));
        assert(r@ =~= hex_lower(bytes@.take(i + 1)));
        i += 1;
    }
    assert(bytes@.take(i as int) =~= bytes@);
    r
}

/// `n` bytes from the thread-local random generator of `rand` (`thread_rng`
/// and `RngCore::fill_bytes`). Only the length is stated: the bytes are random.
/// `rand` panics when the generator of the operating system cannot be seeded.
#[verifier::external_body]
fn random_bytes(n: usize) -> (r: Vec<u8>)
    ensures
        r.len() == n,
{
    let mut bytes = vec![0u8; n];
    rand::thread_rng().fill_bytes(&mut bytes);
    bytes
}

proof fn lemma_hex_lower_len(bs: Seq<u8>)
    ensures
        hex_lower(bs).len() == 2 * bs.len(),
    decreases bs.len(),
{
    if bs.len() > 0 {
        lemma_hex_lower_len(bs.drop_last());
    }
}

/// `t` is the form of an access token: the lower-case hexadecimal text of 32
/// bytes.
pub open spec fn access_token_form(t: Seq<char>) -> bool {
    exists|bs: Seq<u8>| bs.len() == ACCESS_TOKEN_BYTE_LENGTH && t == hex_lower(bs)
}

/// A fresh access token: 32 random bytes in hexadecimal.
pub fn generate_access_token() -> (r: String)
    ensures
        access_token_form(r@),
        r@.len() == 2 * ACCESS_TOKEN_BYTE_LENGTH,
{
    let bytes = random_bytes(ACCESS_TOKEN_BYTE_LENGTH);
    proof {
        lemma_hex_lower_len(bytes@);
    }
    hex_encode(&bytes)
}

/// What the guard of a client decides of an unlock attempt.
#[derive(Debug, Clone, Copy, PartialEq, Eq)]
pub enum UnlockStep {
    /// The client is blocked; nothing changes.
    Blocked,
    /// The pattern was wrong.
    NotAccepted,
    /// The pattern was wrong for the third time: the client is now blocked.
    TooManyAttempts,
    /// The pattern was right.
    Accepted,
}

/// The guard of `client` in `m`; a client without one has a fresh guard.
pub open spec fn guard_of(m: Map<Seq<char>, UnlockGuard>, client: Seq<char>) -> UnlockGuard {
    if m.contains_key(client) {
        m[client]
    } else {
        fresh_guard()
    }
}

/// The guard is not fresh.
pub open spec fn guard_not_fresh(g: UnlockGuard) -> bool {
    g != fresh_guard()
}

/// The decision on an unlock attempt of `client` at second `now`, and the
/// guards afterwards.
pub open spec fn decide_unlock_spec(
    m: Map<Seq<char>, UnlockGuard>,
    client: Seq<char>,
    matches: bool,
    now: u64,
) -> (UnlockStep, Map<Seq<char>, UnlockGuard>) {
    let g = guard_of(m, client);
    if guard_blocked(g, now) {
        (UnlockStep::Blocked, m)
    } else if matches {
        (UnlockStep::Accepted, keep_where(m.insert(client, fresh_guard()), |g: UnlockGuard| guard_not_fresh(g)))
    } else {
        let (g2, too_many) = guard_failed(guard_cleared(g, now), now);
        (if too_many { UnlockStep::TooManyAttempts } else { UnlockStep::NotAccepted }, m.insert(client, g2))
    }
}

fn guard_is_not_fresh(g: &UnlockGuard) -> (b: bool)
    ensures
        b == guard_not_fresh(*g),
{
    !g.is_empty()
}

/// The session store lets the holder of `token` in at `now`.
pub open spec fn session_open(m: Map<Seq<char>, u64>, token: Seq<char>, now: u64) -> bool {
    m.contains_key(token) && m[token] > now
}

/// The state of access control: the unlock pattern, the open sessions (token
/// to expiry on the session clock, in nanoseconds) and the guards of the
/// clients (by client id).
pub struct AccessControl {
    unlock_pattern: String,
    sessions: AssocList<u64>,
    unlock_guards: AssocList<UnlockGuard>,
}

impl AccessControl {
    pub closed spec fn wf(&self) -> bool {
        &&& self.sessions.wf()
        &&& self.unlock_guards.wf()
        &&& normalized_pattern(self.unlock_pattern@) == Ok::<Seq<char>, PatternError>(self.unlock_pattern@)
    }

    /// The normalised unlock pattern.
    pub closed spec fn pattern(&self) -> Seq<char> {
        self.unlock_pattern@
    }

    /// The guards, by client id.
    pub closed spec fn guards(&self) -> Map<Seq<char>, UnlockGuard> {
        self.unlock_guards@
    }

    /// The sessions, by token.
    pub closed spec fn sessions(&self) -> Map<Seq<char>, u64> {
        self.sessions@
    }

    /// Access control for `unlock_pattern`, with no session and no guard.
    pub fn new(unlock_pattern: String) -> (r: Result<Self, PatternError>)
        ensures
            match r {
                Ok(ac) => {
                    &&& ac.wf()
                    &&& normalized_pattern(unlock_pattern@) == Ok::<Seq<char>, PatternError>(ac.pattern())
                    &&& ac.guards() == Map::<Seq<char>, UnlockGuard>::empty()
                    &&& ac.sessions() == Map::<Seq<char>, u64>::empty()
                },
                Err(e) => normalized_pattern(unlock_pattern@) == Err::<Seq<char>, PatternError>(e),
            },
    {
        let unlock_pattern = normalize_pattern(unlock_pattern.as_str())?;
        proof {
            lemma_normalized_pattern_idempotent(unlock_pattern@);
        }
        Ok(AccessControl { unlock_pattern, sessions: AssocList::new(), unlock_guards: AssocList::new() })
    }

    /// Replaces the guards by those of `entries` (as loaded from the state file).
    pub fn set_unlock_guards(&mut self, entries: Vec<(String, UnlockGuard)>)
        requires
            old(self).wf(),
        ensures
            final(self).wf(),
            final(self).guards() == crate::assoc::assoc_map(entries@),
            final(self).sessions() == old(self).sessions(),
            final(self).pattern() == old(self).pattern(),
    {
        self.unlock_guards = AssocList::from_entries(entries);
    }

    /// The guards, one entry a client (to be saved to the state file).
    pub fn unlock_guard_entries(&self) -> (r: Vec<(String, UnlockGuard)>)
        requires
            self.wf(),
        ensures
            crate::assoc::assoc_map(r@) == self.guards(),
            crate::assoc::unique_keys(r@),
    {
        self.unlock_guards.entries()
    }

    /// Whether `pattern`, normalised, is the unlock pattern.
    pub fn pattern_matches(&self, pattern: &str) -> (r: bool)
        requires
            self.wf(),
        ensures
            r == (normalized_pattern(pattern@) == Ok::<Seq<char>, PatternError>(self.pattern())),
    {
        match normalize_pattern(pattern) {
            Ok(p) => p == self.unlock_pattern,
            Err(_) => false,
        }
    }

    /// Decides an unlock attempt of `client_id` at second `now` (since the
    /// Unix epoch): a blocked client is refused and nothing changes; a right
    /// pattern resets the client's guard and drops the guards that hold
    /// nothing; a wrong one counts a failed attempt, the third blocking the
    /// client for three hours.
    pub fn decide_unlock(&mut self, client_id: &String, pattern_matches: bool, now: u64) -> (r: UnlockStep)
        requires
            old(self).wf(),
            now <= u64::MAX - UNLOCK_BLOCK_SECONDS,
        ensures
            final(self).wf(),
            (r, final(self).guards()) == decide_unlock_spec(old(self).guards(), client_id@, pattern_matches, now),
            final(self).sessions() == old(self).sessions(),
            final(self).pattern() == old(self).pattern(),
    {
        let mut guard = match self.unlock_guards.get(client_id) {
            Some(g) => g,
            None => UnlockGuard::new(),
        };
        if guard.is_blocked(now) {
            return UnlockStep::Blocked;
        }
        guard.clear_expired_block(now);
        if pattern_matches {
            guard.reset();
            self.unlock_guards.insert(client_id, guard);
            self.unlock_guards.retain_where(guard_is_not_fresh, Ghost(|g: UnlockGuard| guard_not_fresh(g)));
            UnlockStep::Accepted
        } else {
            let result = guard.record_failed_attempt(now);
            self.unlock_guards.insert(client_id, guard);
            match result {
                UnlockAttemptResult::TooManyAttempts => UnlockStep::TooManyAttempts,
                _ => UnlockStep::NotAccepted,
            }
        }
    }

    /// Opens a session for a fresh token at `now` on the session clock
    /// (nanoseconds), lasting twelve hours.
    pub fn grant_access(&mut self, now: u64) -> (r: AccessGrant)
        requires
            old(self).wf(),
            now <= u64::MAX - ACCESS_GRANT_TTL_NANOS,
        ensures
            final(self).wf(),
            r.expires_in_seconds == ACCESS_GRANT_TTL_SECONDS,
            access_token_form(r.access_token@),
            r.access_token@.len() == 2 * ACCESS_TOKEN_BYTE_LENGTH,
            final(self).sessions() == old(self).sessions().insert(r.access_token@, (now + ACCESS_GRANT_TTL_NANOS) as u64),
            final(self).guards() == old(self).guards(),
            final(self).pattern() == old(self).pattern(),
    {
        let access_token = generate_access_token();
        self.sessions.insert(&access_token, now + ACCESS_GRANT_TTL_NANOS);
        AccessGrant { access_token, expires_in_seconds: ACCESS_GRANT_TTL_SECONDS }
    }

    /// Whether `token` (absent when the request carries none) opens a session
    /// at `now`; a request with a token also drops the sessions that ran out.
    pub fn has_access(&mut self, token: Option<&String>, now: u64) -> (r: bool)
        requires
            old(self).wf(),
        ensures
            final(self).wf(),
            r == (token is Some && session_open(old(self).sessions(), token.unwrap()@, now)),
            token is None ==> final(self).sessions() == old(self).sessions(),
            token is Some ==> final(self).sessions() == keep_where(old(self).sessions(), |e: u64| e > now),
            final(self).guards() == old(self).guards(),
            final(self).pattern() == old(self).pattern(),
    {
        match token {
            None => false,
            Some(token) => {
                let later_than_now = (|e: &u64| -> (b: bool)
                    ensures
                        b == (*e > now),
                    { *e > now });
                self.sessions.retain_where(later_than_now, Ghost(|e: u64| e > now));
                match self.sessions.get(token) {
                    Some(expires_at) => expires_at > now,
                    None => false,
                }
            },
        }
    }

    /// An unlock attempt of `client_id` with `pattern`, at second `now_secs`
    /// (since the Unix epoch) and `now_nanos` on the session clock: the
    /// attempt is decided as `decide_unlock` does on whether the normalised
    /// pattern is the unlock pattern; a blocked client and a third failure are
    /// answered with too many attempts, another failure with a pattern not
    /// accepted, and a right pattern opens a session. The flag says whether
    /// the guards changed and are to be saved: always but for a blocked client.
    pub fn unlock(&mut self, client_id: &String, pattern: &str, now_secs: u64, now_nanos: u64) -> (r: (UnlockAttemptResult, bool))
        requires
            old(self).wf(),
            now_secs <= u64::MAX - UNLOCK_BLOCK_SECONDS,
            now_nanos <= u64::MAX - ACCESS_GRANT_TTL_NANOS,
        ensures
            final(self).wf(),
            final(self).pattern() == old(self).pattern(),
            ({
                let matches = normalized_pattern(pattern@) == Ok::<Seq<char>, PatternError>(old(self).pattern());
                let (step, guards) = decide_unlock_spec(old(self).guards(), client_id@, matches, now_secs);
                &&& final(self).guards() == guards
                &&& r.1 == (step != UnlockStep::Blocked)
                &&& match step {
                    UnlockStep::Accepted => r.0 matches UnlockAttemptResult::Unlocked(grant)
                        && grant.expires_in_seconds == ACCESS_GRANT_TTL_SECONDS
                        && access_token_form(grant.access_token@)
                        && grant.access_token@.len() == 2 * ACCESS_TOKEN_BYTE_LENGTH
                        && final(self).sessions() == old(self).sessions().insert(grant.access_token@, (now_nanos + ACCESS_GRANT_TTL_NANOS) as u64),
                    UnlockStep::NotAccepted => r.0 is PatternNotAccepted && final(self).sessions() == old(self).sessions(),
                    _ => r.0 is TooManyAttempts && final(self).sessions() == old(self).sessions(),
                }
            }),
    {
        let matches = self.pattern_matches(pattern);
        let step = self.decide_unlock(client_id, matches, now_secs);
        match step {
            UnlockStep::Blocked => (UnlockAttemptResult::TooManyAttempts, false),
            UnlockStep::NotAccepted => (UnlockAttemptResult::PatternNotAccepted, true),
            UnlockStep::TooManyAttempts => (UnlockAttemptResult::TooManyAttempts, true),
            UnlockStep::Accepted => {
                let grant = self.grant_access(now_nanos);
                (UnlockAttemptResult::Unlocked(grant), true)
            },
        }
    }
}

/// What happens to the sessions between two requests: a request with a
/// token drops the sessions that ran out at its time (`has_access`), and an
/// accepted unlock opens a session for a token until an expiry (`grant_access`).
pub enum SessionEvent {
    Checked(u64),
    Granted(Seq<char>, u64),
}

/// The sessions after `events`, in order.
pub open spec fn sessions_after(m: Map<Seq<char>, u64>, events: Seq<SessionEvent>) -> Map<Seq<char>, u64>
    decreases events.len(),
{
    if events.len() == 0 {
        m
    } else {
        let before = sessions_after(m, events.drop_last());
        match events.last() {
            SessionEvent::Checked(t) => keep_where(before, |e: u64| e > t),
            SessionEvent::Granted(k, e) => before.insert(k, e),
        }
    }
}

proof fn lemma_session_kept(m: Map<Seq<char>, u64>, token: Seq<char>, expiry: u64, events: Seq<SessionEvent>)
    requires
        forall|i: int| 0 <= i < events.len() ==> (#[trigger] events[i] matches SessionEvent::Granted(k, _) ==> k != token),
    ensures
        ({
            let after = sessions_after(m.insert(token, expiry), events);
            &&& after.contains_key(token) ==> after[token] == expiry
            &&& (forall|i: int| 0 <= i < events.len() ==> (#[trigger] events[i] matches SessionEvent::Checked(t) ==> t < expiry))
                ==> after.contains_key(token)
        }),
    decreases events.len(),
{
    if events.len() > 0 {
        let rest = events.drop_last();
        assert forall|i: int| 0 <= i < rest.len() implies (#[trigger] rest[i] matches SessionEvent::Granted(k, _) ==> k != token) by {
            assert(rest[i] == events[i]);
        }
        lemma_session_kept(m, token, expiry, rest);
        let last = events.last();
        assert(last == events[events.len() - 1]);
        if forall|i: int| 0 <= i < events.len() ==> (#[trigger] events[i] matches SessionEvent::Checked(t) ==> t < expiry) {
            assert forall|i: int| 0 <= i < rest.len() implies (#[trigger] rest[i] matches SessionEvent::Checked(t) ==> t < expiry) by {
                assert(rest[i] == events[i]);
            }
        }
    }
}

/// A token handed out by an accepted unlock opens every later request made
/// before its session runs out, and none made after, whatever other requests
/// and unlocks of other tokens came in between (requests in the order of the
/// session clock).
pub proof fn lemma_token_opens_later_requests_until_expiry(
    m: Map<Seq<char>, u64>,
    token: Seq<char>,
    granted_at: u64,
    events: Seq<SessionEvent>,
    now: u64,
)
    requires
        granted_at <= u64::MAX - ACCESS_GRANT_TTL_NANOS,
        forall|i: int| 0 <= i < events.len() ==> (#[trigger] events[i] matches SessionEvent::Granted(k, _) ==> k != token),
        forall|i: int| 0 <= i < events.len() ==> (#[trigger] events[i] matches SessionEvent::Checked(t) ==> t <= now),
    ensures
        session_open(
            sessions_after(m.insert(token, (granted_at + ACCESS_GRANT_TTL_NANOS) as u64), events),
            token,
            now,
        ) <==> now < granted_at + ACCESS_GRANT_TTL_NANOS,
{
    let expiry = (granted_at + ACCESS_GRANT_TTL_NANOS) as u64;
    lemma_session_kept(m, token, expiry, events);
    if now < expiry {
        assert forall|i: int| 0 <= i < events.len() implies (#[trigger] events[i] matches SessionEvent::Checked(t) ==> t < expiry) by {}
    }
}

proof fn lemma_sessions_come_from_grants(events: Seq<SessionEvent>, token: Seq<char>)
    ensures
        ({
            let m = sessions_after(Map::empty(), events);
            m.contains_key(token) ==> exists|i: int| 0 <= i < events.len()
                && #[trigger] events[i] == SessionEvent::Granted(token, m[token])
        }),
    decreases events.len(),
{
    if events.len() > 0 {
        let rest = events.drop_last();
        lemma_sessions_come_from_grants(rest, token);
        let before = sessions_after(Map::empty(), rest);
        let m = sessions_after(Map::empty(), events);
        if m.contains_key(token) {
            match events.last() {
                SessionEvent::Checked(t) => {
                    assert(before.contains_key(token) && m[token] == before[token]);
                    let i = choose|i: int| 0 <= i < rest.len() && #[trigger] rest[i] == SessionEvent::Granted(token, before[token]);
                    assert(events[i] == rest[i]);
                },
                SessionEvent::Granted(k, e) => {
                    if k == token {
                        assert(events[events.len() - 1] == SessionEvent::Granted(token, m[token]));
                    } else {
                        assert(before.contains_key(token) && m[token] == before[token]);
                        let i = choose|i: int| 0 <= i < rest.len() && #[trigger] rest[i] == SessionEvent::Granted(token, before[token]);
                        assert(events[i] == rest[i]);
                    }
                },
            }
        }
    }
}

/// Only tokens handed out by an accepted unlock open sessions: starting from
/// no session (as `AccessControl::new` does), after any run of requests and
/// unlocks a token opens a session at `now` only if an unlock handed it out
/// with an expiry later than `now`.
pub proof fn lemma_only_granted_tokens_open_sessions(events: Seq<SessionEvent>, token: Seq<char>, now: u64)
    ensures
        session_open(sessions_after(Map::empty(), events), token, now) ==> exists|i: int|
            0 <= i < events.len() && (#[trigger] events[i] matches SessionEvent::Granted(k, e) && k == token && e > now),
{
    lemma_sessions_come_from_grants(events, token);
    let m = sessions_after(Map::empty(), events);
    if session_open(m, token, now) {
        let i = choose|i: int| 0 <= i < events.len() && #[trigger] events[i] == SessionEvent::Granted(token, m[token]);
        assert(events[i] == SessionEvent::Granted(token, m[token]) && m[token] > now);
    }
}

/// The refusal of a request without access.
#[derive(Debug, Clone, Copy, PartialEq, Eq, Structural)]
pub enum AccessDenied {
    /// The request carries no token of an open session.
    UnlockRequired,
}

impl AccessDenied {
    /// The text of the refusal.
    pub fn message(&self) -> (r: String)
        ensures
            r@ == "Unlock required"@,
    {
        "Unlock required".to_owned()
    }
}

/// Lets a request through when `token` opens a session at `now` (session
/// clock), else refuses it: unlock required.
pub fn ensure_has_access(access_control: &mut AccessControl, token: Option<&String>, now: u64) -> (r: Result<(), AccessDenied>)
    requires
        old(access_control).wf(),
    ensures
        final(access_control).wf(),
        r is Ok <==> (token is Some && session_open(old(access_control).sessions(), token.unwrap()@, now)),
        r is Err ==> r == Err::<(), AccessDenied>(AccessDenied::UnlockRequired),
        token is None ==> final(access_control).sessions() == old(access_control).sessions(),
        token is Some ==> final(access_control).sessions() == keep_where(old(access_control).sessions(), |e: u64| e > now),
        final(access_control).guards() == old(access_control).guards(),
        final(access_control).pattern() == old(access_control).pattern(),
{
    if access_control.has_access(token, now) {
        Ok(())
    } else {
        Err(AccessDenied::UnlockRequired)
    }
}

proof fn lemma_digits_only_of_digits(s: Seq<char>)
    requires
        forall|j: int| 0 <= j < s.len() ==> #[trigger] is_ascii_digit(s[j]),
    ensures
        digits_only(s) == s,
    decreases s.len(),
{
    if s.len() > 0 {
        lemma_digits_only_of_digits(s.drop_last());
        assert(s.drop_last().push(s.last()) =~= s);
    }
}

/// A normalised pattern is its own normal form.
pub proof fn lemma_normalized_pattern_idempotent(p: Seq<char>)
    requires
        exists|s: Seq<char>| normalized_pattern(s) == Ok::<Seq<char>, PatternError>(p),
    ensures
        normalized_pattern(p) == Ok::<Seq<char>, PatternError>(p),
{
    let s = choose|s: Seq<char>| normalized_pattern(s) == Ok::<Seq<char>, PatternError>(p);
    lemma_digits_only_digits(s);
    lemma_digits_only_of_digits(p);
}


/// Three wrong patterns in a row from a client that had not failed before
/// block it: the first two are refused as not accepted, the third as too many
/// attempts, and any attempt of that client in the three hours after the third,
/// with the right pattern or not, is refused as blocked.
pub proof fn lemma_three_failures_block_client(
    m: Map<Seq<char>, UnlockGuard>,
    client: Seq<char>,
    t1: u64,
    t2: u64,
    t3: u64,
    t4: u64,
    matches4: bool,
)
    requires
        guard_of(m, client) == fresh_guard(),
        t1 <= u64::MAX - 10800,
        t2 <= u64::MAX - 10800,
        t3 <= u64::MAX - 10800,
        t3 <= t4 < t3 + 10800,
    ensures
        ({
            let (s1, m1) = decide_unlock_spec(m, client, false, t1);
            let (s2, m2) = decide_unlock_spec(m1, client, false, t2);
            let (s3, m3) = decide_unlock_spec(m2, client, false, t3);
            let (s4, m4) = decide_unlock_spec(m3, client, matches4, t4);
            &&& s1 == UnlockStep::NotAccepted
            &&& s2 == UnlockStep::NotAccepted
            &&& s3 == UnlockStep::TooManyAttempts
            &&& s4 == UnlockStep::Blocked
            &&& m4 == m3
        }),
{
}

/// A block outlives the instance that recorded it: the guards saved after a
/// client's third failure (`unlock_guard_entries`) and loaded into a new
/// access control (`set_unlock_guards`) are the same guards, so every attempt
/// of that client in the three hours after the third failure, with the right
/// pattern or not, is still refused as blocked and changes nothing.
pub proof fn lemma_block_survives_reload(
    m: Map<Seq<char>, UnlockGuard>,
    client: Seq<char>,
    t1: u64,
    t2: u64,
    t3: u64,
    t4: u64,
    matches4: bool,
    saved: Seq<(String, UnlockGuard)>,
)
    requires
        guard_of(m, client) == fresh_guard(),
        t1 <= u64::MAX - 10800,
        t2 <= u64::MAX - 10800,
        t3 <= u64::MAX - 10800,
        t3 <= t4 < t3 + 10800,
        ({
            let (s1, m1) = decide_unlock_spec(m, client, false, t1);
            let (s2, m2) = decide_unlock_spec(m1, client, false, t2);
            let (s3, m3) = decide_unlock_spec(m2, client, false, t3);
            crate::assoc::assoc_map(saved) == m3
        }),
    ensures
        ({
            let loaded = crate::assoc::assoc_map(saved);
            decide_unlock_spec(loaded, client, matches4, t4) == (UnlockStep::Blocked, loaded)
        }),
{
    lemma_three_failures_block_client(m, client, t1, t2, t3, t4, matches4);
}

/// Once the block of a client has run out, its next attempt is decided again:
/// the right pattern is accepted, and a wrong one counts as its first failure.
pub proof fn lemma_block_runs_out(m: Map<Seq<char>, UnlockGuard>, client: Seq<char>, blocked_until: u64, now: u64)
    requires
        guard_of(m, client).blocked_until == Some(blocked_until),
        guard_of(m, client).failed_attempts == 0,
        blocked_until <= now <= u64::MAX - 10800,
    ensures
        decide_unlock_spec(m, client, true, now).0 == UnlockStep::Accepted,
        decide_unlock_spec(m, client, false, now).0 == UnlockStep::NotAccepted,
        guard_of(decide_unlock_spec(m, client, false, now).1, client)
            == (UnlockGuard { failed_attempts: 1, blocked_until: None }),
{
}

/// An accepted attempt leaves the client with a fresh guard, and no guard that
/// holds nothing stays stored.
pub proof fn lemma_accepted_unlock_resets_guard(m: Map<Seq<char>, UnlockGuard>, client: Seq<char>, now: u64)
    requires
        !guard_blocked(guard_of(m, client), now),
    ensures
        ({
            let (step, m2) = decide_unlock_spec(m, client, true, now);
            &&& step == UnlockStep::Accepted
            &&& guard_of(m2, client) == fresh_guard()
            &&& forall|k: Seq<char>| m2.contains_key(k) ==> m2[k] != fresh_guard()
        }),
{
}

/// An unlock attempt of one client leaves the guard of every other client as it
/// was.
pub proof fn lemma_other_clients_unaffected(
    m: Map<Seq<char>, UnlockGuard>,
    client: Seq<char>,
    other: Seq<char>,
    matches: bool,
    now: u64,
)
    requires
        client != other,
        now <= u64::MAX - 10800,
    ensures
        guard_of(decide_unlock_spec(m, client, matches, now).1, other) == guard_of(m, other),
{
}

/// A granted token opens access until its session runs out, and not after.
pub proof fn lemma_granted_token_opens_until_expiry(
    m: Map<Seq<char>, u64>,
    token: Seq<char>,
    granted_at: u64,
    now: u64,
)
    requires
        granted_at <= u64::MAX - ACCESS_GRANT_TTL_NANOS,
    ensures
        session_open(m.insert(token, (granted_at + ACCESS_GRANT_TTL_NANOS) as u64), token, now)
            <==> now < granted_at + ACCESS_GRANT_TTL_NANOS,
{
}


/// An error answer of the web back end: an HTTP status code and a text.
#[derive(Debug, Clone)]
pub struct WebBackEndError {
    pub status: u16,
    pub message: String,
}

/// HTTP 401, for a request without access.
pub const STATUS_UNAUTHORIZED: u16 = 401;
/// HTTP 423, for a client whose unlock is blocked.
pub const STATUS_LOCKED: u16 = 423;
/// HTTP 500, for a failure of the back end.
pub const STATUS_INTERNAL_SERVER_ERROR: u16 = 500;

impl WebBackEndError {
    /// A refusal for want of access: status 401.
    pub fn unauthorized(message: String) -> (r: Self)
        ensures
            r.status == STATUS_UNAUTHORIZED,
            r.message@ == message@,
    {
        WebBackEndError { status: STATUS_UNAUTHORIZED, message }
    }

    /// A refusal of a blocked client: status 423.
    pub fn blocked(message: String) -> (r: Self)
        ensures
            r.status == STATUS_LOCKED,
            r.message@ == message@,
    {
        WebBackEndError { status: STATUS_LOCKED, message }
    }

    /// A failure of the back end: status 500.
    pub fn internal(message: String) -> (r: Self)
        ensures
            r.status == STATUS_INTERNAL_SERVER_ERROR,
            r.message@ == message@,
    {
        WebBackEndError { status: STATUS_INTERNAL_SERVER_ERROR, message }
    }
}

/// The answer to an unlock attempt: the grant of an unlock; 401 `Pattern not
/// accepted` for a wrong pattern; 423 `Too many attempts, access blocked` for
/// a blocked client.
pub fn unlock_response(result: UnlockAttemptResult) -> (r: Result<AccessGrant, WebBackEndError>)
    ensures
        match result {
            UnlockAttemptResult::Unlocked(grant) => r matches Ok(g) && g.access_token@ == grant.access_token@
                && g.expires_in_seconds == grant.expires_in_seconds,
            UnlockAttemptResult::PatternNotAccepted => r matches Err(e) && e.status == STATUS_UNAUTHORIZED
                && e.message@ == "Pattern not accepted"@,
            UnlockAttemptResult::TooManyAttempts => r matches Err(e) && e.status == STATUS_LOCKED
                && e.message@ == "Too many attempts, access blocked"@,
        },
{
    match result {
        UnlockAttemptResult::Unlocked(grant) => Ok(grant),
        UnlockAttemptResult::PatternNotAccepted => Err(WebBackEndError::unauthorized("Pattern not accepted".to_owned())),
        UnlockAttemptResult::TooManyAttempts => Err(WebBackEndError::blocked("Too many attempts, access blocked".to_owned())),
    }
}

/// The answer to a request refused for want of access: 401 `Unlock required`.
pub fn access_denied_response(denied: AccessDenied) -> (r: WebBackEndError)
    ensures
        r.status == STATUS_UNAUTHORIZED,
        r.message@ == "Unlock required"@,
{
    WebBackEndError::unauthorized(denied.message())
}

} // verus!
