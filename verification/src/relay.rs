//! The mailbox relay's rules: its configuration, who it lets in, which
//! requests it refuses, how long a poll may wait, and the order in which it
//! hands messages out.

use vstd::prelude::*;
use vstd::string::StringSliceAdditionalSpecFns;
use vstd::utf8::{decode_utf8, encode_utf8, valid_utf8};

use crate::codec::{spec_standard_decode, spec_url_safe_decode, url_safe_encoding, standard_decode, url_safe_decode, url_safe_encode};
use crate::text::{
    after_first, all_digits, eq_ignore_ascii_case, eq_ignore_case_spec, is_prefix, own, split_after, str_eq,
    strip_prefix, trim, trim_spec,
};
use crate::utf8::utf8_string;

verus! {

/// Longest a poll may block before returning empty.
pub const MAX_WAIT_SECS: u64 = 30;
/// How long a poll blocks when it names no wait.
pub const DEFAULT_WAIT_SECS: u64 = 25;
/// Per-topic ceiling on messages returned by one poll or list.
pub const FETCH_LIMIT: i64 = 200;
/// Ceiling on topics in one poll request.
pub const MAX_POLL_TOPICS: usize = 256;
/// Messages a list returns when it names no limit.
pub const DEFAULT_LIST_LIMIT: i64 = 100;
/// Days a message is kept when the configuration names none.
pub const DEFAULT_RETENTION_DAYS: i64 = 7;
/// Milliseconds in a day.
pub const DAY_MS: i64 = 86_400_000;

/// `std::time::SystemTime`, carried through opaque.
#[verifier::external_type_specification]
#[verifier::external_body]
pub struct ExSystemTime(std::time::SystemTime);

/// `std::time::SystemTime::now`. Trusted, with nothing claimed: the clock's
/// reading is the machine's.
#[verifier::external_body]
fn clock_now() -> (r: std::time::SystemTime) {
    std::time::SystemTime::now()
}

/// `SystemTime::duration_since(UNIX_EPOCH)`: the time elapsed since the epoch,
/// `None` for a reading before it. Trusted, with nothing claimed of the
/// duration: a `SystemTime` is opaque here, so no clause can tie the answer
/// to it.
#[verifier::external_body]
fn since_epoch(t: &std::time::SystemTime) -> (r: Option<std::time::Duration>) {
    match t.duration_since(std::time::UNIX_EPOCH) {
        Ok(d) => Some(d),
        Err(_) => None,
    }
}

/// `std::time::Duration::as_millis`. Trusted, with nothing claimed: a
/// `Duration` is opaque here.
#[verifier::external_body]
fn whole_millis(d: &std::time::Duration) -> (r: u128) {
    d.as_millis()
}

/// The milliseconds a clock reading stands for: its count since the epoch
/// truncated to `i64`, 0 for a reading before the epoch (`None`).
pub open spec fn epoch_millis_spec(d: Option<u128>) -> i64 {
    match d {
        Some(m) => #[verifier::truncate] (m as i64),
        None => 0,
    }
}

/// The milliseconds a clock reading stands for.
pub fn epoch_millis(d: Option<u128>) -> (r: i64)
    ensures
        r == epoch_millis_spec(d),
{
    match d {
        Some(m) => #[verifier::truncate] (m as i64),
        None => 0,
    }
}

/// Milliseconds since the Unix epoch by the system clock: 0 for a clock set
/// before the epoch, and the count truncated to `i64`.
pub fn now_ms() -> (r: i64)
    ensures
        exists|d: Option<u128>| r == epoch_millis_spec(d),
{
    let reading: Option<u128> = match since_epoch(&clock_now()) {
        Some(d) => Some(whole_millis(&d)),
        None => None,
    };
    let r = epoch_millis(reading);
    assert(r == epoch_millis_spec(reading));
    r
}

/// A refused request: the HTTP status and the reason given.
#[derive(Debug)]
pub struct RelayError {
    pub status: u16,
    pub message: String,
}

/// The message a relay that requires a token but has none fails to start
/// with.
pub open spec fn missing_token_message() -> Seq<char> {
    "RELAY_TOKEN must be set and non-empty (or set RELAY_NO_AUTH=1 for an open relay)"@
}

/// The Basic-auth token from configuration. An empty token fails exactly
/// like a missing one, else the relay would start with auth on and accept
/// any credential with an empty password.
pub fn resolve_token(no_auth: bool, raw: Option<String>) -> (r: Result<Option<String>, String>)
    ensures
        no_auth ==> r == Ok::<Option<String>, String>(None),
        !no_auth ==> match raw {
            Some(t) if t@.len() > 0 => r == Ok::<Option<String>, String>(Some(t)),
            _ => r matches Err(m) && m@ == missing_token_message(),
        },
{
    if no_auth {
        return Ok(None);
    }
    match raw {
        Some(t) => if t.as_str().is_empty() {
            Err(own("RELAY_TOKEN must be set and non-empty (or set RELAY_NO_AUTH=1 for an open relay)"))
        } else {
            Ok(Some(t))
        },
        None => Err(own("RELAY_TOKEN must be set and non-empty (or set RELAY_NO_AUTH=1 for an open relay)")),
    }
}

/// Whether `RELAY_NO_AUTH` opens the relay: `1`, or `true` in any case.
pub fn no_auth_flag(value: Option<&str>) -> (r: bool)
    ensures
        r == match value {
            Some(v) => v@ == "1"@ || eq_ignore_case_spec(v@, "true"@),
            None => false,
        },
{
    match value {
        Some(v) => str_eq(v, "1") || eq_ignore_ascii_case(v, "true"),
        None => false,
    }
}

/// The value of a run of decimal digits.
pub open spec fn digits_value(d: Seq<char>) -> int
    decreases d.len(),
{
    if d.len() == 0 {
        0
    } else {
        digits_value(d.drop_last()) * 10 + (d.last() as int - '0' as int)
    }
}

/// What `str::parse::<i64>` makes of `s`, as std documents it: an optional
/// `+` or `-` followed by one or more ASCII digits and nothing else, whose
/// value fits in an `i64`.
pub open spec fn parsed_i64(s: Seq<char>) -> Option<i64> {
    let negative = s.len() > 0 && s[0] == '-';
    let digits = if s.len() > 0 && (s[0] == '-' || s[0] == '+') { s.drop_first() } else { s };
    let value = if negative { -digits_value(digits) } else { digits_value(digits) };
    if digits.len() > 0 && all_digits(digits) && i64::MIN <= value <= i64::MAX {
        Some(value as i64)
    } else {
        None
    }
}

/// `str::parse::<i64>`, asked only for the number. Trusted: std's
/// documentation of `i64::from_str`, stated as [`parsed_i64`].
#[verifier::external_body]
fn parse_i64(s: &str) -> (r: Option<i64>)
    ensures
        r == parsed_i64(s@),
{
    s.parse::<i64>().ok()
}

/// The relay's configuration.
#[derive(Debug)]
pub struct Config {
    pub bind: String,
    pub db: String,
    pub token: Option<String>,
    pub retention_days: i64,
}

impl Config {
    /// The configuration from the values of `RELAY_BIND`, `RELAY_DB`,
    /// `RELAY_TOKEN`, `RELAY_NO_AUTH` and `RELAY_RETENTION_DAYS` (`None` when
    /// unset), with their defaults.
    pub fn from_vars(
        bind: Option<String>,
        db: Option<String>,
        token: Option<String>,
        no_auth: Option<String>,
        retention_days: Option<String>,
    ) -> (r: Result<Config, String>)
        ensures
            ({
                let open = match no_auth {
                    Some(v) => v@ == "1"@ || eq_ignore_case_spec(v@, "true"@),
                    None => false,
                };
                let has_token = match token {
                    Some(t) => t@.len() > 0,
                    None => false,
                };
                &&& r is Ok <==> (open || has_token)
                &&& r matches Err(m) ==> m@ == missing_token_message()
                &&& r matches Ok(c) ==> {
                    &&& c.bind@ == (match bind {
                        Some(b) => b@,
                        None => "0.0.0.0:8080"@,
                    })
                    &&& c.db@ == (match db {
                        Some(d) => d@,
                        None => "./relay.db"@,
                    })
                    &&& (open ==> c.token is None)
                    &&& (!open ==> c.token == token)
                    &&& c.retention_days == (match retention_days {
                        Some(s) => match parsed_i64(s@) {
                            Some(d) => d,
                            None => DEFAULT_RETENTION_DAYS,
                        },
                        None => DEFAULT_RETENTION_DAYS,
                    })
                }
            }),
    {
        let open = match &no_auth {
            Some(v) => no_auth_flag(Some(v.as_str())),
            None => no_auth_flag(None),
        };
        let token = match resolve_token(open, token) {
            Ok(t) => t,
            Err(m) => return Err(m),
        };
        let bind = match bind {
            Some(b) => b,
            None => own("0.0.0.0:8080"),
        };
        let db = match db {
            Some(d) => d,
            None => own("./relay.db"),
        };
        let retention_days = match &retention_days {
            Some(s) => match parse_i64(s.as_str()) {
                Some(d) => d,
                None => DEFAULT_RETENTION_DAYS,
            },
            None => DEFAULT_RETENTION_DAYS,
        };
        Ok(Config { bind, db, token, retention_days })
    }
}

/// Whether an `Authorization` header carries `token`: `Basic ` followed by
/// standard base64 (white space around it ignored) of UTF-8 text
/// `user:password` whose password, after the first colon, is the token; the
/// user is ignored.
pub open spec fn basic_ok(header: Seq<char>, token: Seq<char>) -> bool {
    let prefix = "Basic "@;
    is_prefix(prefix, header) && {
        let b64 = trim_spec(header.subrange(prefix.len() as int, header.len() as int));
        match spec_standard_decode(vstd::utf8::encode_utf8(b64)) {
            Some(bytes) => valid_utf8(bytes) && after_first(decode_utf8(bytes), ':') == Some(token),
            None => false,
        }
    }
}

/// The user name is ignored: a `Basic` header whose credentials are any user
/// name without a colon (the empty one too), a colon and the token is
/// accepted, and so is none whose text after the first colon differs from
/// the token.
pub proof fn lemma_basic_auth_ignores_the_user(b64: Seq<char>, user: Seq<char>, password: Seq<char>, token: Seq<char>)
    requires
        !user.contains(':'),
        spec_standard_decode(encode_utf8(trim_spec(b64))) == Some(encode_utf8(user + seq![':'] + password)),
    ensures
        basic_ok("Basic "@ + b64, token) <==> password == token,
{
    reveal_strlit("Basic ");
    let header = "Basic "@ + b64;
    let prefix = "Basic "@;
    assert(header.subrange(0, prefix.len() as int) =~= prefix);
    assert(header.subrange(prefix.len() as int, header.len() as int) =~= b64);
    let creds = user + seq![':'] + password;
    vstd::utf8::encode_utf8_valid_utf8(creds);
    vstd::utf8::encode_utf8_decode_utf8(creds);
    crate::text::lemma_after_first_skips_the_head(user, ':', password);
}

/// Validate an `Authorization: Basic ...` header against the shared token.
pub fn check_basic(header: &str, token: &str) -> (r: bool)
    ensures
        r == basic_ok(header@, token@),
{
    let b64 = match strip_prefix(header, "Basic ") {
        Some(rest) => rest,
        None => return false,
    };
    let trimmed = trim(b64);
    let decoded = match standard_decode(trimmed.as_bytes()) {
        Some(bytes) => bytes,
        None => return false,
    };
    let ghost bytes = decoded@;
    let creds = match utf8_string(decoded) {
        Some(s) => s,
        None => return false,
    };
    match split_after(creds.as_str(), ':') {
        Some(pass) => str_eq(pass, token),
        None => false,
    }
}

/// Whether a request may pass: every one when the relay is open, else one
/// whose `Authorization` header carries the token.
pub fn authorize(token: Option<&str>, header: Option<&str>) -> (r: bool)
    ensures
        r == match token {
            None => true,
            Some(t) => match header {
                Some(h) => basic_ok(h@, t@),
                None => false,
            },
        },
{
    match token {
        None => true,
        Some(t) => match header {
            Some(h) => check_basic(h, t),
            None => false,
        },
    }
}

/// The envelope bytes of a publish to `topic` with body `data`, or the
/// `400` it is refused with: an empty topic, or data that is not URL-safe
/// base64.
pub fn accept_publish(topic: &str, data: &str) -> (r: Result<Vec<u8>, RelayError>)
    ensures
        topic@.len() == 0 ==> (r matches Err(e) && e.status == 400 && e.message@ == "topic must not be empty"@),
        topic@.len() > 0 ==> match spec_url_safe_decode(data.spec_bytes()) {
            Ok(bytes) => r matches Ok(v) && v@ == bytes,
            Err(reason) => r matches Err(e) && e.status == 400 && e.message@
                == "data is not valid base64url: "@ + reason,
        },
        topic@.len() > 0 ==> forall|d: Seq<u8>|
            data@ == #[trigger] url_safe_encoding(d) ==> (r matches Ok(v) && v@ == d),
{
    if topic.is_empty() {
        return Err(RelayError { status: 400, message: own("topic must not be empty") });
    }
    match url_safe_decode(data.as_bytes()) {
        Ok(bytes) => Ok(bytes),
        Err(reason) => Err(
            RelayError {
                status: 400,
                message: crate::text::concat2("data is not valid base64url: ", reason.as_str()),
            },
        ),
    }
}

/// The `400` a poll naming more than [`MAX_POLL_TOPICS`] topics is refused
/// with, which bounds the queries one request fans out to.
pub fn check_poll_topics(count: usize) -> (r: Result<(), RelayError>)
    ensures
        count <= MAX_POLL_TOPICS <==> r is Ok,
        r matches Err(e) ==> e.status == 400 && e.message@ == "too many topics in one poll (max 256)"@,
{
    if count > MAX_POLL_TOPICS {
        Err(RelayError { status: 400, message: own("too many topics in one poll (max 256)") })
    } else {
        Ok(())
    }
}

/// How long a poll may block: what it asked, 25 s when it asked nothing, and
/// never more than 30 s.
pub fn poll_wait_secs(requested: Option<u64>) -> (r: u64)
    ensures
        r == (match requested {
            Some(w) => if w < MAX_WAIT_SECS { w } else { MAX_WAIT_SECS },
            None => DEFAULT_WAIT_SECS,
        }),
        r <= MAX_WAIT_SECS,
{
    let w = match requested {
        Some(w) => w,
        None => DEFAULT_WAIT_SECS,
    };
    if w < MAX_WAIT_SECS {
        w
    } else {
        MAX_WAIT_SECS
    }
}

/// A list's limit clamped to the same per-topic ceiling poll uses: a
/// negative SQL `LIMIT` means "unbounded" to sqlite, which would dump the
/// topic.
pub fn list_limit(limit: i64) -> (r: i64)
    ensures
        1 <= r <= FETCH_LIMIT,
        1 <= limit <= FETCH_LIMIT ==> r == limit,
        limit < 1 ==> r == 1,
        limit > FETCH_LIMIT ==> r == FETCH_LIMIT,
{
    if limit < 1 {
        1
    } else if limit > FETCH_LIMIT {
        FETCH_LIMIT
    } else {
        limit
    }
}

/// The limit of a list that names none.
pub fn default_limit() -> (r: i64)
    ensures
        r == DEFAULT_LIST_LIMIT,
{
    DEFAULT_LIST_LIMIT
}

/// The time before which a retention sweep deletes messages, `None` when
/// retention is off (zero or fewer days).
pub fn retention_cutoff(now_ms: i64, days: i64) -> (r: Option<i64>)
    requires
        days > 0 ==> days * DAY_MS <= i64::MAX && now_ms - days * DAY_MS >= i64::MIN,
    ensures
        days <= 0 ==> r is None,
        days > 0 ==> r == Some((now_ms - days * DAY_MS) as i64),
{
    if days <= 0 {
        return None;
    }
    Some(now_ms - days * DAY_MS)
}

/// A message as the store holds it.
#[derive(Debug)]
pub struct StoredMessage {
    pub topic: String,
    pub seq: i64,
    pub ts_ms: i64,
    pub data: Vec<u8>,
}

/// A topic's statistics.
#[derive(Debug)]
pub struct TopicStat {
    pub topic: String,
    pub count: i64,
    pub last_seq: i64,
    pub last_ts_ms: i64,
    pub bytes: i64,
}

/// A message as the relay hands it out, its bytes URL-safe base64.
#[derive(Debug)]
pub struct MsgOut {
    pub topic: String,
    pub seq: i64,
    pub ts_ms: i64,
    pub data: String,
}

/// A stored message as handed out.
pub fn msg_out(m: StoredMessage) -> (r: MsgOut)
    requires
        m.data@.len() <= usize::MAX / 2,
    ensures
        r.topic == m.topic,
        r.seq == m.seq,
        r.ts_ms == m.ts_ms,
        r.data@ == url_safe_encoding(m.data@),
{
    let data = url_safe_encode(m.data.as_slice());
    MsgOut { topic: m.topic, seq: m.seq, ts_ms: m.ts_ms, data }
}

/// The order messages are handed out in: by sequence number, then by time,
/// which keeps each topic's messages in the order the relay appended them.
pub open spec fn key_le(a: MsgOut, b: MsgOut) -> bool {
    a.seq < b.seq || (a.seq == b.seq && a.ts_ms <= b.ts_ms)
}

/// Messages in hand-out order.
pub open spec fn sorted(s: Seq<MsgOut>) -> bool {
    forall|i: int, j: int| 0 <= i < j < s.len() ==> key_le(s[i], s[j])
}

/// No two messages share a topic and a sequence number, as the store's key
/// guarantees of what it hands out.
pub open spec fn distinct_keys(s: Seq<MsgOut>) -> bool {
    forall|i: int, j: int|
        0 <= i < j < s.len() ==> !(s[i].topic@ == s[j].topic@ && s[i].seq == s[j].seq)
}

proof fn lemma_keys_stay_distinct(v: Seq<MsgOut>, r: Seq<MsgOut>)
    requires
        distinct_keys(v),
        r.to_multiset() == v.to_multiset(),
    ensures
        distinct_keys(r),
{
    broadcast use vstd::seq_lib::group_to_multiset_ensures;

    assert(v.no_duplicates()) by {
        assert forall|i: int, j: int| 0 <= i < v.len() && 0 <= j < v.len() && i != j implies v[i] != v[j] by {
            if i < j {
                assert(!(v[i].topic@ == v[j].topic@ && v[i].seq == v[j].seq));
            } else {
                assert(!(v[j].topic@ == v[i].topic@ && v[j].seq == v[i].seq));
            }
        }
    }
    v.lemma_multiset_has_no_duplicates();
    r.lemma_multiset_has_no_duplicates_conv();
    assert forall|i: int, j: int| 0 <= i < j < r.len() implies !(r[i].topic@ == r[j].topic@ && r[i].seq
        == r[j].seq) by {
        assert(r.contains(r[i]));
        assert(r.contains(r[j]));
        assert(r.to_multiset().count(r[i]) > 0);
        assert(r.to_multiset().count(r[j]) > 0);
        assert(v.to_multiset().count(r[i]) > 0);
        assert(v.to_multiset().count(r[j]) > 0);
        assert(v.contains(r[i]));
        assert(v.contains(r[j]));
        let k = choose|k: int| 0 <= k < v.len() && v[k] == r[i];
        let l = choose|l: int| 0 <= l < v.len() && v[l] == r[j];
        assert(r[i] != r[j]);
        if k < l {
            assert(!(v[k].topic@ == v[l].topic@ && v[k].seq == v[l].seq));
        } else {
            assert(!(v[l].topic@ == v[k].topic@ && v[l].seq == v[k].seq));
        }
    }
}

fn key_gt(a: &MsgOut, b: &MsgOut) -> (r: bool)
    ensures
        r == !key_le(*a, *b),
{
    a.seq > b.seq || (a.seq == b.seq && a.ts_ms > b.ts_ms)
}

/// The messages of several topics in hand-out order: the same messages,
/// sorted by sequence number and then time, so that each topic's messages
/// come out in sequence order.
pub fn sort_messages(v: Vec<MsgOut>) -> (r: Vec<MsgOut>)
    ensures
        r@.to_multiset() == v@.to_multiset(),
        sorted(r@),
        forall|i: int, j: int|
            0 <= i < j < r@.len() && r@[i].topic@ == r@[j].topic@ ==> r@[i].seq <= r@[j].seq,
        distinct_keys(v@) ==> forall|i: int, j: int|
            0 <= i < j < r@.len() && r@[i].topic@ == r@[j].topic@ ==> r@[i].seq < r@[j].seq,
{
    broadcast use {vstd::seq_lib::to_multiset_remove, vstd::seq_lib::to_multiset_insert};

    let ghost input = v@;
    let mut v = v;
    let n = v.len();
    if n == 0 {
        return v;
    }
    let mut i: usize = 1;
    while i < n
        invariant
            n == v@.len(),
            1 <= i <= n,
            v@.to_multiset() == input.to_multiset(),
            forall|a: int, b: int| 0 <= a < b < i ==> key_le(v@[a], v@[b]),
        decreases n - i,
    {
        let ghost before = v@;
        let x = v.remove(i);
        let mut j: usize = i;
        while j > 0 && key_gt(&v[j - 1], &x)
            invariant
                v@ == before.remove(i as int),
                j <= i,
                i < before.len(),
                forall|k: int| j <= k < i ==> !key_le(#[trigger] v@[k], x),
            decreases j,
        {
            j = j - 1;
        }
        let ghost mid = v@;
        v.insert(j, x);
        proof {
            assert(v@ == mid.insert(j as int, x));
            broadcast use vstd::multiset::group_multiset_axioms;
            assert(before[i as int] == x);
            assert(before.to_multiset().count(x) > 0) by {
                broadcast use vstd::seq_lib::to_multiset_contains;
                assert(before.contains(x));
            }
            assert(mid == before.remove(i as int));
            vstd::seq_lib::to_multiset_remove(before, i as int);
            vstd::seq_lib::to_multiset_insert(mid, j as int, x);
            assert(mid.to_multiset() == before.to_multiset().remove(x));
            assert(mid.insert(j as int, x).to_multiset() == mid.to_multiset().insert(x));
            assert(v@.to_multiset() =~= before.to_multiset());
            assert forall|a: int, b: int| 0 <= a < b < i + 1 implies key_le(v@[a], v@[b]) by {
                if b < j {
                    assert(v@[a] == before[a] && v@[b] == before[b]);
                } else if b == j {
                    assert(v@[a] == before[a]);
                    if (j as int) < i {
                        assert(v@[a] == mid[a]);
                    }
                    assert(key_le(before[a], before[j - 1]) || a == j - 1);
                } else if a == j {
                    assert(v@[b] == mid[b - 1]);
                    assert(!key_le(mid[b - 1], x));
                } else if a < j {
                    assert(v@[a] == before[a]);
                    assert(v@[b] == mid[b - 1]);
                    assert(mid[b - 1] == before[b - 1]);
                } else {
                    assert(v@[a] == mid[a - 1] && mid[a - 1] == before[a - 1]);
                    assert(v@[b] == mid[b - 1] && mid[b - 1] == before[b - 1]);
                }
            }
        }
        i = i + 1;
    }
    assert forall|a: int, b: int|
        0 <= a < b < v@.len() && v@[a].topic@ == v@[b].topic@ implies v@[a].seq <= v@[b].seq by {
        assert(key_le(v@[a], v@[b]));
    }
    proof {
        if distinct_keys(input) {
            lemma_keys_stay_distinct(input, v@);
        }
    }
    v
}

} // verus!
