//! The HTTP mailbox transport's decisions: the relay endpoint and
//! credentials it derives from its URL, the per-topic cursors its poller
//! advances, and the back-off and give-up rules of its retries.

use vstd::prelude::*;
use vstd::utf8::encode_utf8;

use crate::codec::{spec_url_safe_decode, url_safe_decode, url_safe_encoding};
use crate::delivery::DeliveryStateKind;
use crate::text::{concat2, opt_view, own, str_eq};

verus! {

/// How long the poller asks the relay to hold a request open.
pub const POLL_WAIT_SECS: u64 = 5;
/// Shortest back-off between failed attempts.
pub const BACKOFF_MIN_MS: u64 = 250;
/// Longest back-off between failed attempts.
pub const BACKOFF_MAX_MS: u64 = 8000;
/// Wall-clock budget for retrying one outbound envelope.
pub const SEND_MAX_ELAPSED_MS: u64 = 15_000;
/// Step of an interruptible sleep.
pub const SLEEP_STEP_MS: u64 = 100;

/// The back-off after another failure: doubled, capped at the maximum.
pub open spec fn next_backoff_spec(b: u64) -> u64 {
    if 2 * b < BACKOFF_MAX_MS { (2 * b) as u64 } else { BACKOFF_MAX_MS }
}

/// The back-off after another failure.
pub fn next_backoff(b: u64) -> (r: u64)
    ensures
        r == next_backoff_spec(b),
        BACKOFF_MIN_MS <= b ==> BACKOFF_MIN_MS <= r <= BACKOFF_MAX_MS,
{
    if b < BACKOFF_MAX_MS / 2 {
        2 * b
    } else {
        BACKOFF_MAX_MS
    }
}

/// The back-off, however many failures in a row, stays between its minimum
/// and its maximum.
pub proof fn lemma_backoff_bounded(b: u64, failures: nat)
    requires
        BACKOFF_MIN_MS <= b <= BACKOFF_MAX_MS,
    ensures
        BACKOFF_MIN_MS <= backoff_after(b, failures) <= BACKOFF_MAX_MS,
    decreases failures,
{
    if failures > 0 {
        lemma_backoff_bounded(b, (failures - 1) as nat);
    }
}

/// The back-off after `failures` more failures.
pub open spec fn backoff_after(b: u64, failures: nat) -> u64
    decreases failures,
{
    if failures == 0 {
        b
    } else {
        next_backoff_spec(backoff_after(b, (failures - 1) as nat))
    }
}

/// One step of a sleep of `total` milliseconds, `slept` of them done: at
/// most [`SLEEP_STEP_MS`], so a stop request waits no longer than that.
pub fn nap_ms(total: u64, slept: u64) -> (r: u64)
    requires
        slept < total,
    ensures
        r == (if SLEEP_STEP_MS < total - slept { SLEEP_STEP_MS } else { (total - slept) as u64 }),
        0 < r <= SLEEP_STEP_MS,
{
    let left = total - slept;
    if SLEEP_STEP_MS < left {
        SLEEP_STEP_MS
    } else {
        left
    }
}

/// Whether retrying an envelope has used up its budget, so it is dropped
/// and the sender moves on.
pub fn give_up(elapsed_ms: u64) -> (r: bool)
    ensures
        r == (elapsed_ms >= SEND_MAX_ELAPSED_MS),
{
    elapsed_ms >= SEND_MAX_ELAPSED_MS
}

/// The Basic-auth credentials lifted out of the transport URL's userinfo:
/// none when it names neither a user nor a password, else the user and the
/// password (empty when absent).
pub fn relay_auth(user: &str, password: Option<&str>) -> (r: Option<(String, String)>)
    ensures
        (user@.len() == 0 && password is None) <==> r is None,
        r matches Some((u, p)) ==> u@ == user@ && p@ == (match password {
            Some(q) => q@,
            None => Seq::<char>::empty(),
        }),
{
    if user.is_empty() && password.is_none() {
        None
    } else {
        let p = match password {
            Some(q) => own(q),
            None => String::new(),
        };
        Some((own(user), p))
    }
}

/// `s` with every trailing `c` removed, what `trim_end_matches` answers.
pub open spec fn trim_end_char(s: Seq<char>, c: char) -> Seq<char>
    decreases s.len(),
{
    if s.len() > 0 && s.last() == c {
        trim_end_char(s.drop_last(), c)
    } else {
        s
    }
}

proof fn lemma_trim_end_char(s: Seq<char>, c: char, j: int)
    requires
        0 <= j <= s.len(),
        forall|k: int| j <= k < s.len() ==> #[trigger] s[k] == c,
        j == 0 || s[j - 1] != c,
    ensures
        trim_end_char(s, c) == s.take(j),
    decreases s.len() - j,
{
    if j == s.len() {
        assert(s.take(j) =~= s);
    } else {
        assert(s.drop_last().take(j) =~= s.take(j));
        lemma_trim_end_char(s.drop_last(), c, j);
    }
}

/// The relay's two endpoints under `base` (the transport URL without its
/// userinfo), trailing slashes dropped: where envelopes are published, and
/// where the poller long-polls.
pub fn relay_endpoints(base: &str) -> (r: (String, String))
    ensures
        r.0@ == trim_end_char(base@, '/') + "/v1/messages"@,
        r.1@ == trim_end_char(base@, '/') + "/v1/poll"@,
{
    let n = base.unicode_len();
    let mut j: usize = n;
    while j > 0 && base.get_char(j - 1) == '/'
        invariant
            n == base@.len(),
            j <= n,
            forall|k: int| j <= k < n ==> #[trigger] base@[k] == '/',
        decreases j,
    {
        j = j - 1;
    }
    proof {
        lemma_trim_end_char(base@, '/', j as int);
    }
    let trimmed = base.substring_char(0, j);
    assert(trimmed@ =~= base@.take(j as int));
    (concat2(trimmed, "/v1/messages"), concat2(trimmed, "/v1/poll"))
}

/// What `reqwest::Url::parse` makes of a transport URL: its user name, its
/// password, and the URL with both removed, as text; or the text of the parse
/// error.
pub uninterp spec fn spec_parse_transport_url(text: Seq<char>) -> Result<
    (Seq<char>, Option<Seq<char>>, Seq<char>),
    Seq<char>,
>;

/// `reqwest::Url::parse`, then the URL's `username` and `password`, and its
/// text once `set_username("")` and `set_password(None)` have removed them.
/// Trusted: the answer is named [`spec_parse_transport_url`] of the text.
#[verifier::external_body]
fn parse_transport_url(text: &str) -> (r: Result<(String, Option<String>, String), String>)
    ensures
        match r {
            Ok((user, password, base)) => spec_parse_transport_url(text@) == Ok::<
                (Seq<char>, Option<Seq<char>>, Seq<char>),
                Seq<char>,
            >((user@, opt_view(password), base@)),
            Err(e) => spec_parse_transport_url(text@) == Err::<(Seq<char>, Option<Seq<char>>, Seq<char>), Seq<char>>(
                e@,
            ),
        },
{
    match reqwest::Url::parse(text) {
        Ok(mut url) => {
            let user = url.username().to_string();
            let password = url.password().map(str::to_string);
            let _ = url.set_username("");
            let _ = url.set_password(None);
            Ok((user, password, url.as_str().to_string()))
        },
        Err(e) => Err(e.to_string()),
    }
}

/// Where and as whom the transport reaches its relay.
#[derive(Debug)]
pub struct RelayTarget {
    /// Basic-auth credentials, when the URL names any.
    pub auth: Option<(String, String)>,
    /// Where envelopes are published.
    pub messages_url: String,
    /// Where the poller long-polls.
    pub poll_url: String,
}

/// The relay a transport URL names: its credentials lifted out of the
/// userinfo and its two endpoints under what remains; a URL that does not
/// parse is refused with the parser's reason.
pub fn relay_target(transport_url: &str) -> (r: Result<RelayTarget, String>)
    ensures
        match spec_parse_transport_url(transport_url@) {
            Err(e) => r matches Err(m) && m@ == "invalid transport_url: "@ + e,
            Ok((user, password, base)) => r matches Ok(t) && {
                &&& (t.auth is None <==> (user.len() == 0 && password is None))
                &&& (t.auth matches Some((u, p)) ==> u@ == user && p@ == (match password {
                    Some(q) => q,
                    None => Seq::<char>::empty(),
                }))
                &&& t.messages_url@ == trim_end_char(base, '/') + "/v1/messages"@
                &&& t.poll_url@ == trim_end_char(base, '/') + "/v1/poll"@
            },
        },
{
    match parse_transport_url(transport_url) {
        Err(e) => Err(concat2("invalid transport_url: ", e.as_str())),
        Ok((user, password, base)) => {
            let auth = match &password {
                Some(p) => relay_auth(user.as_str(), Some(p.as_str())),
                None => relay_auth(user.as_str(), None),
            };
            let (messages_url, poll_url) = relay_endpoints(base.as_str());
            Ok(RelayTarget { auth, messages_url, poll_url })
        },
    }
}

/// What a relay reply means: success, or a failure naming its status.
pub fn reply_outcome(success: bool, what: &str, status: &str) -> (r: Result<(), String>)
    ensures
        success <==> r is Ok,
        r matches Err(m) ==> m@ == "relay "@ + what@ + " returned HTTP "@ + status@,
{
    if success {
        Ok(())
    } else {
        let a = crate::text::concat3("relay ", what, " returned HTTP ");
        Err(concat2(a.as_str(), status))
    }
}

/// A message the relay answers a poll with.
#[derive(Debug)]
pub struct PollMessage {
    pub topic: String,
    pub seq: i64,
    /// URL-safe base64 of the envelope bytes.
    pub data: String,
}

/// The poller's per-topic cursors: the last sequence number it has seen on
/// each subscribed topic.
#[derive(Debug)]
pub struct Cursors {
    entries: Vec<(String, i64)>,
}

impl View for Cursors {
    type V = Seq<(Seq<char>, i64)>;

    closed spec fn view(&self) -> Seq<(Seq<char>, i64)> {
        self.entries@.map_values(|e: (String, i64)| (e.0@, e.1))
    }
}

/// Whether `topic` has a cursor.
pub open spec fn has_cursor(c: Seq<(Seq<char>, i64)>, topic: Seq<char>) -> bool {
    exists|i: int| 0 <= i < c.len() && c[i].0 == topic
}

/// The cursor of `topic` (0 when it has none).
pub open spec fn cursor_of(c: Seq<(Seq<char>, i64)>, topic: Seq<char>) -> i64 {
    if has_cursor(c, topic) {
        c[choose|i: int| 0 <= i < c.len() && c[i].0 == topic].1
    } else {
        0
    }
}

/// No topic has two cursors.
pub open spec fn cursors_wf(c: Seq<(Seq<char>, i64)>) -> bool {
    forall|i: int, j: int| 0 <= i < j < c.len() ==> c[i].0 != c[j].0
}

proof fn lemma_cursor_at(c: Seq<(Seq<char>, i64)>, i: int)
    requires
        cursors_wf(c),
        0 <= i < c.len(),
    ensures
        has_cursor(c, c[i].0),
        cursor_of(c, c[i].0) == c[i].1,
{
    let k = choose|k: int| 0 <= k < c.len() && c[k].0 == c[i].0;
    if k != i {
        if k < i {
            assert(c[k].0 != c[i].0);
        } else {
            assert(c[i].0 != c[k].0);
        }
    }
}

/// A cursor at `start` after the messages `msgs` (topic and sequence number)
/// are absorbed in order: the largest of `start` and the sequence numbers of
/// `topic`'s messages among them.
pub open spec fn absorbed_from(start: i64, topic: Seq<char>, msgs: Seq<(Seq<char>, i64)>) -> i64
    decreases msgs.len(),
{
    if msgs.len() == 0 {
        start
    } else {
        let before = absorbed_from(start, topic, msgs.drop_last());
        if msgs.last().0 == topic && msgs.last().1 > before {
            msgs.last().1
        } else {
            before
        }
    }
}

/// The cursor of `topic` after `msgs` are absorbed into the cursors `c`.
pub open spec fn absorbed(c: Seq<(Seq<char>, i64)>, topic: Seq<char>, msgs: Seq<(Seq<char>, i64)>) -> i64 {
    absorbed_from(cursor_of(c, topic), topic, msgs)
}

/// A cursor at `start` after each poll answer of `answers` is absorbed in
/// turn.
pub open spec fn polled(start: i64, topic: Seq<char>, answers: Seq<Seq<(Seq<char>, i64)>>) -> i64
    decreases answers.len(),
{
    if answers.len() == 0 {
        start
    } else {
        absorbed_from(polled(start, topic, answers.drop_last()), topic, answers.last())
    }
}

/// Absorbing messages leaves a cursor at the largest of where it stood and
/// the sequence numbers of its topic's messages.
pub proof fn lemma_absorbed_is_the_highest(start: i64, topic: Seq<char>, msgs: Seq<(Seq<char>, i64)>)
    ensures
        absorbed_from(start, topic, msgs) >= start,
        forall|k: int|
            0 <= k < msgs.len() && msgs[k].0 == topic ==> absorbed_from(start, topic, msgs) >= #[trigger] msgs[k].1,
        absorbed_from(start, topic, msgs) == start || exists|k: int|
            0 <= k < msgs.len() && msgs[k].0 == topic && absorbed_from(start, topic, msgs) == msgs[k].1,
    decreases msgs.len(),
{
    if msgs.len() > 0 {
        let init = msgs.drop_last();
        lemma_absorbed_is_the_highest(start, topic, init);
        assert forall|k: int| 0 <= k < msgs.len() && msgs[k].0 == topic implies absorbed_from(start, topic, msgs)
            >= #[trigger] msgs[k].1 by {
            if k < msgs.len() - 1 {
                assert(init[k] == msgs[k]);
            }
        }
        let b = absorbed_from(start, topic, init);
        if absorbed_from(start, topic, msgs) != start {
            if msgs.last().0 == topic && msgs.last().1 > b {
                assert(msgs[msgs.len() - 1] == msgs.last());
            } else {
                let k = choose|k: int| 0 <= k < init.len() && init[k].0 == topic && b == init[k].1;
                assert(init[k] == msgs[k]);
            }
        }
    }
}

/// Over many polls, a topic's cursor, starting at 0 when it is subscribed,
/// is the larger of 0 and the highest sequence number of that topic among
/// every answer so far: each next poll asks for exactly what is past the
/// last message delivered, so nothing is fetched twice and nothing later is
/// skipped.
pub proof fn lemma_polls_keep_the_highest_seq(topic: Seq<char>, answers: Seq<Seq<(Seq<char>, i64)>>)
    ensures
        polled(0, topic, answers) >= 0,
        forall|i: int, k: int|
            0 <= i < answers.len() && 0 <= k < answers[i].len() && answers[i][k].0 == topic ==> polled(
                0,
                topic,
                answers,
            ) >= #[trigger] answers[i][k].1,
        polled(0, topic, answers) == 0 || exists|i: int, k: int|
            0 <= i < answers.len() && 0 <= k < answers[i].len() && answers[i][k].0 == topic && polled(
                0,
                topic,
                answers,
            ) == answers[i][k].1,
    decreases answers.len(),
{
    if answers.len() > 0 {
        let init = answers.drop_last();
        lemma_polls_keep_the_highest_seq(topic, init);
        let b = polled(0, topic, init);
        let last = answers.last();
        lemma_absorbed_is_the_highest(b, topic, last);
        let p = polled(0, topic, answers);
        assert forall|i: int, k: int|
            0 <= i < answers.len() && 0 <= k < answers[i].len() && answers[i][k].0 == topic implies p
            >= #[trigger] answers[i][k].1 by {
            if i < answers.len() - 1 {
                assert(init[i] == answers[i]);
                assert(b >= init[i][k].1);
            } else {
                assert(answers[i] == last);
                assert(p >= last[k].1);
            }
        }
        if p != 0 {
            if p == b {
                let (i, k) = choose|i: int, k: int|
                    0 <= i < init.len() && 0 <= k < init[i].len() && init[i][k].0 == topic && b == init[i][k].1;
                assert(init[i] == answers[i]);
            } else {
                let k = choose|k: int| 0 <= k < last.len() && last[k].0 == topic && p == last[k].1;
                assert(answers[answers.len() - 1] == last);
            }
        }
    }
}

impl Cursors {
    /// No cursors yet.
    pub fn new() -> (r: Cursors)
        ensures
            r@.len() == 0,
    {
        let r = Cursors { entries: Vec::new() };
        assert(r@ =~= Seq::<(Seq<char>, i64)>::empty());
        r
    }

    /// No topic has two cursors.
    pub closed spec fn wf(&self) -> bool {
        cursors_wf(self@)
    }

    /// Whether no topic is subscribed yet.
    pub fn is_empty(&self) -> (r: bool)
        ensures
            r == (self@.len() == 0),
    {
        self.entries.len() == 0
    }

    /// The cursors as topic and sequence-number pairs, for the poll request.
    pub fn pairs(&self) -> (r: Vec<(String, i64)>)
        ensures
            r@.map_values(|e: (String, i64)| (e.0@, e.1)) == self@,
    {
        let mut r: Vec<(String, i64)> = Vec::new();
        let n = self.entries.len();
        let mut i: usize = 0;
        while i < n
            invariant
                n == self.entries@.len(),
                i <= n,
                r@.len() == i,
                r@.map_values(|e: (String, i64)| (e.0@, e.1)) == self@.take(i as int),
            decreases n - i,
        {
            let e = &self.entries[i];
            let pair = (e.0.clone(), e.1);
            assert((pair.0@, pair.1) == self@[i as int]);
            let ghost before = r@;
            r.push(pair);
            assert(r@ == before.push(pair));
            proof {
                let f = |e: (String, i64)| (e.0@, e.1);
                let rv = r@.map_values(f);
                assert forall|k: int| 0 <= k < i + 1 implies #[trigger] rv[k] == self@.take(i + 1)[k] by {
                    if k < i {
                        assert(rv[k] == f(before[k]));
                        assert(before.map_values(f)[k] == f(before[k]));
                    }
                }
                assert(rv =~= self@.take(i + 1));
            }
            i = i + 1;
        }
        assert(self@.take(n as int) =~= self@);
        r
    }

    fn find(&self, topic: &str) -> (r: Option<usize>)
        ensures
            r matches Some(i) ==> i < self@.len() && self@[i as int].0 == topic@,
            r is None <==> !has_cursor(self@, topic@),
    {
        let n = self.entries.len();
        let mut i: usize = 0;
        while i < n
            invariant
                n == self@.len(),
                i <= n,
                forall|k: int| 0 <= k < i ==> self@[k].0 != topic@,
            decreases n - i,
        {
            if str_eq(self.entries[i].0.as_str(), topic) {
                assert(self@[i as int].0 == topic@);
                return Some(i);
            }
            i = i + 1;
        }
        None
    }

    /// Start polling `topic` from the beginning, unless it already has a
    /// cursor.
    pub fn subscribe(&mut self, topic: &str)
        requires
            old(self).wf(),
        ensures
            final(self).wf(),
            has_cursor(final(self)@, topic@),
            forall|t: Seq<char>| has_cursor(old(self)@, t) ==> has_cursor(final(self)@, t),
            forall|t: Seq<char>| t != topic@ ==> has_cursor(final(self)@, t) == has_cursor(old(self)@, t),
            forall|t: Seq<char>| #[trigger] cursor_of(final(self)@, t) == cursor_of(old(self)@, t),
    {
        if self.find(topic).is_none() {
            let ghost old_v = self@;
            self.entries.push((own(topic), 0));
            proof {
                let v = self@;
                assert(v =~= old_v.push((topic@, 0i64)));
                assert forall|i: int, j: int| 0 <= i < j < v.len() implies v[i].0 != v[j].0 by {
                    if j < old_v.len() {
                        assert(old_v[i].0 != old_v[j].0);
                    } else {
                        assert(v[i] == old_v[i]);
                    }
                }
                lemma_cursor_at(v, old_v.len() as int);
                assert forall|t: Seq<char>| has_cursor(old_v, t) implies has_cursor(v, t) by {
                    let k = choose|k: int| 0 <= k < old_v.len() && old_v[k].0 == t;
                    assert(v[k] == old_v[k]);
                }
                assert forall|t: Seq<char>| t != topic@ implies has_cursor(v, t) == has_cursor(old_v, t) by {
                    if has_cursor(v, t) {
                        let k = choose|k: int| 0 <= k < v.len() && v[k].0 == t;
                        assert(k < old_v.len());
                        assert(old_v[k] == v[k]);
                    }
                }
                assert forall|t: Seq<char>| #[trigger] cursor_of(v, t) == cursor_of(old_v, t) by {
                    if has_cursor(old_v, t) {
                        let k = choose|k: int| 0 <= k < old_v.len() && old_v[k].0 == t;
                        lemma_cursor_at(old_v, k);
                        assert(v[k] == old_v[k]);
                        lemma_cursor_at(v, k);
                    } else if t != topic@ {
                    } else {
                        lemma_cursor_at(v, old_v.len() as int);
                    }
                }
            }
        }
    }

    /// Advance `topic`'s cursor past `seq`: the largest of the two, so a
    /// cursor never goes back and nothing is redelivered.
    pub fn advance(&mut self, topic: &str, seq: i64)
        requires
            old(self).wf(),
        ensures
            final(self).wf(),
            has_cursor(final(self)@, topic@),
            cursor_of(final(self)@, topic@) == (if seq > cursor_of(old(self)@, topic@) {
                seq
            } else {
                cursor_of(old(self)@, topic@)
            }),
            forall|t: Seq<char>| t != topic@ ==> #[trigger] has_cursor(final(self)@, t) == has_cursor(old(self)@, t),
            forall|t: Seq<char>| t != topic@ ==> #[trigger] cursor_of(final(self)@, t) == cursor_of(old(self)@, t),
    {
        self.subscribe(topic);
        let i = self.find(topic).unwrap();
        let ghost mid = self@;
        proof {
            lemma_cursor_at(mid, i as int);
        }
        let cur = self.entries[i].1;
        if seq > cur {
            let (t, _) = self.entries.remove(i);
            self.entries.insert(i, (t, seq));
            proof {
                let v = self@;
                assert(v =~= mid.update(i as int, (topic@, seq)));
                assert forall|a: int, b: int| 0 <= a < b < v.len() implies v[a].0 != v[b].0 by {
                    assert(mid[a].0 != mid[b].0);
                }
                lemma_cursor_at(v, i as int);
                assert forall|t: Seq<char>| t != topic@ implies #[trigger] has_cursor(v, t) == has_cursor(mid, t) by {
                    if has_cursor(v, t) {
                        let k = choose|k: int| 0 <= k < v.len() && v[k].0 == t;
                        assert(mid[k] == v[k]);
                    }
                    if has_cursor(mid, t) {
                        let k = choose|k: int| 0 <= k < mid.len() && mid[k].0 == t;
                        assert(mid[k] == v[k]);
                    }
                }
                assert forall|t: Seq<char>| t != topic@ implies #[trigger] cursor_of(v, t) == cursor_of(mid, t) by {
                    if has_cursor(mid, t) {
                        let k = choose|k: int| 0 <= k < mid.len() && mid[k].0 == t;
                        lemma_cursor_at(mid, k);
                        assert(mid[k] == v[k]);
                        lemma_cursor_at(v, k);
                    }
                }
            }
        }
    }

    /// Take in a poll's answer, in order: each message's envelope bytes, or
    /// the reason they could not be decoded, and every cursor advanced past
    /// the messages of its topic, decodable or not.
    pub fn absorb(&mut self, messages: Vec<PollMessage>) -> (r: Vec<Result<Vec<u8>, String>>)
        requires
            old(self).wf(),
        ensures
            final(self).wf(),
            r@.len() == messages@.len(),
            forall|i: int|
                0 <= i < r@.len() ==> match #[trigger] r@[i] {
                    Ok(v) => spec_url_safe_decode(encode_utf8(messages@[i].data@)) == Ok::<Seq<u8>, Seq<char>>(v@),
                    Err(e) => spec_url_safe_decode(encode_utf8(messages@[i].data@)) == Err::<Seq<u8>, Seq<char>>(e@),
                },
            forall|t: Seq<char>|
                #[trigger] cursor_of(final(self)@, t) == absorbed(
                    old(self)@,
                    t,
                    messages@.map_values(|m: PollMessage| (m.topic@, m.seq)),
                ),
            forall|i: int, d: Seq<u8>|
                #![trigger r@[i], url_safe_encoding(d)]
                0 <= i < r@.len() && messages@[i].data@ == url_safe_encoding(d) ==> (r@[i] matches Ok(v) && v@ == d),
            forall|t: Seq<char>| has_cursor(old(self)@, t) ==> #[trigger] has_cursor(final(self)@, t),
            forall|i: int| 0 <= i < messages@.len() ==> has_cursor(final(self)@, #[trigger] messages@[i].topic@),
            forall|t: Seq<char>|
                #[trigger] has_cursor(final(self)@, t) ==> has_cursor(old(self)@, t) || exists|i: int|
                    0 <= i < messages@.len() && messages@[i].topic@ == t,
    {
        let ghost mv = messages@.map_values(|m: PollMessage| (m.topic@, m.seq));
        let mut r: Vec<Result<Vec<u8>, String>> = Vec::new();
        let n = messages.len();
        let mut i: usize = 0;
        while i < n
            invariant
                n == messages@.len(),
                mv == messages@.map_values(|m: PollMessage| (m.topic@, m.seq)),
                i <= n,
                self.wf(),
                r@.len() == i,
                forall|k: int|
                    0 <= k < i ==> match #[trigger] r@[k] {
                        Ok(v) => spec_url_safe_decode(encode_utf8(messages@[k].data@)) == Ok::<Seq<u8>, Seq<char>>(v@),
                        Err(e) => spec_url_safe_decode(encode_utf8(messages@[k].data@)) == Err::<Seq<u8>, Seq<char>>(e@),
                    },
                forall|t: Seq<char>| #[trigger] cursor_of(self@, t) == absorbed(old(self)@, t, mv.take(i as int)),
                forall|k: int, d: Seq<u8>|
                    #![trigger r@[k], url_safe_encoding(d)]
                    0 <= k < i && messages@[k].data@ == url_safe_encoding(d) ==> (r@[k] matches Ok(v) && v@ == d),
                forall|t: Seq<char>| has_cursor(old(self)@, t) ==> #[trigger] has_cursor(self@, t),
                forall|k: int| 0 <= k < i ==> has_cursor(self@, #[trigger] messages@[k].topic@),
                forall|t: Seq<char>|
                    #[trigger] has_cursor(self@, t) ==> has_cursor(old(self)@, t) || exists|k: int|
                        0 <= k < i && messages@[k].topic@ == t,
            decreases n - i,
        {
            let m = &messages[i];
            r.push(url_safe_decode(m.data.as_str().as_bytes()));
            let ghost before = self@;
            self.advance(m.topic.as_str(), m.seq);
            proof {
                assert(mv.take(i + 1).drop_last() =~= mv.take(i as int));
                assert forall|t: Seq<char>| #[trigger] cursor_of(self@, t) == absorbed(old(self)@, t, mv.take(i + 1)) by {
                    assert(mv.take(i + 1).last() == (m.topic@, m.seq));
                }
                assert forall|k: int| 0 <= k < i + 1 implies has_cursor(self@, #[trigger] messages@[k].topic@) by {
                    if k < i {
                        assert(has_cursor(before, messages@[k].topic@));
                        if messages@[k].topic@ != m.topic@ {
                            assert(has_cursor(self@, messages@[k].topic@) == has_cursor(before, messages@[k].topic@));
                        }
                    }
                }
                assert forall|t: Seq<char>| #[trigger] has_cursor(self@, t) implies has_cursor(old(self)@, t) || exists|k: int|
                    0 <= k < i + 1 && messages@[k].topic@ == t by {
                    if t != m.topic@ {
                        assert(has_cursor(before, t));
                        if !has_cursor(old(self)@, t) {
                            let k = choose|k: int| 0 <= k < i && messages@[k].topic@ == t;
                            assert(0 <= k < i + 1 && messages@[k].topic@ == t);
                        }
                    } else {
                        assert(messages@[i as int].topic@ == t);
                    }
                }
                assert forall|t: Seq<char>| has_cursor(old(self)@, t) implies #[trigger] has_cursor(self@, t) by {
                    assert(has_cursor(before, t));
                }
            }
            i = i + 1;
        }
        assert(mv.take(n as int) =~= mv);
        r
    }
}

/// Absorbing messages never moves any cursor back.
pub proof fn lemma_cursors_never_go_back(c: Seq<(Seq<char>, i64)>, topic: Seq<char>, msgs: Seq<(Seq<char>, i64)>)
    ensures
        absorbed(c, topic, msgs) >= cursor_of(c, topic),
        forall|i: int| 0 <= i < msgs.len() && msgs[i].0 == topic ==> absorbed(c, topic, msgs) >= #[trigger] msgs[i].1,
    decreases msgs.len(),
{
    if msgs.len() > 0 {
        lemma_cursors_never_go_back(c, topic, msgs.drop_last());
        assert forall|i: int| 0 <= i < msgs.len() && msgs[i].0 == topic implies absorbed(c, topic, msgs) >= #[trigger] msgs[i].1 by {
            if i < msgs.len() - 1 {
                assert(msgs.drop_last()[i] == msgs[i]);
            }
        }
    }
}


/// What the poller does after one poll: the delivery state to report, if
/// any, the envelopes to hand the client, and how long to wait before the
/// next poll.
#[derive(Debug)]
pub struct PollStep {
    pub report: Option<(DeliveryStateKind, String)>,
    pub envelopes: Vec<Result<Vec<u8>, String>>,
    pub sleep_ms: u64,
}

/// The poller's state: its cursors and the back-off before the next retry.
#[derive(Debug)]
pub struct Poller {
    cursors: Cursors,
    backoff: u64,
}

impl Poller {
    /// The poller's cursors.
    pub closed spec fn cursors_view(&self) -> Seq<(Seq<char>, i64)> {
        self.cursors@
    }

    /// The back-off the next failure waits.
    pub closed spec fn backoff_view(&self) -> u64 {
        self.backoff
    }

    /// Cursors with one per topic, and a back-off within its bounds.
    pub closed spec fn wf(&self) -> bool {
        &&& self.cursors.wf()
        &&& BACKOFF_MIN_MS <= self.backoff <= BACKOFF_MAX_MS
    }

    /// A poller with no topics, at the shortest back-off.
    pub fn new() -> (r: Poller)
        ensures
            r.wf(),
            r.cursors_view().len() == 0,
            r.backoff_view() == BACKOFF_MIN_MS,
    {
        let cursors = Cursors::new();
        assert(cursors_wf(cursors@));
        Poller { cursors, backoff: BACKOFF_MIN_MS }
    }

    /// The cursors, for the poll request.
    pub fn cursors(&self) -> (r: &Cursors)
        ensures
            r@ == self.cursors_view(),
    {
        &self.cursors
    }

    /// Start polling `topic`, unless it already is.
    pub fn subscribe(&mut self, topic: &str)
        requires
            old(self).wf(),
        ensures
            final(self).wf(),
            final(self).backoff_view() == old(self).backoff_view(),
            has_cursor(final(self).cursors_view(), topic@),
            forall|t: Seq<char>| t != topic@ ==> has_cursor(final(self).cursors_view(), t) == has_cursor(old(self).cursors_view(), t),
            forall|t: Seq<char>| #[trigger] cursor_of(final(self).cursors_view(), t) == cursor_of(old(self).cursors_view(), t),
    {
        self.cursors.subscribe(topic);
    }

    /// After a poll: an answer resets the back-off, reports delivery online,
    /// advances the cursors and hands over its envelopes, polling again at
    /// once; a failure reports delivery in error with its reason (unless the
    /// poller is stopping), waits the current back-off, and doubles it.
    pub fn after_poll(&mut self, outcome: Result<Vec<PollMessage>, String>, stopping: bool) -> (r: PollStep)
        requires
            old(self).wf(),
        ensures
            final(self).wf(),
            match outcome {
                Ok(messages) => {
                    &&& final(self).backoff_view() == BACKOFF_MIN_MS
                    &&& r.report matches Some((k, d)) && k == DeliveryStateKind::Online && d@.len() == 0
                    &&& r.sleep_ms == 0
                    &&& r.envelopes@.len() == messages@.len()
                    &&& forall|i: int|
                        0 <= i < r.envelopes@.len() ==> match #[trigger] r.envelopes@[i] {
                            Ok(v) => spec_url_safe_decode(encode_utf8(messages@[i].data@)) == Ok::<Seq<u8>, Seq<char>>(v@),
                            Err(e) => spec_url_safe_decode(encode_utf8(messages@[i].data@)) == Err::<Seq<u8>, Seq<char>>(e@),
                        }
                    &&& forall|t: Seq<char>|
                        #[trigger] cursor_of(final(self).cursors_view(), t) == absorbed(
                            old(self).cursors_view(),
                            t,
                            messages@.map_values(|m: PollMessage| (m.topic@, m.seq)),
                        )
                    &&& forall|i: int, d: Seq<u8>|
                        #![trigger r.envelopes@[i], url_safe_encoding(d)]
                        0 <= i < r.envelopes@.len() && messages@[i].data@ == url_safe_encoding(d) ==> (
                        r.envelopes@[i] matches Ok(v) && v@ == d)
                    &&& forall|t: Seq<char>|
                        has_cursor(old(self).cursors_view(), t) ==> #[trigger] has_cursor(final(self).cursors_view(), t)
                    &&& forall|i: int|
                        0 <= i < messages@.len() ==> has_cursor(final(self).cursors_view(), #[trigger] messages@[i].topic@)
                    &&& forall|t: Seq<char>|
                        #[trigger] has_cursor(final(self).cursors_view(), t) ==> has_cursor(old(self).cursors_view(), t)
                            || exists|i: int| 0 <= i < messages@.len() && messages@[i].topic@ == t
                },
                Err(reason) => {
                    &&& final(self).backoff_view() == next_backoff_spec(old(self).backoff_view())
                    &&& final(self).cursors_view() == old(self).cursors_view()
                    &&& r.envelopes@.len() == 0
                    &&& r.sleep_ms == old(self).backoff_view()
                    &&& (stopping ==> r.report is None)
                    &&& (!stopping ==> (r.report matches Some((k, d)) && k == DeliveryStateKind::Error && d == reason))
                },
            },
    {
        match outcome {
            Ok(messages) => {
                self.backoff = BACKOFF_MIN_MS;
                let envelopes = self.cursors.absorb(messages);
                PollStep { report: Some((DeliveryStateKind::Online, String::new())), envelopes, sleep_ms: 0 }
            },
            Err(reason) => {
                let sleep_ms = self.backoff;
                self.backoff = next_backoff(self.backoff);
                let report = if stopping {
                    None
                } else {
                    Some((DeliveryStateKind::Error, reason))
                };
                PollStep { report, envelopes: Vec::new(), sleep_ms }
            },
        }
    }
}

/// What the sender does after one attempt to publish an envelope.
#[derive(Debug, Clone, Copy, PartialEq, Eq, Structural)]
pub enum SendStep {
    /// Published: on to the next envelope.
    Done,
    /// Failed, and the envelope's budget is spent: drop it.
    GiveUp,
    /// Failed: wait `sleep_ms`, then retry at back-off `next_backoff`.
    Retry { sleep_ms: u64, next_backoff: u64 },
}

/// After an attempt, `elapsed_ms` into retrying an envelope at back-off
/// `backoff`.
pub fn after_publish(published: bool, elapsed_ms: u64, backoff: u64) -> (r: SendStep)
    ensures
        published ==> r == SendStep::Done,
        !published && elapsed_ms >= SEND_MAX_ELAPSED_MS ==> r == SendStep::GiveUp,
        !published && elapsed_ms < SEND_MAX_ELAPSED_MS ==> r == (SendStep::Retry {
            sleep_ms: backoff,
            next_backoff: next_backoff_spec(backoff),
        }),
{
    if published {
        SendStep::Done
    } else if give_up(elapsed_ms) {
        SendStep::GiveUp
    } else {
        SendStep::Retry { sleep_ms: backoff, next_backoff: next_backoff(backoff) }
    }
}

} // verus!
