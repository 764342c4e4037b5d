//! The rules of the module's log: which filter it runs at, how a line is
//! labelled, what its files are called, when one is moved aside, and which
//! runs are pruned from the instance directory.

use vstd::prelude::*;

use crate::text::{
    all_digits, blank, concat2, concat3, digits_only, is_blank, is_prefix, own, push_char,
    str_eq, strip_prefix,
};

verus! {

/// The level the chat core's own targets log at when the client named none.
pub const DEFAULT_LEVEL: &'static str = "info";
/// The stem every log file of this module carries.
pub const STEM: &'static str = "chat_module";
/// Length of a `%Y%m%d_%H%M%S` stamp.
pub const STAMP_LEN: usize = 15;
/// Lines before the file being written is moved aside.
pub const ROTATE_AFTER_LINES: u64 = 10_000;
/// Runs kept in the instance directory.
pub const KEEP_RUNS: usize = 10;

/// The filter directives for the chat core at `level`, everything else at
/// `warn`.
pub open spec fn filter_spec(level: Seq<char>) -> Seq<char> {
    "warn,chat_module="@ + level + ",libchat="@ + level + ",logos_generic_chat="@ + level
}

/// Everything at `warn`, and the chat core's own targets at `level`. The
/// dependency graph carries crates far chattier than the chat core, which
/// would bury the handful of lifecycle events a run's log exists to surface.
pub fn filter_for(level: &str) -> (r: String)
    ensures
        r@ == filter_spec(level@),
{
    let a = concat3("warn,chat_module=", level, ",libchat=");
    let b = concat3(a.as_str(), level, ",logos_generic_chat=");
    concat2(b.as_str(), level)
}

/// The levels a client may ask for.
pub open spec fn is_level(w: Seq<char>) -> bool {
    w == "error"@ || w == "warn"@ || w == "info"@ || w == "debug"@ || w == "trace"@
}

/// The level a client asked for when it is one, else the default.
pub open spec fn level_spec(requested: Seq<char>) -> Seq<char> {
    if is_level(requested) { requested } else { "info"@ }
}

/// The level a client may ask the chat core to log at. Anything else
/// (absent, empty, misspelled, upper case) is the default.
pub fn level_or_default(requested: &str) -> (r: &str)
    ensures
        r@ == level_spec(requested@),
{
    if str_eq(requested, "error") || str_eq(requested, "warn") || str_eq(requested, "info")
        || str_eq(requested, "debug") || str_eq(requested, "trace") {
        requested
    } else {
        DEFAULT_LEVEL
    }
}

/// Whatever a client asks for, the level used is one of the five.
pub proof fn lemma_level_is_always_usable(requested: Seq<char>)
    ensures
        is_level(level_spec(requested)),
        level_spec(level_spec(requested)) == level_spec(requested),
{
}

/// Whether `tracing_subscriber`'s `EnvFilter` parses these directives
/// without error.
pub uninterp spec fn spec_env_filter_accepts(directives: Seq<char>) -> bool;

/// `EnvFilter::try_new`, asked only whether it succeeds. Trusted: the answer
/// is named [`spec_env_filter_accepts`] of the directives.
#[verifier::external_body]
fn env_filter_accepts(directives: &str) -> (r: bool)
    ensures
        r == spec_env_filter_accepts(directives@),
{
    tracing_subscriber::EnvFilter::try_new(directives).is_ok()
}

/// The directives the log runs at: `RUST_LOG` when it is set, not blank and
/// parses, since it outranks the client; else the client's level applied to
/// the chat core.
pub open spec fn selected_filter(env: Option<Seq<char>>, level: Seq<char>) -> Seq<char> {
    match env {
        Some(e) => if !is_blank(e) && spec_env_filter_accepts(e) { e } else { filter_spec(level) },
        None => filter_spec(level),
    }
}

/// `RUST_LOG` outranks the client's choice, and neither a blank nor an
/// unparseable value is a choice: `EnvFilter` reads the empty string as
/// "enable nothing", which would silence the stack a client asked to hear.
pub fn filter_from(env: Option<&str>, level: &str) -> (r: String)
    ensures
        r@ == selected_filter(
            match env {
                Some(e) => Some(e@),
                None => None,
            },
            level@,
        ),
{
    match env {
        Some(e) => {
            if !blank(e) && env_filter_accepts(e) {
                own(e)
            } else {
                filter_for(level)
            }
        },
        None => filter_for(level),
    }
}

/// The five `tracing` levels.
#[derive(Debug, Clone, Copy, PartialEq, Eq, Structural)]
pub enum Level {
    Error,
    Warn,
    Info,
    Debug,
    Trace,
}

/// The severity word a host ranks a line by: `tracing`'s own name of the
/// level, except `WARNING` for a warning, the token hosts read.
pub open spec fn severity_word(level: Level) -> Seq<char> {
    match level {
        Level::Error => "ERROR"@,
        Level::Warn => "WARNING"@,
        Level::Info => "INFO"@,
        Level::Debug => "DEBUG"@,
        Level::Trace => "TRACE"@,
    }
}

/// The severity word of a level.
pub fn severity(level: Level) -> (r: &'static str)
    ensures
        r@ == severity_word(level),
{
    match level {
        Level::Error => "ERROR",
        Level::Warn => "WARNING",
        Level::Info => "INFO",
        Level::Debug => "DEBUG",
        Level::Trace => "TRACE",
    }
}

/// How a line on stderr begins: `<SEVERITY>: <target>: `, the message and its
/// fields following.
pub fn line_head(level: Level, target: &str) -> (r: String)
    ensures
        r@ == severity_word(level) + ": "@ + target@ + ": "@,
{
    let a = concat3(severity(level), ": ", target);
    concat2(a.as_str(), ": ")
}

// ── File names ────────────────────────────────────────────────────────────

/// A `%Y%m%d_%H%M%S` stamp: eight date digits, an underscore, six time
/// digits.
pub open spec fn valid_stamp(s: Seq<char>) -> bool {
    &&& s.len() == 15
    &&& all_digits(s.subrange(0, 8))
    &&& s[8] == '_'
    &&& all_digits(s.subrange(9, 15))
}

/// What may follow a stamp: `.log` for the file being written, `.NNN.log`
/// for one of its rotations.
pub open spec fn run_suffix(s: Seq<char>) -> bool {
    s == ".log"@ || (s.len() == 8 && s[0] == '.' && all_digits(s.subrange(1, 4)) && s.subrange(4, 8)
        == ".log"@)
}

/// The stamp a run file's name carries, `None` when the name is not one of
/// this module's.
pub open spec fn stamp_spec(name: Seq<char>) -> Option<Seq<char>> {
    let head = "chat_module_"@;
    if is_prefix(head, name) && name.len() >= head.len() as int + 15 && valid_stamp(
        name.subrange(head.len() as int, head.len() as int + 15),
    ) && run_suffix(name.subrange(head.len() as int + 15, name.len() as int)) {
        Some(name.subrange(head.len() as int, head.len() as int + 15))
    } else {
        None
    }
}

/// Whether what follows a stamp names the file being written (`.log`) or one
/// of its rotations (`.NNN.log`).
pub fn is_run_suffix(suffix: &str) -> (r: bool)
    ensures
        r == run_suffix(suffix@),
{
    proof {
        reveal_strlit(".log");
    }
    if str_eq(suffix, ".log") {
        return true;
    }
    if suffix.unicode_len() != 8 {
        return false;
    }
    let dot = suffix.get_char(0) == '.';
    let digits = digits_only(suffix.substring_char(1, 4));
    let tail = str_eq(suffix.substring_char(4, 8), ".log");
    dot && digits && tail
}

/// Whether a stamp is eight digits, an underscore and six digits.
fn is_stamp(s: &str) -> (r: bool)
    ensures
        r == valid_stamp(s@),
{
    if s.unicode_len() != 15 {
        return false;
    }
    digits_only(s.substring_char(0, 8)) && s.get_char(8) == '_' && digits_only(s.substring_char(9, 15))
}

/// The stamp a run file's name carries, or `None` when the name is not one
/// of this module's, which is what leaves another writer's log in the same
/// directory alone.
pub fn stamp_of(file_name: &str) -> (r: Option<&str>)
    ensures
        match r {
            Some(s) => stamp_spec(file_name@) == Some(s@),
            None => stamp_spec(file_name@) is None,
        },
{
    proof {
        reveal_strlit("chat_module_");
    }
    let rest = match strip_prefix(file_name, "chat_module_") {
        Some(rest) => rest,
        None => return None,
    };
    let n = rest.unicode_len();
    if n < STAMP_LEN {
        return None;
    }
    let stamp = rest.substring_char(0, STAMP_LEN);
    let suffix = rest.substring_char(STAMP_LEN, n);
    proof {
        let h = "chat_module_"@.len() as int;
        assert(stamp@ =~= file_name@.subrange(h, h + 15));
        assert(suffix@ =~= file_name@.subrange(h + 15, file_name@.len() as int));
    }
    if is_stamp(stamp) && is_run_suffix(suffix) {
        Some(stamp)
    } else {
        None
    }
}

/// The file a run writes: `chat_module_<stamp>.log`.
pub open spec fn run_file_spec(stamp: Seq<char>) -> Seq<char> {
    "chat_module_"@ + stamp + ".log"@
}

/// The name of the file a run is writing.
pub fn run_file_name(stamp: &str) -> (r: String)
    ensures
        r@ == run_file_spec(stamp@),
{
    concat3("chat_module_", stamp, ".log")
}

/// The decimal digit of `d`.
pub open spec fn digit_char(d: nat) -> char {
    (('0' as u32) + d) as char
}

/// The decimal notation of `n`.
pub open spec fn decimal(n: nat) -> Seq<char>
    decreases n,
{
    if n < 10 {
        seq![digit_char(n)]
    } else {
        decimal(n / 10).push(digit_char(n % 10))
    }
}

/// `n` in decimal, zero-padded to at least three digits (`{:03}`).
pub open spec fn pad3(n: nat) -> Seq<char> {
    if n < 10 {
        "00"@ + decimal(n)
    } else if n < 100 {
        "0"@ + decimal(n)
    } else {
        decimal(n)
    }
}

/// A rotation of a run: `chat_module_<stamp>.NNN.log`.
pub open spec fn rotation_spec(stamp: Seq<char>, n: nat) -> Seq<char> {
    "chat_module_"@ + stamp + "."@ + pad3(n) + ".log"@
}

proof fn lemma_decimal_digits(n: nat)
    ensures
        all_digits(decimal(n)),
        decimal(n).len() >= 1,
        n < 10 ==> decimal(n).len() == 1,
        10 <= n < 100 ==> decimal(n).len() == 2,
        100 <= n < 1000 ==> decimal(n).len() == 3,
        n >= 1000 ==> decimal(n).len() >= 4,
    decreases n,
{
    if n >= 10 {
        lemma_decimal_digits(n / 10);
    }
}

/// `n` in decimal.
fn decimal_exec(n: u32) -> (r: String)
    ensures
        r@ == decimal(n as nat),
{
    let mut digits: Vec<char> = Vec::new();
    let mut m = n;
    while m >= 10
        invariant
            decimal(n as nat) == decimal(m as nat) + digits@.reverse(),
        decreases m,
    {
        let d = m % 10;
        let c = (('0' as u32) + d) as u8 as char;
        proof {
            assert(digit_char(d as nat) == c) by {
                assert((('0' as u32) + d) < 128);
            }
            assert(decimal(m as nat) == decimal((m / 10) as nat).push(c));
            assert(digits@.push(c).reverse() =~= seq![c] + digits@.reverse());
        }
        digits.push(c);
        m = m / 10;
    }
    let mut r = String::new();
    let c0 = (('0' as u32) + m) as u8 as char;
    proof {
        assert(digit_char(m as nat) == c0) by {
            assert((('0' as u32) + m) < 128);
        }
    }
    push_char(&mut r, c0);
    assert(r@ =~= decimal(m as nat));
    let k = digits.len();
    let mut i: usize = 0;
    while i < k
        invariant
            k == digits@.len(),
            i <= k,
            decimal(n as nat) == decimal(m as nat) + digits@.reverse(),
            r@ == decimal(m as nat) + digits@.reverse().subrange(0, i as int),
        decreases k - i,
    {
        let c = digits[k - 1 - i];
        push_char(&mut r, c);
        assert(digits@.reverse()[i as int] == c);
        assert(r@ =~= decimal(m as nat) + digits@.reverse().subrange(0, i + 1));
        i = i + 1;
    }
    assert(digits@.reverse().subrange(0, k as int) =~= digits@.reverse());
    r
}

/// The name a run's `n`th rotation is moved aside to.
pub fn rotation_name(stamp: &str, n: u32) -> (r: String)
    ensures
        r@ == rotation_spec(stamp@, n as nat),
{
    let digits = decimal_exec(n);
    let padded = if n < 10 {
        concat2("00", digits.as_str())
    } else if n < 100 {
        concat2("0", digits.as_str())
    } else {
        digits
    };
    let a = concat3("chat_module_", stamp, ".");
    let b = concat3(a.as_str(), padded.as_str(), ".log");
    b
}

/// The file a run writes, and each of its first 999 rotations, carry the run's
/// stamp: what lets a consumer group a directory into runs.
pub proof fn lemma_run_names_carry_their_stamp(stamp: Seq<char>, n: nat)
    requires
        valid_stamp(stamp),
        1 <= n <= 999,
    ensures
        stamp_spec(run_file_spec(stamp)) == Some(stamp),
        stamp_spec(rotation_spec(stamp, n)) == Some(stamp),
{
    reveal_strlit("chat_module_");
    reveal_strlit(".log");
    reveal_strlit(".");
    reveal_strlit("00");
    reveal_strlit("0");
    let head = "chat_module_"@;
    let a = run_file_spec(stamp);
    assert(a.subrange(0, head.len() as int) =~= head);
    assert(a.subrange(head.len() as int, head.len() as int + 15) =~= stamp);
    assert(a.subrange(head.len() as int + 15, a.len() as int) =~= ".log"@);
    lemma_decimal_digits(n);
    let p = pad3(n);
    assert(p.len() == 3);
    assert(all_digits(p)) by {
        if n < 10 {
            assert forall|i: int| 0 <= i < p.len() implies '0' <= #[trigger] p[i] && p[i] <= '9' by {
                if i >= 2 {
                    assert(p[i] == decimal(n)[i - 2]);
                }
            }
        } else if n < 100 {
            assert forall|i: int| 0 <= i < p.len() implies '0' <= #[trigger] p[i] && p[i] <= '9' by {
                if i >= 1 {
                    assert(p[i] == decimal(n)[i - 1]);
                }
            }
        }
    }
    let b = rotation_spec(stamp, n);
    assert(b.subrange(0, head.len() as int) =~= head);
    assert(b.subrange(head.len() as int, head.len() as int + 15) =~= stamp);
    let suffix = b.subrange(head.len() as int + 15, b.len() as int);
    assert(suffix =~= "."@ + p + ".log"@);
    assert(suffix.subrange(1, 4) =~= p);
    assert(suffix.subrange(4, 8) =~= ".log"@);
}

// ── Crash reports ─────────────────────────────────────────────────────────

/// What a panic's payload says: its text when it carries text.
pub open spec fn panic_message_spec(payload: Option<Seq<char>>) -> Seq<char> {
    match payload {
        Some(m) => m,
        None => "<non-string panic payload>"@,
    }
}

/// The text of a panic's payload, or a placeholder for one that is no text.
pub fn panic_message(payload: Option<&str>) -> (r: &str)
    ensures
        r@ == panic_message_spec(
            match payload {
                Some(m) => Some(m@),
                None => None,
            },
        ),
{
    match payload {
        Some(m) => m,
        None => "<non-string panic payload>",
    }
}

/// Where a panic happened: `file:line:column`, or a placeholder when the
/// runtime names no place.
pub fn panic_origin(location: Option<(&str, u32, u32)>) -> (r: String)
    ensures
        r@ == (match location {
            Some((file, line, column)) => file@ + ":"@ + decimal(line as nat) + ":"@ + decimal(column as nat),
            None => "<unknown location>"@,
        }),
{
    match location {
        Some((file, line, column)) => {
            let l = decimal_exec(line);
            let c = decimal_exec(column);
            let a = concat3(file, ":", l.as_str());
            let b = concat3(a.as_str(), ":", c.as_str());
            b
        },
        None => own("<unknown location>"),
    }
}

/// The line a panic is reported with on stderr:
/// `chat_module: panic at <origin>: <message>`.
pub fn panic_report(origin: &str, message: &str) -> (r: String)
    ensures
        r@ == "chat_module: panic at "@ + origin@ + ": "@ + message@,
{
    let a = concat3("chat_module: panic at ", origin, ": ");
    concat2(a.as_str(), message)
}

/// The line a panic leaves in the run's file, ahead of its backtrace: the
/// stderr report ranked `CRITICAL`, the severity hosts read a crash by.
pub fn crash_line(origin: &str, message: &str) -> (r: String)
    ensures
        r@ == "CRITICAL: "@ + "chat_module: panic at "@ + origin@ + ": "@ + message@,
{
    let report = panic_report(origin, message);
    concat2("CRITICAL: ", report.as_str())
}

// ── Pruning ───────────────────────────────────────────────────────────────

/// Lexicographic order of character sequences, the order in which stamps
/// sort chronologically.
pub open spec fn lex_lt(a: Seq<char>, b: Seq<char>) -> bool
    decreases a.len(),
{
    if b.len() == 0 {
        false
    } else if a.len() == 0 {
        true
    } else if a[0] != b[0] {
        a[0] < b[0]
    } else {
        lex_lt(a.drop_first(), b.drop_first())
    }
}

proof fn lemma_lex_skip(a: Seq<char>, b: Seq<char>, i: int)
    requires
        0 <= i <= a.len(),
        i <= b.len(),
        forall|k: int| 0 <= k < i ==> a[k] == b[k],
    ensures
        lex_lt(a, b) == lex_lt(a.skip(i), b.skip(i)),
    decreases i,
{
    if i > 0 {
        assert(a.drop_first().skip(i - 1) =~= a.skip(i));
        assert(b.drop_first().skip(i - 1) =~= b.skip(i));
        lemma_lex_skip(a.drop_first(), b.drop_first(), i - 1);
    } else {
        assert(a.skip(0) =~= a);
        assert(b.skip(0) =~= b);
    }
}

/// Stamps are ordered as text is: where two first differ, the one with the
/// smaller character comes first, and one that is a beginning of the other
/// comes before it. For two stamps of the same shape, digits where digits
/// are, this is the order of the times they write.
pub proof fn lemma_stamps_order_by_first_difference(a: Seq<char>, b: Seq<char>, i: int)
    requires
        0 <= i <= a.len(),
        i <= b.len(),
        forall|k: int| 0 <= k < i ==> a[k] == b[k],
    ensures
        i < a.len() && i < b.len() && a[i] != b[i] ==> (lex_lt(a, b) <==> a[i] < b[i]),
        i == a.len() && i < b.len() ==> lex_lt(a, b),
        i == b.len() ==> !lex_lt(a, b),
{
    lemma_lex_skip(a, b, i);
    let x = a.skip(i);
    let y = b.skip(i);
    if i < a.len() && i < b.len() {
        assert(x[0] == a[i] && y[0] == b[i]);
    }
}

/// Whether `a` sorts before `b`.
pub fn lex_less(a: &str, b: &str) -> (r: bool)
    ensures
        r == lex_lt(a@, b@),
{
    let la = a.unicode_len();
    let lb = b.unicode_len();
    let mut i: usize = 0;
    while i < la && i < lb && a.get_char(i) == b.get_char(i)
        invariant
            la == a@.len(),
            lb == b@.len(),
            i <= la,
            i <= lb,
            forall|k: int| 0 <= k < i ==> a@[k] == b@[k],
        decreases la - i,
    {
        i = i + 1;
    }
    proof {
        lemma_lex_skip(a@, b@, i as int);
    }
    if i == lb {
        false
    } else if i == la {
        true
    } else {
        a.get_char(i) < b.get_char(i)
    }
}

/// The stamps the file names carry.
pub open spec fn stamps(names: Seq<Seq<char>>) -> Set<Seq<char>> {
    Set::new(|s: Seq<char>| exists|i: int| 0 <= i < names.len() && stamp_spec(names[i]) == Some(s))
}

/// The distinct stamps newer than `stamp`.
pub open spec fn newer(names: Seq<Seq<char>>, stamp: Seq<char>) -> Set<Seq<char>> {
    stamps(names).filter(|t: Seq<char>| lex_lt(stamp, t))
}

/// Whether the file named `name` goes: it belongs to a run of this module
/// and at least [`KEEP_RUNS`] newer runs are in the directory, so it is not
/// among the newest ten. Rotations of a run go with it, and another writer's
/// files never go.
pub open spec fn pruned(names: Seq<Seq<char>>, name: Seq<char>) -> bool {
    match stamp_spec(name) {
        Some(st) => newer(names, st).len() >= KEEP_RUNS,
        None => false,
    }
}

proof fn lemma_filter_no_dups(s: Seq<Seq<char>>, p: spec_fn(Seq<char>) -> bool)
    requires
        s.no_duplicates(),
    ensures
        s.filter(p).no_duplicates(),
    decreases s.len(),
{
    broadcast use vstd::seq_lib::group_filter_ensures;

    if s.len() > 0 {
        let init = s.drop_last();
        assert(init.push(s.last()) =~= s);
        assert(init.no_duplicates()) by {
            assert forall|i: int, j: int| 0 <= i < init.len() && 0 <= j < init.len() && i != j implies init[i]
                != init[j] by {
                assert(s[i] != s[j]);
            }
        }
        lemma_filter_no_dups(init, p);
        init.lemma_filter_push(s.last(), p);
        if p(s.last()) {
            if init.filter(p).contains(s.last()) {
                init.lemma_filter_contains_rev(p, s.last());
                let k = choose|k: int| 0 <= k < init.len() && init[k] == s.last();
                assert(s[k] == s[s.len() - 1]);
            }
            let f = init.filter(p).push(s.last());
            assert forall|i: int, j: int| 0 <= i < f.len() && 0 <= j < f.len() && i != j implies f[i] != f[j] by {
                if i < f.len() - 1 && j < f.len() - 1 {
                } else if i == f.len() - 1 && j < f.len() - 1 {
                    assert(init.filter(p).contains(f[j]));
                } else if j == f.len() - 1 && i < f.len() - 1 {
                    assert(init.filter(p).contains(f[i]));
                }
            }
        }
    }
}

proof fn lemma_filter_count(ds: Seq<Seq<char>>, set: Set<Seq<char>>, p: spec_fn(Seq<char>) -> bool)
    requires
        ds.no_duplicates(),
        ds.to_set() == set,
    ensures
        ds.filter(p).len() == set.filter(p).len(),
{
    broadcast use vstd::seq_lib::group_filter_ensures;
    broadcast use vstd::seq_lib::seq_to_set_is_finite;

    lemma_filter_no_dups(ds, p);
    let f = ds.filter(p);
    assert(f.to_set() =~= set.filter(p)) by {
        assert forall|t: Seq<char>| f.to_set().contains(t) implies set.filter(p).contains(t) by {
            ds.lemma_filter_contains_rev(p, t);
            let k = choose|k: int| 0 <= k < f.len() && f[k] == t;
            assert(p(f[k]));
        }
        assert forall|t: Seq<char>| set.filter(p).contains(t) implies f.to_set().contains(t) by {
            assert(ds.to_set().contains(t));
            let k = choose|k: int| 0 <= k < ds.len() && ds[k] == t;
            ds.lemma_filter_contains(p, k);
        }
    }
    f.unique_seq_to_set();
}

/// For each file name, whether it is pruned: every run in the directory but
/// the newest [`KEEP_RUNS`] goes, rotations included, and a file that is no
/// run of this module stays.
pub fn runs_to_prune(names: &Vec<String>) -> (r: Vec<bool>)
    ensures
        r@.len() == names@.len(),
        forall|i: int|
            0 <= i < r@.len() ==> #[trigger] r@[i] == pruned(names@.map_values(|s: String| s@), names@[i]@),
{
    let ghost nv = names@.map_values(|s: String| s@);
    let n = names.len();
    // The distinct stamps, in the order first seen.
    let mut ds: Vec<String> = Vec::new();
    let mut i: usize = 0;
    while i < n
        invariant
            n == names@.len(),
            nv == names@.map_values(|s: String| s@),
            i <= n,
            ds@.map_values(|s: String| s@).no_duplicates(),
            ds@.map_values(|s: String| s@).to_set() == stamps(nv.take(i as int)),
        decreases n - i,
    {
        let ghost dv = ds@.map_values(|s: String| s@);
        match stamp_of(names[i].as_str()) {
            Some(st) => {
                if !crate::chats::contains_str(&ds, st) {
                    ds.push(own(st));
                    let ghost dv2 = ds@.map_values(|s: String| s@);
                    assert(dv2 =~= dv.push(st@));
                    assert(dv2.no_duplicates()) by {
                        assert forall|a: int, b: int| 0 <= a < dv2.len() && 0 <= b < dv2.len() && a != b implies dv2[a]
                            != dv2[b] by {
                            if a < dv.len() && b < dv.len() {
                            } else if a == dv.len() {
                                assert(dv.contains(dv2[b]) || b == a);
                            } else {
                                assert(dv.contains(dv2[a]) || b == a);
                            }
                        }
                    }
                }
                let ghost dv2 = ds@.map_values(|s: String| s@);
                assert(dv2.to_set() =~= stamps(nv.take(i + 1))) by {
                    assert forall|t: Seq<char>| dv2.to_set().contains(t) implies stamps(nv.take(i + 1)).contains(t) by {
                        if dv.to_set().contains(t) {
                            let k = choose|k: int| 0 <= k < i && #[trigger] stamp_spec(nv.take(i as int)[k]) == Some(t);
                            assert(nv.take(i + 1)[k] == nv.take(i as int)[k]);
                        } else {
                            assert(t == st@);
                            assert(nv.take(i + 1)[i as int] == names@[i as int]@);
                        }
                    }
                    assert forall|t: Seq<char>| stamps(nv.take(i + 1)).contains(t) implies dv2.to_set().contains(t) by {
                        let k = choose|k: int| 0 <= k < i + 1 && #[trigger] stamp_spec(nv.take(i + 1)[k]) == Some(t);
                        if k < i {
                            assert(nv.take(i as int)[k] == nv.take(i + 1)[k]);
                            assert(stamps(nv.take(i as int)).contains(t));
                            assert(dv.to_set().contains(t));
                            let j = choose|j: int| 0 <= j < dv.len() && dv[j] == t;
                            assert(dv2[j] == t);
                        } else {
                            assert(nv.take(i + 1)[k] == names@[i as int]@);
                            assert(t == st@);
                            if dv.contains(st@) {
                                let j = choose|j: int| 0 <= j < dv.len() && dv[j] == t;
                                assert(dv2[j] == t);
                            } else {
                                assert(dv2[dv.len() as int] == t);
                            }
                        }
                    }
                }
            },
            None => {
                assert(stamps(nv.take(i as int)) =~= stamps(nv.take(i + 1))) by {
                    assert forall|t: Seq<char>| stamps(nv.take(i + 1)).contains(t) implies stamps(nv.take(i as int)).contains(t) by {
                        let k = choose|k: int| 0 <= k < i + 1 && #[trigger] stamp_spec(nv.take(i + 1)[k]) == Some(t);
                        assert(k != i);
                        assert(nv.take(i as int)[k] == nv.take(i + 1)[k]);
                    }
                    assert forall|t: Seq<char>| stamps(nv.take(i as int)).contains(t) implies stamps(nv.take(i + 1)).contains(t) by {
                        let k = choose|k: int| 0 <= k < i && #[trigger] stamp_spec(nv.take(i as int)[k]) == Some(t);
                        assert(nv.take(i as int)[k] == nv.take(i + 1)[k]);
                    }
                }
            },
        }
        i = i + 1;
    }
    assert(nv.take(n as int) =~= nv);
    let ghost dv = ds@.map_values(|s: String| s@);
    let mut r: Vec<bool> = Vec::new();
    let m = ds.len();
    let mut j: usize = 0;
    while j < n
        invariant
            n == names@.len(),
            nv == names@.map_values(|s: String| s@),
            m == ds@.len(),
            dv == ds@.map_values(|s: String| s@),
            dv.no_duplicates(),
            dv.to_set() == stamps(nv),
            j <= n,
            r@.len() == j,
            forall|k: int| 0 <= k < j ==> #[trigger] r@[k] == pruned(nv, names@[k]@),
        decreases n - j,
    {
        let flag = match stamp_of(names[j].as_str()) {
            None => false,
            Some(st) => {
                let ghost p = |t: Seq<char>| lex_lt(st@, t);
                let mut count: usize = 0;
                let mut k: usize = 0;
                while k < m
                    invariant
                        m == ds@.len(),
                        dv == ds@.map_values(|s: String| s@),
                        k <= m,
                        p == (|t: Seq<char>| lex_lt(st@, t)),
                        count == dv.take(k as int).filter(p).len(),
                        count <= k,
                    decreases m - k,
                {
                    proof {
                        assert(dv.take(k + 1) =~= dv.take(k as int).push(dv[k as int]));
                        dv.take(k as int).lemma_filter_push(dv[k as int], p);
                    }
                    if lex_less(st, ds[k].as_str()) {
                        count = count + 1;
                    }
                    k = k + 1;
                }
                proof {
                    assert(dv.take(m as int) =~= dv);
                    lemma_filter_count(dv, stamps(nv), p);
                    assert(newer(nv, st@) =~= stamps(nv).filter(p));
                }
                count >= KEEP_RUNS
            },
        };
        r.push(flag);
        j = j + 1;
    }
    r
}

proof fn lemma_lex_asymmetric(a: Seq<char>, b: Seq<char>)
    ensures
        !(lex_lt(a, b) && lex_lt(b, a)),
    decreases a.len(),
{
    if a.len() > 0 && b.len() > 0 && a[0] == b[0] {
        lemma_lex_asymmetric(a.drop_first(), b.drop_first());
    }
}

proof fn lemma_lex_total(a: Seq<char>, b: Seq<char>)
    ensures
        a == b || lex_lt(a, b) || lex_lt(b, a),
    decreases a.len(),
{
    if a.len() == 0 && b.len() == 0 {
        assert(a =~= b);
    } else if a.len() > 0 && b.len() > 0 && a[0] == b[0] {
        lemma_lex_total(a.drop_first(), b.drop_first());
        if a.drop_first() == b.drop_first() {
            assert(a =~= seq![a[0]] + a.drop_first());
            assert(b =~= seq![b[0]] + b.drop_first());
        }
    }
}

proof fn lemma_lex_transitive(a: Seq<char>, b: Seq<char>, c: Seq<char>)
    requires
        lex_lt(a, b),
        lex_lt(b, c),
    ensures
        lex_lt(a, c),
    decreases a.len(),
{
    if a.len() > 0 && a[0] == b[0] && b[0] == c[0] {
        lemma_lex_transitive(a.drop_first(), b.drop_first(), c.drop_first());
    }
}

/// Stamps ordered as they sort: equal, or earlier.
pub open spec fn stamp_le(a: Seq<char>, b: Seq<char>) -> bool {
    a == b || lex_lt(a, b)
}

proof fn lemma_stamp_le_total_ordering()
    ensures
        vstd::relations::total_ordering(|a: Seq<char>, b: Seq<char>| stamp_le(a, b)),
{
    let r = |a: Seq<char>, b: Seq<char>| stamp_le(a, b);
    assert forall|x: Seq<char>, y: Seq<char>| #[trigger] r(x, y) && #[trigger] r(y, x) implies x == y by {
        lemma_lex_asymmetric(x, y);
    }
    assert forall|x: Seq<char>, y: Seq<char>, z: Seq<char>| #[trigger] r(x, y) && #[trigger] r(y, z) implies r(x, z) by {
        if x != y && y != z {
            lemma_lex_transitive(x, y, z);
        }
    }
    assert forall|x: Seq<char>, y: Seq<char>| #[trigger] r(x, y) || #[trigger] r(y, x) by {
        lemma_lex_total(x, y);
    }
}

/// The stamp a name carries, or the name itself when it carries none.
spec fn stamp_or_name(name: Seq<char>) -> Seq<char> {
    match stamp_spec(name) {
        Some(s) => s,
        None => name,
    }
}

proof fn lemma_stamps_finite(names: Seq<Seq<char>>)
    ensures
        stamps(names).finite(),
{
    broadcast use vstd::seq_lib::seq_to_set_is_finite;

    let all = names.map_values(|n: Seq<char>| stamp_or_name(n)).to_set();
    assert forall|s: Seq<char>| stamps(names).contains(s) implies all.contains(s) by {
        let i = choose|i: int| 0 <= i < names.len() && stamp_spec(names[i]) == Some(s);
        assert(names.map_values(|n: Seq<char>| stamp_or_name(n))[i] == s);
    }
    vstd::set_lib::lemma_len_subset(stamps(names), all);
}

/// The runs a pruning of a directory holding `names` leaves: the stamps of
/// the files it keeps.
pub open spec fn surviving_runs(names: Seq<Seq<char>>) -> Set<Seq<char>> {
    Set::new(
        |s: Seq<char>|
            exists|i: int| 0 <= i < names.len() && stamp_spec(names[i]) == Some(s) && !pruned(names, names[i]),
    )
}

/// Pruning counts runs, not files: a run's files all go or all stay, a file
/// that is no run of this module stays, and the runs that survive are the
/// newest [`KEEP_RUNS`] of them, or all of them when there are fewer.
pub proof fn lemma_pruning_keeps_the_newest_runs(names: Seq<Seq<char>>)
    ensures
        forall|i: int, j: int|
            0 <= i < names.len() && 0 <= j < names.len() && stamp_spec(names[i]) == stamp_spec(names[j])
                ==> pruned(names, #[trigger] names[i]) == pruned(names, #[trigger] names[j]),
        forall|i: int| 0 <= i < names.len() && stamp_spec(#[trigger] names[i]) is None ==> !pruned(names, names[i]),
        surviving_runs(names).finite(),
        surviving_runs(names).len() == (if stamps(names).len() < KEEP_RUNS {
            stamps(names).len()
        } else {
            KEEP_RUNS as nat
        }),
        forall|s: Seq<char>|
            #[trigger] surviving_runs(names).contains(s) ==> forall|t: Seq<char>|
                stamps(names).contains(t) && lex_lt(s, t) ==> #[trigger] surviving_runs(names).contains(t),
{
    let k = surviving_runs(names);
    let all = stamps(names);
    lemma_stamps_finite(names);
    assert(k.subset_of(all));
    vstd::set_lib::lemma_len_subset(k, all);
    // A later run than a surviving one has fewer runs after it.
    assert forall|s: Seq<char>|
        #[trigger] k.contains(s) implies forall|t: Seq<char>|
            all.contains(t) && lex_lt(s, t) ==> #[trigger] k.contains(t) by {
        let i = choose|i: int| 0 <= i < names.len() && stamp_spec(names[i]) == Some(s) && !pruned(names, names[i]);
        assert forall|t: Seq<char>| all.contains(t) && lex_lt(s, t) implies #[trigger] k.contains(t) by {
            let j = choose|j: int| 0 <= j < names.len() && stamp_spec(names[j]) == Some(t);
            assert(newer(names, t).subset_of(newer(names, s))) by {
                assert forall|u: Seq<char>| newer(names, t).contains(u) implies newer(names, s).contains(u) by {
                    lemma_lex_transitive(s, t, u);
                }
            }
            all.lemma_len_filter(|u: Seq<char>| lex_lt(s, u));
            vstd::set_lib::lemma_len_subset(newer(names, t), newer(names, s));
            assert(!pruned(names, names[j]));
        }
    }
    if k.len() > 0 {
        let r = |a: Seq<char>, b: Seq<char>| stamp_le(a, b);
        lemma_stamp_le_total_ordering();
        k.find_unique_minimal_ensures(r);
        let m = k.find_unique_minimal(r);
        k.lemma_minimal_equivalent_least(r, m);
        let i = choose|i: int| 0 <= i < names.len() && stamp_spec(names[i]) == Some(m) && !pruned(names, names[i]);
        assert(k.remove(m).subset_of(newer(names, m))) by {
            assert forall|x: Seq<char>| k.remove(m).contains(x) implies newer(names, m).contains(x) by {
                assert(r(m, x));
            }
        }
        all.lemma_len_filter(|u: Seq<char>| lex_lt(m, u));
        vstd::set_lib::lemma_len_subset(k.remove(m), newer(names, m));
    }
    // Every pruned run has at least KEEP_RUNS runs after it, all of which
    // survive when it is the latest pruned one.
    let d = all.difference(k);
    vstd::set_lib::lemma_len_subset(d, all);
    if d.len() > 0 {
        let r = |a: Seq<char>, b: Seq<char>| stamp_le(a, b);
        lemma_stamp_le_total_ordering();
        d.find_unique_maximal_ensures(r);
        let p = d.find_unique_maximal(r);
        d.lemma_maximal_equivalent_greatest(r, p);
        let j = choose|j: int| 0 <= j < names.len() && stamp_spec(names[j]) == Some(p);
        assert(pruned(names, names[j]));
        assert(newer(names, p).subset_of(k)) by {
            assert forall|u: Seq<char>| newer(names, p).contains(u) implies k.contains(u) by {
                if !k.contains(u) {
                    assert(d.contains(u));
                    assert(r(u, p));
                    lemma_lex_asymmetric(p, u);
                }
            }
        }
        vstd::set_lib::lemma_len_subset(newer(names, p), k);
        assert(newer(names, p).subset_of(all.remove(p))) by {
            lemma_lex_asymmetric(p, p);
        }
        vstd::set_lib::lemma_len_subset(newer(names, p), all.remove(p));
    } else {
        assert(k =~= all) by {
            assert forall|x: Seq<char>| all.contains(x) implies k.contains(x) by {
                assert(!d.contains(x));
            }
        }
    }
}

// ── Rotation ──────────────────────────────────────────────────────────────

/// The number of line feeds in `b`.
pub open spec fn newlines(b: Seq<u8>) -> nat {
    b.filter(|x: u8| x == 10u8).len()
}

/// The number of line feeds in `buf`.
pub fn count_newlines(buf: &[u8]) -> (r: u64)
    ensures
        r == newlines(buf@),
{
    let n = buf.len();
    let mut count: u64 = 0;
    let mut i: usize = 0;
    let ghost p = |x: u8| x == 10u8;
    while i < n
        invariant
            n == buf@.len(),
            i <= n,
            p == (|x: u8| x == 10u8),
            count == buf@.take(i as int).filter(p).len(),
            count <= i,
        decreases n - i,
    {
        proof {
            assert(buf@.take(i + 1) =~= buf@.take(i as int).push(buf@[i as int]));
            buf@.take(i as int).lemma_filter_push(buf@[i as int], p);
        }
        if buf[i] == 10u8 {
            count = count + 1;
        }
        i = i + 1;
    }
    assert(buf@.take(n as int) =~= buf@);
    count
}

/// The lines this process wrote to the file being written, and how many
/// times the run has been moved aside.
#[derive(Debug, Clone, Copy, PartialEq, Eq, Structural)]
pub struct LineBudget {
    pub lines: u64,
    pub rotations: u32,
}

impl LineBudget {
    /// The budget of a freshly opened file.
    pub fn new() -> (r: LineBudget)
        ensures
            r.lines == 0,
            r.rotations == 0,
    {
        LineBudget { lines: 0, rotations: 0 }
    }

    /// Count the lines of one write. Once the file is full, answer the
    /// ordinal of the rotation to perform; the budget is spent before the
    /// rotation is tried, so one that cannot happen is retried when the file
    /// is next full, not on every line after.
    pub fn record_write(&mut self, buf: &[u8]) -> (r: Option<u32>)
        requires
            old(self).lines < ROTATE_AFTER_LINES,
            old(self).rotations < u32::MAX,
        ensures
            final(self).lines < ROTATE_AFTER_LINES,
            old(self).lines + newlines(buf@) >= ROTATE_AFTER_LINES ==> final(self).lines == 0
                && final(self).rotations == old(self).rotations + 1 && r == Some((old(self).rotations + 1) as u32),
            old(self).lines + newlines(buf@) < ROTATE_AFTER_LINES ==> final(self).lines == old(self).lines
                + newlines(buf@) && final(self).rotations == old(self).rotations && r is None,
    {
        let added = count_newlines(buf);
        proof {
            assert(newlines(buf@) <= buf@.len()) by {
                buf@.lemma_filter_len(|x: u8| x == 10u8);
            }
        }
        if added >= ROTATE_AFTER_LINES - self.lines {
            self.lines = 0;
            self.rotations = self.rotations + 1;
            Some(self.rotations)
        } else {
            self.lines = self.lines + added;
            None
        }
    }
}

} // verus!
