//! The in-memory log ring behind the in-app log viewer: the newest
//! `MAX_ENTRIES` records, each numbered, readable from a given number on;
//! and the level rules of the logger that feeds it.
use vstd::prelude::*;
use std::collections::VecDeque;
use crate::text;

verus! {

/// Maximum number of log records kept in memory.
pub const MAX_ENTRIES: usize = 1000;

/// Severity of a log record.
#[derive(Debug, Clone, Copy, PartialEq, Eq, Structural)]
pub enum LogLevel {
    Error,
    Warn,
    Info,
    Debug,
    Trace,
}

/// The most verbose level a logger lets through, or none.
#[derive(Debug, Clone, Copy, PartialEq, Eq, Structural)]
pub enum LevelFilter {
    Off,
    Error,
    Warn,
    Info,
    Debug,
    Trace,
}

/// The name a level is shown with.
pub open spec fn level_name(l: LogLevel) -> Seq<char> {
    match l {
        LogLevel::Error => "ERROR"@,
        LogLevel::Warn => "WARN"@,
        LogLevel::Info => "INFO"@,
        LogLevel::Debug => "DEBUG"@,
        LogLevel::Trace => "TRACE"@,
    }
}

/// Verbosity rank of a level: 1 for errors up to 5 for traces.
pub open spec fn level_rank(l: LogLevel) -> int {
    match l {
        LogLevel::Error => 1,
        LogLevel::Warn => 2,
        LogLevel::Info => 3,
        LogLevel::Debug => 4,
        LogLevel::Trace => 5,
    }
}

/// Verbosity rank of a filter: 0 for none up to 5 for traces.
pub open spec fn filter_rank(f: LevelFilter) -> int {
    match f {
        LevelFilter::Off => 0,
        LevelFilter::Error => 1,
        LevelFilter::Warn => 2,
        LevelFilter::Info => 3,
        LevelFilter::Debug => 4,
        LevelFilter::Trace => 5,
    }
}

/// `a` is at least as severe as `b`: errors are the most severe, then
/// warnings, information, debugging, and traces the least.
pub open spec fn at_least_as_severe(a: LogLevel, b: LogLevel) -> bool {
    match b {
        LogLevel::Error => a == LogLevel::Error,
        LogLevel::Warn => a == LogLevel::Error || a == LogLevel::Warn,
        LogLevel::Info => a != LogLevel::Debug && a != LogLevel::Trace,
        LogLevel::Debug => a != LogLevel::Trace,
        LogLevel::Trace => true,
    }
}

/// The least severe level a filter lets through: the level of the same
/// name; none for `Off`.
pub open spec fn filter_ceiling(f: LevelFilter) -> Option<LogLevel> {
    match f {
        LevelFilter::Off => None,
        LevelFilter::Error => Some(LogLevel::Error),
        LevelFilter::Warn => Some(LogLevel::Warn),
        LevelFilter::Info => Some(LogLevel::Info),
        LevelFilter::Debug => Some(LogLevel::Debug),
        LevelFilter::Trace => Some(LogLevel::Trace),
    }
}

/// A filter lets a level through exactly when the level is at least as
/// severe as the filter's own level (`Off` lets nothing through): a level
/// passes the filter of its own name and every less verbose one, and no
/// more verbose level passes.
pub proof fn law_level_filter(l: LogLevel, f: LevelFilter)
    ensures
        (level_rank(l) <= filter_rank(f)) == (match filter_ceiling(f) {
            Some(m) => at_least_as_severe(l, m),
            None => false,
        }),
{
}

impl LogLevel {
    /// The name the level is shown with, in capitals.
    pub fn as_str(&self) -> (s: &'static str)
        ensures
            s@ == level_name(*self),
    {
        match self {
            LogLevel::Error => "ERROR",
            LogLevel::Warn => "WARN",
            LogLevel::Info => "INFO",
            LogLevel::Debug => "DEBUG",
            LogLevel::Trace => "TRACE",
        }
    }
}

/// Whether a record of level `level` passes the filter `filter`.
pub fn level_enabled(level: LogLevel, filter: LevelFilter) -> (b: bool)
    ensures
        b == (level_rank(level) <= filter_rank(filter)),
        b == (match filter_ceiling(filter) {
            Some(m) => at_least_as_severe(level, m),
            None => false,
        }),
{
    proof {
        law_level_filter(level, filter);
    }
    let l: u8 = match level {
        LogLevel::Error => 1,
        LogLevel::Warn => 2,
        LogLevel::Info => 3,
        LogLevel::Debug => 4,
        LogLevel::Trace => 5,
    };
    let f: u8 = match filter {
        LevelFilter::Off => 0,
        LevelFilter::Error => 1,
        LevelFilter::Warn => 2,
        LevelFilter::Info => 3,
        LevelFilter::Debug => 4,
        LevelFilter::Trace => 5,
    };
    l <= f
}

/// One log record.
#[derive(Debug, Clone)]
pub struct LogEntry {
    pub seq: u64,
    pub ts_ms: u64,
    pub level: String,
    pub target: String,
    pub message: String,
}

/// Numbers strictly increase along `s`.
pub open spec fn increasing(s: Seq<LogEntry>) -> bool {
    forall|i: int, j: int| 0 <= i < j < s.len() ==> s[i].seq < s[j].seq
}

/// The records of `s` numbered above `since`, in order.
pub open spec fn after_seq(s: Seq<LogEntry>, since: u64) -> Seq<LogEntry>
    decreases s.len(),
{
    if s.len() == 0 {
        s
    } else if s.last().seq > since {
        after_seq(s.drop_last(), since).push(s.last())
    } else {
        after_seq(s.drop_last(), since)
    }
}

/// `after` is `before` with one record appended, after dropping the
/// oldest when `before` is full.
pub open spec fn appended(before: Seq<LogEntry>, after: Seq<LogEntry>) -> bool {
    &&& after.len() >= 1
    &&& after.drop_last() == (if before.len() >= MAX_ENTRIES {
        before.drop_first()
    } else {
        before
    })
}

/// `e` is the record numbered `seq` stamped `ts` with these contents.
pub open spec fn record_of(
    e: LogEntry,
    seq: u64,
    ts: u64,
    level: LogLevel,
    target: Seq<char>,
    message: String,
) -> bool {
    &&& e.seq == seq
    &&& e.ts_ms == ts
    &&& e.level@ == level_name(level)
    &&& e.target@ == target
    &&& e.message == message
}

/// The newest records, oldest first.
pub struct LogBuffer {
    entries: VecDeque<LogEntry>,
    next_seq: u64,
}

fn copy_entry(e: &LogEntry) -> (r: LogEntry)
    ensures
        r == *e,
{
    LogEntry {
        seq: e.seq,
        ts_ms: e.ts_ms,
        level: e.level.clone(),
        target: e.target.clone(),
        message: e.message.clone(),
    }
}

/// Declares `std::time::SystemTime`, kept opaque.
#[verifier::external_type_specification]
#[verifier::external_body]
pub struct ExSystemTime(std::time::SystemTime);

/// Calls `SystemTime::now`; nothing is claimed of the time it returns.
#[verifier::external_body]
fn system_now() -> std::time::SystemTime {
    std::time::SystemTime::now()
}

/// Calls `SystemTime::duration_since` with the Unix epoch and converts the
/// duration to whole milliseconds (0 for a time before the epoch);
/// nothing is claimed of the value.
#[verifier::external_body]
fn millis_since_epoch(t: &std::time::SystemTime) -> u64 {
    t.duration_since(std::time::UNIX_EPOCH).map(|d| d.as_millis() as u64).unwrap_or(0)
}

impl LogBuffer {
    /// The records kept, oldest first.
    pub closed spec fn entries(&self) -> Seq<LogEntry> {
        self.entries@
    }

    /// The number the next record gets.
    pub closed spec fn next_seq(&self) -> u64 {
        self.next_seq
    }

    /// At most `MAX_ENTRIES` records, numbered in increasing order, all
    /// below the next number.
    pub open spec fn wf(&self) -> bool {
        &&& self.entries().len() <= MAX_ENTRIES
        &&& increasing(self.entries())
        &&& forall|i: int| 0 <= i < self.entries().len() ==> #[trigger] self.entries()[i].seq < self.next_seq()
        &&& self.next_seq() >= 1
    }

    /// An empty buffer whose first record gets number 1.
    pub fn new() -> (b: LogBuffer)
        ensures
            b.wf(),
            b.entries() == Seq::<LogEntry>::empty(),
            b.next_seq() == 1,
    {
        LogBuffer { entries: VecDeque::new(), next_seq: 1 }
    }

    /// Appends a record stamped with the wall clock; see `push_at`.
    pub fn push(&mut self, level: LogLevel, target: &str, message: String)
        requires
            old(self).wf(),
            old(self).next_seq() < u64::MAX,
        ensures
            final(self).wf(),
            final(self).next_seq() == old(self).next_seq() + 1,
            exists|ts: u64|
                #![trigger record_of(final(self).entries().last(), old(self).next_seq(), ts, level, target@, message)]
                appended(old(self).entries(), final(self).entries()) && record_of(
                    final(self).entries().last(),
                    old(self).next_seq(),
                    ts,
                    level,
                    target@,
                    message,
                ),
    {
        let now = system_now();
        let ts = millis_since_epoch(&now);
        self.push_at(level, target, message, ts);
    }

    /// Appends a record with the next number and time stamp `ts_ms`,
    /// dropping the oldest record when `MAX_ENTRIES` are kept already.
    pub fn push_at(&mut self, level: LogLevel, target: &str, message: String, ts_ms: u64)
        requires
            old(self).wf(),
            old(self).next_seq() < u64::MAX,
        ensures
            final(self).wf(),
            final(self).next_seq() == old(self).next_seq() + 1,
            appended(old(self).entries(), final(self).entries()),
            record_of(final(self).entries().last(), old(self).next_seq(), ts_ms, level, target@, message),
    {
        let seq = self.next_seq;
        self.next_seq = seq + 1;
        if self.entries.len() >= MAX_ENTRIES {
            let _ = self.entries.pop_front();
        }
        let entry = LogEntry {
            seq,
            ts_ms,
            level: level.as_str().to_string(),
            target: target.to_string(),
            message,
        };
        let ghost kept = self.entries@;
        self.entries.push_back(entry);
        assert(self.entries@.drop_last() =~= kept);
    }

    /// The records numbered above `since`, oldest first; all of them when
    /// `since` is `None`.
    pub fn tail_since(&self, since: Option<u64>) -> (r: Vec<LogEntry>)
        requires
            self.wf(),
        ensures
            since is None ==> r@ == self.entries(),
            since matches Some(s) ==> r@ == after_seq(self.entries(), s),
    {
        let mut r: Vec<LogEntry> = Vec::new();
        let mut i: usize = 0;
        while i < self.entries.len()
            invariant
                0 <= i <= self.entries@.len(),
                since is None ==> r@ == self.entries@.subrange(0, i as int),
                since matches Some(s) ==> r@ == after_seq(self.entries@.subrange(0, i as int), s),
            decreases self.entries@.len() - i,
        {
            let e = &self.entries[i];
            proof {
                assert(self.entries@.subrange(0, i + 1).drop_last() =~= self.entries@.subrange(0, i as int));
            }
            match since {
                Some(s) => {
                    if e.seq > s {
                        r.push(copy_entry(e));
                    }
                },
                None => {
                    r.push(copy_entry(e));
                },
            }
            proof {
                if since is None {
                    assert(r@ =~= self.entries@.subrange(0, i + 1));
                }
            }
            i += 1;
        }
        assert(self.entries@.subrange(0, self.entries@.len() as int) =~= self.entries@);
        r
    }

    /// Drops every record; numbering continues where it was.
    pub fn clear(&mut self)
        requires
            old(self).wf(),
        ensures
            final(self).wf(),
            final(self).entries() == Seq::<LogEntry>::empty(),
            final(self).next_seq() == old(self).next_seq(),
    {
        self.entries.clear();
    }

    /// Whether another record can be numbered (numbers stop below
    /// `u64::MAX`).
    pub fn can_push(&self) -> (b: bool)
        ensures
            b == (self.next_seq() < u64::MAX),
    {
        self.next_seq < u64::MAX
    }

    /// Number of records kept.
    pub fn len(&self) -> (n: usize)
        ensures
            n == self.entries().len(),
    {
        self.entries.len()
    }
}


// ----------------------------------------------------------------------
// Laws
// ----------------------------------------------------------------------

/// Reading the log from a record number on gives exactly the kept records
/// numbered above it: a record is returned if and only if it is kept and
/// numbered above.
pub proof fn law_tail_exact(entries: Seq<LogEntry>, since: u64)
    ensures
        forall|e: LogEntry| #[trigger] after_seq(entries, since).contains(e) <==> (entries.contains(e) && e.seq > since),
    decreases entries.len(),
{
    if entries.len() > 0 {
        let rest = entries.drop_last();
        let last = entries.last();
        law_tail_exact(rest, since);
        assert(entries =~= rest.push(last));
        assert forall|e: LogEntry| #[trigger] after_seq(entries, since).contains(e) implies (entries.contains(e)
            && e.seq > since) by {
            let a = after_seq(rest, since);
            if last.seq > since {
                let k = choose|k: int| 0 <= k < a.push(last).len() && a.push(last)[k] == e;
                if k < a.len() {
                    assert(a[k] == e);
                    assert(a.contains(e));
                    let m = choose|m: int| 0 <= m < rest.len() && rest[m] == e;
                    assert(entries[m] == e);
                } else {
                    assert(entries[entries.len() - 1] == e);
                }
            } else {
                let m = choose|m: int| 0 <= m < rest.len() && rest[m] == e;
                assert(entries[m] == e);
            }
        }
        assert forall|e: LogEntry| entries.contains(e) && e.seq > since implies #[trigger] after_seq(
            entries,
            since,
        ).contains(e) by {
            let a = after_seq(rest, since);
            let k = choose|k: int| 0 <= k < entries.len() && entries[k] == e;
            if k < entries.len() - 1 {
                assert(rest[k] == e);
                assert(a.contains(e));
                let m = choose|m: int| 0 <= m < a.len() && a[m] == e;
                if last.seq > since {
                    assert(a.push(last)[m] == e);
                }
            } else {
                assert(a.push(last)[a.len() as int] == e);
            }
        }
    }
}

proof fn lemma_after_none(entries: Seq<LogEntry>, since: u64)
    requires
        forall|i: int| 0 <= i < entries.len() ==> #[trigger] entries[i].seq <= since,
    ensures
        after_seq(entries, since) == Seq::<LogEntry>::empty(),
    decreases entries.len(),
{
    if entries.len() > 0 {
        lemma_after_none(entries.drop_last(), since);
    }
}

/// Since record numbers increase, the records numbered above any number
/// are the newest ones: a suffix of the kept records.
pub proof fn law_tail_is_suffix(entries: Seq<LogEntry>, since: u64)
    requires
        increasing(entries),
    ensures
        exists|k: int| 0 <= k <= entries.len() && after_seq(entries, since) == #[trigger] entries.subrange(k, entries.len() as int),
    decreases entries.len(),
{
    let n = entries.len() as int;
    if n == 0 {
        assert(after_seq(entries, since) =~= entries.subrange(0, 0));
    } else if entries.last().seq > since {
        let rest = entries.drop_last();
        law_tail_is_suffix(rest, since);
        let k = choose|k: int| 0 <= k <= rest.len() && after_seq(rest, since) == #[trigger] rest.subrange(k, rest.len() as int);
        assert(after_seq(entries, since) =~= entries.subrange(k, n));
    } else {
        assert forall|i: int| 0 <= i < n implies #[trigger] entries[i].seq <= since by {
            if i < n - 1 {
                assert(entries[i].seq < entries[n - 1].seq);
            }
        }
        lemma_after_none(entries, since);
        assert(after_seq(entries, since) =~= entries.subrange(n, n));
    }
}

// ----------------------------------------------------------------------
// The logger's level setting
// ----------------------------------------------------------------------

/// A separator between directives of a level setting.
pub open spec fn is_separator(c: char) -> bool {
    c == ',' || c == '=' || c == ':'
}

/// The pieces of `s` between separators, in order (an empty string gives
/// one empty piece).
pub open spec fn pieces(s: Seq<char>) -> Seq<Seq<char>>
    decreases s.len(),
{
    if s.len() == 0 {
        seq![Seq::<char>::empty()]
    } else {
        let p = pieces(s.drop_last());
        if is_separator(s.last()) {
            p.push(Seq::<char>::empty())
        } else {
            p.update(p.len() - 1, p.last().push(s.last()))
        }
    }
}

/// The filter a piece names once trimmed and lower-cased, if any.
pub open spec fn filter_named(piece: Seq<char>) -> Option<LevelFilter> {
    filter_word(text::lowercase(text::trim_seq(piece)))
}

/// The filter a lower-cased word names (`off`, `error`, `warn` or
/// `warning`, `info`, `debug`, `trace`), if any.
pub open spec fn filter_word(w: Seq<char>) -> Option<LevelFilter> {
    if w == "off"@ {
        Some(LevelFilter::Off)
    } else if w == "error"@ {
        Some(LevelFilter::Error)
    } else if w == "warn"@ || w == "warning"@ {
        Some(LevelFilter::Warn)
    } else if w == "info"@ {
        Some(LevelFilter::Info)
    } else if w == "debug"@ {
        Some(LevelFilter::Debug)
    } else if w == "trace"@ {
        Some(LevelFilter::Trace)
    } else {
        None
    }
}

/// The filter named by the first piece of `ps` that names one.
pub open spec fn first_named(ps: Seq<Seq<char>>) -> Option<LevelFilter>
    decreases ps.len(),
{
    if ps.len() == 0 {
        None
    } else if filter_named(ps[0]) is Some {
        filter_named(ps[0])
    } else {
        first_named(ps.drop_first())
    }
}

/// The filter a level setting asks for: the one named by its first piece
/// that names one, else `Info`; `Info` with no setting.
pub open spec fn filter_of_setting(setting: Option<Seq<char>>) -> LevelFilter {
    match setting {
        Some(s) => match first_named(pieces(s)) {
            Some(f) => f,
            None => LevelFilter::Info,
        },
        None => LevelFilter::Info,
    }
}

fn piece_filter(piece: &Vec<char>) -> (r: Option<LevelFilter>)
    ensures
        r == filter_named(piece@),
{
    let s = text::string_of_range(piece, 0, piece.len());
    assert(piece@.subrange(0, piece@.len() as int) =~= piece@);
    let t = text::trim(s.as_str());
    let w = text::to_lower(t.as_str());
    filter_for_word(w.as_str())
}

/// The filter the lower-cased word `w` names (see `filter_word`).
pub fn filter_for_word(w: &str) -> (r: Option<LevelFilter>)
    ensures
        r == filter_word(w@),
{
    if text::same_text(w, "off") {
        Some(LevelFilter::Off)
    } else if text::same_text(w, "error") {
        Some(LevelFilter::Error)
    } else if text::same_text(w, "warn") || text::same_text(w, "warning") {
        Some(LevelFilter::Warn)
    } else if text::same_text(w, "info") {
        Some(LevelFilter::Info)
    } else if text::same_text(w, "debug") {
        Some(LevelFilter::Debug)
    } else if text::same_text(w, "trace") {
        Some(LevelFilter::Trace)
    } else {
        None
    }
}

proof fn lemma_first_named_push(ps: Seq<Seq<char>>, p: Seq<char>)
    requires
        first_named(ps) is None,
    ensures
        first_named(ps.push(p)) == filter_named(p),
    decreases ps.len(),
{
    assert(ps.push(p)[0] == (if ps.len() == 0 { p } else { ps[0] }));
    if ps.len() == 0 {
        assert(ps.push(p).drop_first() =~= Seq::<Seq<char>>::empty());
        assert(first_named(Seq::<Seq<char>>::empty()) is None);
    } else {
        assert(ps.push(p).drop_first() =~= ps.drop_first().push(p));
        lemma_first_named_push(ps.drop_first(), p);
    }
}

proof fn lemma_first_named_prefix(ps: Seq<Seq<char>>, qs: Seq<Seq<char>>)
    requires
        first_named(ps) is Some,
    ensures
        first_named(ps + qs) == first_named(ps),
    decreases ps.len(),
{
    assert((ps + qs)[0] == ps[0]);
    if filter_named(ps[0]) is None {
        assert((ps + qs).drop_first() =~= ps.drop_first() + qs);
        lemma_first_named_prefix(ps.drop_first(), qs);
    }
}

proof fn lemma_pieces_append(s: Seq<char>, c: char)
    ensures
        is_separator(c) ==> pieces(s.push(c)) == pieces(s).push(Seq::<char>::empty()),
        !is_separator(c) ==> pieces(s.push(c)) == pieces(s).update(
            pieces(s).len() - 1,
            pieces(s).last().push(c),
        ),
{
    assert(s.push(c).drop_last() =~= s);
}

proof fn lemma_pieces_nonempty(s: Seq<char>)
    ensures
        pieces(s).len() >= 1,
    decreases s.len(),
{
    if s.len() > 0 {
        lemma_pieces_nonempty(s.drop_last());
    }
}

/// The filter a level setting (the value of `RUST_LOG`, if set) asks for:
/// the first of its `,`/`=`/`:`-separated pieces that, trimmed and
/// lower-cased, names a level (`off`, `error`, `warn` or `warning`,
/// `info`, `debug`, `trace`); `Info` otherwise.
pub fn level_from_setting(setting: Option<&str>) -> (f: LevelFilter)
    ensures
        f == filter_of_setting(
            match setting {
                Some(s) => Some(s@),
                None => None,
            },
        ),
{
    let s = match setting {
        Some(s) => s,
        None => return LevelFilter::Info,
    };
    let chars = text::chars_of(s);
    let mut piece: Vec<char> = Vec::new();
    let mut i: usize = 0;
    while i < chars.len()
        invariant
            0 <= i <= chars.len(),
            chars@ == s@,
            setting == Some(s),
            pieces(chars@.subrange(0, i as int)).len() >= 1,
            first_named(pieces(chars@.subrange(0, i as int)).drop_last()) is None,
            piece@ == pieces(chars@.subrange(0, i as int)).last(),
        decreases chars.len() - i,
    {
        let c = chars[i];
        let ghost pre = chars@.subrange(0, i as int);
        proof {
            assert(chars@.subrange(0, i + 1) =~= pre.push(c));
            lemma_pieces_append(pre, c);
            lemma_pieces_nonempty(pre);
        }
        if c == ',' || c == '=' || c == ':' {
            let found = piece_filter(&piece);
            proof {
                let ps = pieces(pre);
                assert(ps =~= ps.drop_last().push(ps.last()));
                lemma_first_named_push(ps.drop_last(), ps.last());
            }
            if found.is_some() {
                proof {
                    let ps = pieces(pre);
                    let full = pieces(s@);
                    // the pieces of the whole setting begin with those read so far
                    lemma_pieces_extend(pre, s@, i as int);
                    let rest = full.subrange(ps.len() as int, full.len() as int);
                    assert(full =~= ps + rest);
                    assert(first_named(ps) == found);
                    lemma_first_named_prefix(ps, rest);
                    assert(first_named(full) == found);
                }
                return found.unwrap();
            }
            piece = Vec::new();
            proof {
                let ps = pieces(pre);
                assert(pieces(chars@.subrange(0, i + 1)).drop_last() =~= ps);
            }
        } else {
            piece.push(c);
            proof {
                let ps = pieces(pre);
                assert(pieces(chars@.subrange(0, i + 1)).drop_last() =~= ps.drop_last());
            }
        }
        i += 1;
    }
    let last = piece_filter(&piece);
    proof {
        assert(chars@.subrange(0, chars@.len() as int) =~= s@);
        let ps = pieces(s@);
        assert(ps =~= ps.drop_last().push(ps.last()));
        lemma_first_named_push(ps.drop_last(), ps.last());
    }
    match last {
        Some(f) => f,
        None => LevelFilter::Info,
    }
}

/// The pieces of `s` begin with the pieces of its first `i` characters,
/// all but the last of which are complete.
proof fn lemma_pieces_extend(pre: Seq<char>, s: Seq<char>, i: int)
    requires
        0 <= i < s.len(),
        pre == s.subrange(0, i),
        is_separator(s[i]),
    ensures
        pieces(s).len() >= pieces(pre).len(),
        pieces(s).subrange(0, pieces(pre).len() as int) == pieces(pre),
    decreases s.len(),
{
    lemma_pieces_nonempty(pre);
    if s.len() == i + 1 {
        assert(s =~= pre.push(s[i]));
        lemma_pieces_append(pre, s[i]);
        assert(pieces(s).subrange(0, pieces(pre).len() as int) =~= pieces(pre));
    } else {
        let t = s.drop_last();
        assert(t.subrange(0, i) =~= pre);
        assert(t[i] == s[i]);
        lemma_pieces_extend(pre, t, i);
        assert(s =~= t.push(s.last()));
        lemma_pieces_append(t, s.last());
        lemma_pieces_nonempty(t);
        let pt = pieces(t);
        let np = pieces(pre).len() as int;
        // the last piece of t lies after the separator at i, so it is not among the first np
        lemma_pieces_count(t, i);
        if is_separator(s.last()) {
            assert(pieces(s).subrange(0, np) =~= pt.subrange(0, np));
        } else {
            assert(pieces(s).subrange(0, np) =~= pt.subrange(0, np));
        }
    }
}

/// Past a separator at `i`, there are more pieces than before it.
proof fn lemma_pieces_count(t: Seq<char>, i: int)
    requires
        0 <= i < t.len(),
        is_separator(t[i]),
    ensures
        pieces(t).len() > pieces(t.subrange(0, i)).len(),
    decreases t.len(),
{
    lemma_pieces_nonempty(t.subrange(0, i));
    if t.len() == i + 1 {
        assert(t =~= t.subrange(0, i).push(t[i]));
        lemma_pieces_append(t.subrange(0, i), t[i]);
    } else {
        let u = t.drop_last();
        assert(u.subrange(0, i) =~= t.subrange(0, i));
        assert(u[i] == t[i]);
        lemma_pieces_count(u, i);
        assert(t =~= u.push(t.last()));
        lemma_pieces_append(u, t.last());
        lemma_pieces_nonempty(u);
    }
}

/// Hours, minutes and seconds of the day for a time given in seconds since
/// the Unix epoch (UTC).
pub fn clock_of_day(secs: u64) -> (r: (u64, u64, u64))
    ensures
        r.0 == (secs % 86400) / 3600,
        r.1 == ((secs % 86400) % 3600) / 60,
        r.2 == (secs % 86400) % 60,
        r.0 < 24 && r.1 < 60 && r.2 < 60,
{
    let day = secs % 86400;
    (day / 3600, (day % 3600) / 60, day % 60)
}

} // verus!
