//! The thread-safe collector's data core: metric series kept by name and an
//! append-only log sequence.
//!
//! A [`ClogTracker`] owns one [`Series`] per metric name, in the order the
//! names were first recorded (that order is the defined, deterministic
//! iteration order that filtering and navigation build on), and one shared
//! log sequence across all levels. Both are mutated only by appends. The
//! callers that share a tracker between threads wrap it in an exclusion
//! guard; each operation here is one bounded step, so the guard is held only
//! for that step.

use vstd::prelude::*;

use crate::clock;

verus! {

/// Log severity. An unrecognized level name is normalized to `Info` rather
/// than rejected (a silent, documented fallback).
#[derive(Clone, Copy, Debug, PartialEq, Eq, Structural)]
pub enum LogLevel {
    Info,
    Warning,
    Error,
}

/// One scalar observation. The measured value is carried as the raw bit
/// pattern of an IEEE 754 double, so the store and every query over it stay
/// exact; presentation layers convert back to a floating-point number.
#[derive(Debug, PartialEq)]
pub struct Metric {
    pub name: String,
    pub value_bits: u64,
    pub timestamp: u64,
    pub step: usize,
}

/// Mathematical image of a [`Metric`].
pub struct MetricView {
    pub name: Seq<char>,
    pub value_bits: u64,
    pub timestamp: u64,
    pub step: usize,
}

impl View for Metric {
    type V = MetricView;

    open spec fn view(&self) -> MetricView {
        MetricView {
            name: self.name@,
            value_bits: self.value_bits,
            timestamp: self.timestamp,
            step: self.step,
        }
    }
}

impl DeepView for Metric {
    type V = MetricView;

    open spec fn deep_view(&self) -> MetricView {
        self.view()
    }
}

/// One line of the shared log sequence.
#[derive(Debug, PartialEq)]
pub struct LogEntry {
    pub message: String,
    pub timestamp: u64,
    pub level: LogLevel,
}

/// Mathematical image of a [`LogEntry`].
pub struct LogView {
    pub message: Seq<char>,
    pub timestamp: u64,
    pub level: LogLevel,
}

impl View for LogEntry {
    type V = LogView;

    open spec fn view(&self) -> LogView {
        LogView { message: self.message@, timestamp: self.timestamp, level: self.level }
    }
}

impl DeepView for LogEntry {
    type V = LogView;

    open spec fn deep_view(&self) -> LogView {
        self.view()
    }
}

/// The history of all metrics recorded under one name, in insertion order.
/// A series is created by the first append under its name and is never empty
/// afterwards.
#[derive(Debug)]
pub struct Series {
    pub name: String,
    pub points: Vec<Metric>,
}

/// The collector: metric series by name, and the log sequence.
#[derive(Debug)]
pub struct ClogTracker {
    metrics: Vec<Series>,
    logs: Vec<LogEntry>,
}

/// Total normalization from a level name to a [`LogLevel`]: the three
/// recognized names map to their level, everything else falls back to `Info`.
pub open spec fn level_spec(s: Seq<char>) -> LogLevel {
    if s == "info"@ {
        LogLevel::Info
    } else if s == "warning"@ {
        LogLevel::Warning
    } else if s == "error"@ {
        LogLevel::Error
    } else {
        LogLevel::Info
    }
}

/// Normalizes a level name; unrecognized input falls back to `Info` instead
/// of failing.
pub fn level_from_string(level: &String) -> (r: LogLevel)
    ensures
        r == level_spec(level@),
{
    if level.eq(&"info".to_owned()) {
        LogLevel::Info
    } else if level.eq(&"warning".to_owned()) {
        LogLevel::Warning
    } else if level.eq(&"error".to_owned()) {
        LogLevel::Error
    } else {
        LogLevel::Info
    }
}

impl ClogTracker {
    /// The metric names, in the order their series were created.
    pub closed spec fn names(self) -> Seq<Seq<char>> {
        self.metrics@.map_values(|s: Series| s.name@)
    }

    /// Whether a series exists under `name`.
    pub open spec fn has_name(self, name: Seq<char>) -> bool {
        self.names().contains(name)
    }

    /// The recorded history under `name`, oldest first; empty if no series
    /// exists under `name`.
    pub closed spec fn series(self, name: Seq<char>) -> Seq<MetricView> {
        if self.has_name(name) {
            let i = choose|i: int|
                0 <= i < self.metrics@.len() && self.metrics@[i].name@ == name;
            self.metrics@[i].points.deep_view()
        } else {
            Seq::empty()
        }
    }

    /// The log sequence, oldest first.
    pub closed spec fn logs_view(self) -> Seq<LogView> {
        self.logs.deep_view()
    }

    /// Structural invariant: series names are unique, and no series is empty.
    pub closed spec fn wf(self) -> bool {
        &&& forall|i: int, j: int|
            0 <= i < j < self.metrics@.len() ==> #[trigger] self.metrics@[i].name@
                != #[trigger] self.metrics@[j].name@
        &&& forall|i: int|
            0 <= i < self.metrics@.len() ==> (#[trigger] self.metrics@[i].points@.len()) > 0
    }

    /// Creates an empty collector.
    pub fn new() -> (r: ClogTracker)
        ensures
            r.wf(),
            r.names() == Seq::<Seq<char>>::empty(),
            r.logs_view() == Seq::<LogView>::empty(),
            forall|n: Seq<char>| #[trigger] r.series(n) == Seq::<MetricView>::empty(),
    {
        let r = ClogTracker { metrics: Vec::new(), logs: Vec::new() };
        proof {
            assert(r.names() =~= Seq::<Seq<char>>::empty());
            assert(r.logs_view() =~= Seq::<LogView>::empty());
        }
        r
    }

    /// First index whose series carries `name`, if any.
    fn find_series_index(&self, name: &String) -> (r: Option<usize>)
        ensures
            match r {
                Some(i) => i < self.metrics@.len() && self.metrics@[i as int].name@ == name@,
                None => !self.has_name(name@),
            },
    {
        let n = self.metrics.len();
        let mut i: usize = 0;
        while i < n
            invariant
                i <= n,
                n == self.metrics@.len(),
                forall|k: int| 0 <= k < i ==> #[trigger] self.metrics@[k].name@ != name@,
            decreases n - i,
        {
            if self.metrics[i].name.eq(name) {
                return Some(i);
            }
            i = i + 1;
        }
        proof {
            assert forall|k: int| 0 <= k < self.names().len() implies self.names()[k]
                != name@ by {
                assert(self.names()[k] == self.metrics@[k].name@);
            }
        }
        None
    }

    /// The one atomic append step of the write path: adds one observation to
    /// the series under `name`, creating the series if absent. Everything
    /// else in the store — the other series, the name order, the logs — is
    /// untouched.
    pub fn record_metric(&mut self, name: String, value_bits: u64, step: usize, timestamp: u64)
        requires
            old(self).wf(),
        ensures
            final(self).wf(),
            final(self).logs_view() == old(self).logs_view(),
            final(self).series(name@) == old(self).series(name@).push(
                (MetricView { name: name@, value_bits: value_bits, timestamp: timestamp, step: step }),
            ),
            forall|n: Seq<char>| n != name@ ==> #[trigger] final(self).series(n) == old(self).series(n),
            forall|n: Seq<char>| #[trigger] final(self).has_name(n) <==> (old(self).has_name(n) || n == name@),
            old(self).has_name(name@) ==> final(self).names() == old(self).names(),
            !old(self).has_name(name@) ==> final(self).names() == old(self).names().push(name@),
    {
        let ghost t1 = *self;
        let ghost gname = name@;
        let idx = self.find_series_index(&name);
        match idx {
            Some(i) => {
                let mut s = self.metrics.remove(i);
                let m = Metric { name, value_bits, timestamp, step };
                let ghost gm = m;
                let ghost mv = m@;
                s.points.push(m);
                self.metrics.insert(i, s);
                proof {
                    let ghost pts0 = t1.metrics@[i as int].points@;
                    let ghost s2 = self.metrics@[i as int];
                    assert(self.metrics@ =~= t1.metrics@.update(i as int, s2));
                    assert(s2.name@ == gname);
                    assert(s2.points@ == pts0.push(gm));
                    assert(self.names() =~= t1.names());
                    assert(self.wf()) by {
                        assert forall|k: int|
                            0 <= k < self.metrics@.len() implies (
                        #[trigger] self.metrics@[k].points@.len()) > 0 by {
                            if k != i {
                                assert(self.metrics@[k] == t1.metrics@[k]);
                            }
                        }
                    }
                    assert(t1.has_name(gname)) by {
                        assert(t1.names()[i as int] == gname);
                    }
                    lemma_series_at(t1, i as int);
                    lemma_series_at(*self, i as int);
                    assert(self.series(gname) =~= t1.series(gname).push(mv)) by {
                        assert(self.series(gname) == s2.points.deep_view());
                        assert(t1.series(gname) == t1.metrics@[i as int].points.deep_view());
                        assert(s2.points@ == pts0.push(gm));
                        assert(s2.points.deep_view() =~= t1.metrics@[
                            i as int
                        ].points.deep_view().push(mv));
                    }
                    assert forall|n: Seq<char>| n != gname implies #[trigger] self.series(n)
                        == t1.series(n) by {
                        lemma_series_other(t1, *self, i as int, n);
                    }
                }
            },
            None => {
                let series_name = name.clone();
                let m = Metric { name, value_bits, timestamp, step };
                let ghost gm = m;
                let ghost mv = m@;
                let mut points: Vec<Metric> = Vec::new();
                points.push(m);
                self.metrics.push(Series { name: series_name, points });
                proof {
                    let ghost ln = t1.metrics@.len() as int;
                    assert(self.metrics@ =~= t1.metrics@.push(self.metrics@[ln]));
                    assert(self.metrics@[ln].name@ == gname);
                    assert(self.names() =~= t1.names().push(gname));
                    assert forall|k: int| 0 <= k < ln implies #[trigger] t1.names()[k]
                        != gname by {
                        if t1.names()[k] == gname {
                            assert(t1.has_name(gname));
                        }
                    }
                    assert(self.wf()) by {
                        assert forall|i2: int, j2: int|
                            0 <= i2 < j2 < self.metrics@.len() implies #[trigger] self.metrics@[i2].name@
                            != #[trigger] self.metrics@[j2].name@ by {
                            if j2 < ln {
                                assert(t1.metrics@[i2].name@ != t1.metrics@[j2].name@);
                            } else {
                                assert(t1.names()[i2] == t1.metrics@[i2].name@);
                            }
                        }
                        assert forall|k: int|
                            0 <= k < self.metrics@.len() implies (
                        #[trigger] self.metrics@[k].points@.len()) > 0 by {
                            if k < ln {
                                assert(self.metrics@[k] == t1.metrics@[k]);
                            }
                        }
                    }
                    lemma_series_at(*self, ln);
                    assert(self.series(gname) =~= t1.series(gname).push(mv)) by {
                        assert(self.metrics@[ln].points@ =~= Seq::<Metric>::empty().push(gm));
                        assert(self.series(gname) == self.metrics@[ln].points.deep_view());
                        assert(self.series(gname).len() == 1);
                        assert(self.series(gname)[0] == mv);
                        assert(!t1.has_name(gname));
                        assert(t1.series(gname) == Seq::<MetricView>::empty());
                    }
                    assert forall|n: Seq<char>| #[trigger] self.has_name(n) <==> (t1.has_name(n)
                        || n == gname) by {
                        if self.has_name(n) {
                            let k = choose|k: int|
                                0 <= k < self.names().len() && self.names()[k] == n;
                            if k < ln {
                                assert(t1.names()[k] == n);
                                assert(t1.has_name(n));
                            }
                        }
                        if t1.has_name(n) {
                            let k = choose|k: int|
                                0 <= k < t1.names().len() && t1.names()[k] == n;
                            assert(self.names()[k] == n);
                        }
                        if n == gname {
                            assert(self.names()[ln] == n);
                        }
                    }
                    assert forall|n: Seq<char>| n != gname implies #[trigger] self.series(n)
                        == t1.series(n) by {
                        if t1.has_name(n) {
                            let k = choose|k: int|
                                0 <= k < t1.metrics@.len() && t1.metrics@[k].name@ == n;
                            lemma_series_at(t1, k);
                            lemma_series_at(*self, k);
                            assert(self.metrics@[k] == t1.metrics@[k]);
                        } else {
                            assert(!self.has_name(n));
                        }
                    }
                }
            },
        }
    }

    /// Appends one observation under `name`, stamped with the current time.
    /// The series under `name` grows by exactly this observation; nothing
    /// else changes.
    pub fn log_metric(&mut self, name: String, value_bits: u64, step: usize)
        requires
            old(self).wf(),
        ensures
            final(self).wf(),
            final(self).logs_view() == old(self).logs_view(),
            exists|ts: u64|
                final(self).series(name@) == old(self).series(name@).push(
                    (MetricView { name: name@, value_bits: value_bits, timestamp: ts, step: step }),
                ),
            forall|n: Seq<char>| n != name@ ==> #[trigger] final(self).series(n) == old(self).series(n),
            forall|n: Seq<char>| #[trigger] final(self).has_name(n) <==> (old(self).has_name(n) || n == name@),
            old(self).has_name(name@) ==> final(self).names() == old(self).names(),
            !old(self).has_name(name@) ==> final(self).names() == old(self).names().push(name@),
    {
        let now = clock::now_timestamp();
        let ts: u64 = if now < 0 {
            0
        } else {
            now as u64
        };
        self.record_metric(name, value_bits, step, ts);
    }

    /// The one atomic append step of the log path: adds one entry to the end
    /// of the log sequence. The metric side of the store is untouched.
    pub fn record_log(&mut self, message: String, level: LogLevel, timestamp: u64)
        ensures
            final(self).logs_view() == old(self).logs_view().push(
                (LogView { message: message@, timestamp: timestamp, level: level }),
            ),
            final(self).names() == old(self).names(),
            forall|n: Seq<char>| #[trigger] final(self).series(n) == old(self).series(n),
            final(self).wf() == old(self).wf(),
    {
        let ghost t1 = *self;
        self.logs.push(LogEntry { message, timestamp, level });
        proof {
            assert(self.logs_view() =~= t1.logs_view().push(
                (LogView { message: message@, timestamp: timestamp, level: level }),
            ));
        }
    }

    /// Appends one log entry stamped with the current time; the level name
    /// is normalized by [`level_spec`], so unrecognized input is stored as
    /// `Info` rather than rejected.
    pub fn log_message(&mut self, message: String, level: String)
        ensures
            exists|ts: u64|
                final(self).logs_view() == old(self).logs_view().push(
                    (LogView { message: message@, timestamp: ts, level: level_spec(level@) }),
                ),
            final(self).names() == old(self).names(),
            forall|n: Seq<char>| #[trigger] final(self).series(n) == old(self).series(n),
            final(self).wf() == old(self).wf(),
    {
        let parsed = level_from_string(&level);
        let now = clock::now_timestamp();
        let ts: u64 = if now < 0 {
            0
        } else {
            now as u64
        };
        self.record_log(message, parsed, ts);
    }
}

/// The most recent value of a history, as IEEE 754 bits; zero for an empty
/// history (the defensive default for a listing row — under the store
/// invariant a series is never empty).
pub open spec fn last_bits(s: Seq<MetricView>) -> u64 {
    if s.len() == 0 {
        0
    } else {
        s.last().value_bits
    }
}

/// The most recent `n` entries of a log sequence, newest first.
pub open spec fn recent_logs(logs: Seq<LogView>, n: int) -> Seq<LogView> {
    Seq::new(
        if n < logs.len() {
            n as nat
        } else {
            logs.len()
        },
        |i: int| logs[logs.len() - 1 - i],
    )
}

impl ClogTracker {
    /// A copy of the metric names, in series-creation order.
    pub fn snapshot_metric_names(&self) -> (r: Vec<String>)
        ensures
            r.deep_view() == self.names(),
    {
        let mut r: Vec<String> = Vec::new();
        let mut i: usize = 0;
        proof {
            assert(r.deep_view() =~= self.names().take(0));
        }
        while i < self.metrics.len()
            invariant
                i <= self.metrics@.len(),
                r.deep_view() == self.names().take(i as int),
            decreases self.metrics@.len() - i,
        {
            let ghost r0 = r;
            proof {
                assert(r0.deep_view() == self.names().take(i as int));
                assert(r0.deep_view().len() == i as int);
                assert(r0@.len() == i as int);
            }
            r.push(self.metrics[i].name.clone());
            proof {
                assert(r@ == r0@.push(r@[i as int]));
                assert forall|k: int| 0 <= k < r@.len() implies r.deep_view()[k]
                    == self.names().take(i + 1)[k] by {
                    if k < i {
                        assert(r@[k] == r0@[k]);
                        assert(r0.deep_view()[k] == self.names().take(i as int)[k]);
                    } else {
                        assert(r@[k]@ == self.metrics@[i as int].name@);
                    }
                }
                assert(r.deep_view() =~= self.names().take(i + 1));
            }
            i = i + 1;
        }
        proof {
            assert(self.names().take(self.metrics@.len() as int) =~= self.names());
        }
        r
    }

    /// A copy of the series under `name`, oldest first, if one exists.
    pub fn snapshot_series(&self, name: &String) -> (r: Option<Vec<Metric>>)
        requires
            self.wf(),
        ensures
            match r {
                Some(v) => self.has_name(name@) && v.deep_view() == self.series(name@),
                None => !self.has_name(name@),
            },
    {
        match self.find_series_index(name) {
            None => None,
            Some(i) => {
                proof {
                    lemma_series_at(*self, i as int);
                }
                let pts = &self.metrics[i].points;
                let mut v: Vec<Metric> = Vec::new();
                let mut j: usize = 0;
                proof {
                    assert(v.deep_view() =~= pts.deep_view().take(0));
                }
                while j < pts.len()
                    invariant
                        j <= pts@.len(),
                        v.deep_view() == pts.deep_view().take(j as int),
                    decreases pts@.len() - j,
                {
                    let ghost v0 = v;
                    proof {
                        assert(v0.deep_view() == pts.deep_view().take(j as int));
                        assert(v0.deep_view().len() == j as int);
                        assert(v0@.len() == j as int);
                    }
                    let p = &pts[j];
                    v.push(
                        Metric {
                            name: p.name.clone(),
                            value_bits: p.value_bits,
                            timestamp: p.timestamp,
                            step: p.step,
                        },
                    );
                    proof {
                        assert(v@ == v0@.push(v@[j as int]));
                        assert forall|k: int| 0 <= k < v@.len() implies v.deep_view()[k]
                            == pts.deep_view().take(j + 1)[k] by {
                            if k < j {
                                assert(v@[k] == v0@[k]);
                                assert(v0.deep_view()[k] == pts.deep_view().take(j as int)[k]);
                            } else {
                                assert(v@[k]@ == pts@[j as int]@);
                            }
                        }
                        assert(v.deep_view() =~= pts.deep_view().take(j + 1));
                    }
                    j = j + 1;
                }
                proof {
                    assert(pts.deep_view().take(pts@.len() as int) =~= pts.deep_view());
                }
                Some(v)
            },
        }
    }

    /// The most recent value recorded under `name`, as IEEE 754 bits; zero
    /// if no series exists under `name`.
    pub fn last_value_bits(&self, name: &String) -> (r: u64)
        requires
            self.wf(),
        ensures
            r == last_bits(self.series(name@)),
    {
        match self.find_series_index(name) {
            None => 0,
            Some(i) => {
                proof {
                    lemma_series_at(*self, i as int);
                }
                let pts = &self.metrics[i].points;
                let v = pts[pts.len() - 1].value_bits;
                proof {
                    assert(self.series(name@).last() == pts@.last()@);
                }
                v
            },
        }
    }

    /// A copy of the most recent `n` log entries, newest first.
    pub fn snapshot_recent_logs(&self, n: usize) -> (r: Vec<LogEntry>)
        ensures
            r.deep_view() == recent_logs(self.logs_view(), n as int),
    {
        let ghost goal = recent_logs(self.logs_view(), n as int);
        let len = self.logs.len();
        let count = if n < len {
            n
        } else {
            len
        };
        let mut r: Vec<LogEntry> = Vec::new();
        let mut i: usize = 0;
        proof {
            assert(goal.len() == count);
            assert(r.deep_view() =~= goal.take(0));
        }
        while i < count
            invariant
                count <= len,
                len == self.logs@.len(),
                goal == recent_logs(self.logs_view(), n as int),
                goal.len() == count,
                i <= count,
                r.deep_view() == goal.take(i as int),
            decreases count - i,
        {
            let ghost r0 = r;
            proof {
                assert(r0.deep_view() == goal.take(i as int));
                assert(r0.deep_view().len() == i as int);
                assert(r0@.len() == i as int);
            }
            let e = &self.logs[len - 1 - i];
            r.push(LogEntry { message: e.message.clone(), timestamp: e.timestamp, level: e.level });
            proof {
                assert(r@ == r0@.push(r@[i as int]));
                assert forall|k: int| 0 <= k < r@.len() implies r.deep_view()[k] == goal.take(
                    i + 1,
                )[k] by {
                    if k < i {
                        assert(r@[k] == r0@[k]);
                        assert(r0.deep_view()[k] == goal.take(i as int)[k]);
                    } else {
                        assert(r@[k]@ == self.logs@[len - 1 - i as int]@);
                        assert(goal[k] == self.logs_view()[len - 1 - i as int]);
                    }
                }
                assert(r.deep_view() =~= goal.take(i + 1));
            }
            i = i + 1;
        }
        proof {
            assert(goal.take(count as int) =~= goal);
        }
        r
    }
}

/// Under the store invariant, the series under the name at slot `i` is
/// exactly the history stored in that slot.
proof fn lemma_series_at(t: ClogTracker, i: int)
    requires
        t.wf(),
        0 <= i < t.metrics@.len(),
    ensures
        t.has_name(t.metrics@[i].name@),
        t.series(t.metrics@[i].name@) == t.metrics@[i].points.deep_view(),
{
    let name = t.metrics@[i].name@;
    assert(t.names()[i] == name);
    assert(t.has_name(name));
    let j = choose|j: int| 0 <= j < t.metrics@.len() && t.metrics@[j].name@ == name;
    if j < i {
        assert(t.metrics@[j].name@ != t.metrics@[i].name@);
    } else if i < j {
        assert(t.metrics@[i].name@ != t.metrics@[j].name@);
    }
    assert(j == i);
}

/// Two well-formed stores that agree on every slot but `i`, and whose slot
/// `i` carries the same name in both, have the same series under every other
/// name.
proof fn lemma_series_other(t1: ClogTracker, t2: ClogTracker, i: int, n: Seq<char>)
    requires
        t1.wf(),
        t2.wf(),
        0 <= i < t1.metrics@.len(),
        t1.metrics@.len() == t2.metrics@.len(),
        t2.metrics@[i].name@ == t1.metrics@[i].name@,
        forall|k: int| 0 <= k < t1.metrics@.len() && k != i ==> #[trigger] t2.metrics@[k]
            == t1.metrics@[k],
        n != t1.metrics@[i].name@,
    ensures
        t2.series(n) == t1.series(n),
{
    assert(t1.names() =~= t2.names());
    if t1.has_name(n) {
        let k = choose|k: int| 0 <= k < t1.metrics@.len() && t1.metrics@[k].name@ == n;
        assert(k != i);
        lemma_series_at(t1, k);
        lemma_series_at(t2, k);
    } else {
        assert(!t2.has_name(n));
    }
}

} // verus!
