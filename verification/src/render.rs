//! The renderer: a pure function from a store snapshot and the dashboard
//! state to a frame description — search bar, metric list, chart, log
//! panel — that a drawing backend paints without further decisions.

use vstd::prelude::*;

use crate::chart::{vals_of, y_bounds, y_max_bits, y_min_bits};
use crate::dashboard::{InputMode, TerminalUI, UiView};
use crate::query::filter_names;
use crate::store::{last_bits, recent_logs, ClogTracker, LogLevel, LogView, MetricView};
use crate::text::{format_log_line, log_line_seq};

verus! {

/// One row of the metric list: a name, its most recent value, and whether
/// the row is the current selection.
#[derive(Debug, PartialEq)]
pub struct MetricListEntry {
    pub name: String,
    pub last_value_bits: u64,
    pub selected: bool,
}

/// Mathematical image of a [`MetricListEntry`].
pub struct MetricListEntryView {
    pub name: Seq<char>,
    pub last_value_bits: u64,
    pub selected: bool,
}

impl View for MetricListEntry {
    type V = MetricListEntryView;

    open spec fn view(&self) -> MetricListEntryView {
        MetricListEntryView {
            name: self.name@,
            last_value_bits: self.last_value_bits,
            selected: self.selected,
        }
    }
}

impl DeepView for MetricListEntry {
    type V = MetricListEntryView;

    open spec fn deep_view(&self) -> MetricListEntryView {
        self.view()
    }
}

/// The chart of the selected series: its points in insertion order and the
/// axis bounds.
#[derive(Debug, PartialEq)]
pub struct ChartPlot {
    pub name: String,
    pub points: Vec<(usize, u64)>,
    pub x_min: usize,
    pub x_max: usize,
    pub y_min_bits: u64,
    pub y_max_bits: u64,
}

/// Mathematical image of a [`ChartPlot`].
pub struct ChartPlotView {
    pub name: Seq<char>,
    pub points: Seq<(usize, u64)>,
    pub x_min: usize,
    pub x_max: usize,
    pub y_min_bits: u64,
    pub y_max_bits: u64,
}

impl View for ChartPlot {
    type V = ChartPlotView;

    open spec fn view(&self) -> ChartPlotView {
        ChartPlotView {
            name: self.name@,
            points: self.points@,
            x_min: self.x_min,
            x_max: self.x_max,
            y_min_bits: self.y_min_bits,
            y_max_bits: self.y_max_bits,
        }
    }
}

/// The chart region: either a placeholder prompting for a selection (no
/// selection, or one that no longer resolves) or the selected series.
#[derive(Debug, PartialEq)]
pub enum ChartModel {
    Placeholder,
    Plot(ChartPlot),
}

/// Mathematical image of a [`ChartModel`].
pub enum ChartModelView {
    Placeholder,
    Plot(ChartPlotView),
}

impl View for ChartModel {
    type V = ChartModelView;

    open spec fn view(&self) -> ChartModelView {
        match self {
            ChartModel::Placeholder => ChartModelView::Placeholder,
            ChartModel::Plot(p) => ChartModelView::Plot(p@),
        }
    }
}

/// One formatted log panel line and its severity, for coloring.
#[derive(Debug, PartialEq)]
pub struct LogLine {
    pub text: String,
    pub level: LogLevel,
}

/// Mathematical image of a [`LogLine`].
pub struct LogLineView {
    pub text: Seq<char>,
    pub level: LogLevel,
}

impl View for LogLine {
    type V = LogLineView;

    open spec fn view(&self) -> LogLineView {
        LogLineView { text: self.text@, level: self.level }
    }
}

impl DeepView for LogLine {
    type V = LogLineView;

    open spec fn deep_view(&self) -> LogLineView {
        self.view()
    }
}

/// One whole frame, top to bottom: search bar, metric list, chart, log
/// panel.
#[derive(Debug, PartialEq)]
pub struct FrameModel {
    pub search_text: String,
    pub searching: bool,
    pub entries: Vec<MetricListEntry>,
    pub chart: ChartModel,
    pub log_lines: Vec<LogLine>,
}

/// Mathematical image of a [`FrameModel`].
pub struct FrameView {
    pub search_text: Seq<char>,
    pub searching: bool,
    pub entries: Seq<MetricListEntryView>,
    pub chart: ChartModelView,
    pub log_lines: Seq<LogLineView>,
}

impl View for FrameModel {
    type V = FrameView;

    open spec fn view(&self) -> FrameView {
        FrameView {
            search_text: self.search_text@,
            searching: self.searching,
            entries: self.entries.deep_view(),
            chart: self.chart@,
            log_lines: self.log_lines.deep_view(),
        }
    }
}

/// The metric list row for name `n`.
pub open spec fn entry_spec(store: ClogTracker, u: UiView, n: Seq<char>) -> MetricListEntryView {
    MetricListEntryView {
        name: n,
        last_value_bits: last_bits(store.series(n)),
        selected: u.selected == Option::Some(n),
    }
}

/// The metric list: one row per filtered name, in store order.
pub open spec fn entries_spec(store: ClogTracker, u: UiView) -> Seq<MetricListEntryView> {
    let fl = filter_names(store.names(), u.query);
    Seq::new(fl.len(), |i: int| entry_spec(store, u, fl[i]))
}

/// The chart points of a series: (step, value bits) in insertion order.
pub open spec fn series_points(s: Seq<MetricView>) -> Seq<(usize, u64)> {
    Seq::new(s.len(), |i: int| (s[i].step, s[i].value_bits))
}

/// The chart region: a placeholder unless the selection resolves to a
/// series; x-bounds run from the first point's step to the last point's
/// step, y-bounds over the non-NaN values (the empty defaults never arise
/// for a well-formed store, whose series are never empty).
pub open spec fn chart_spec(store: ClogTracker, sel: Option<Seq<char>>) -> ChartModelView {
    match sel {
        Option::None => ChartModelView::Placeholder,
        Option::Some(n) => if !store.has_name(n) {
            ChartModelView::Placeholder
        } else {
            let pts = store.series(n);
            ChartModelView::Plot(
                ChartPlotView {
                    name: n,
                    points: series_points(pts),
                    x_min: if pts.len() == 0 {
                        0
                    } else {
                        pts[0].step
                    },
                    x_max: if pts.len() == 0 {
                        1
                    } else {
                        pts.last().step
                    },
                    y_min_bits: y_min_bits(vals_of(series_points(pts))),
                    y_max_bits: y_max_bits(vals_of(series_points(pts))),
                },
            )
        },
    }
}

/// The log panel: the most recent `rows` entries, newest first, each
/// formatted to second precision and tagged with its severity.
pub open spec fn log_lines_spec(logs: Seq<LogView>, rows: int) -> Seq<LogLineView> {
    let recent = recent_logs(logs, rows);
    Seq::new(recent.len(), |i: int| LogLineView { text: log_line_seq(recent[i]), level: recent[i].level })
}

/// The whole frame as a function of the store and the dashboard state.
pub open spec fn frame_spec(store: ClogTracker, u: UiView, rows: int) -> FrameView {
    FrameView {
        search_text: u.query,
        searching: u.mode == InputMode::Searching,
        entries: entries_spec(store, u),
        chart: chart_spec(store, u.selected),
        log_lines: log_lines_spec(store.logs_view(), rows),
    }
}

/// Renders one frame from a store snapshot and the dashboard state, with
/// `log_rows` rows available for log text. The frame is pinned to
/// [`frame_spec`]: a pure function of its two inputs, so rendering reads
/// nothing and changes nothing else.
pub fn render_frame(store: &ClogTracker, ui: &TerminalUI, log_rows: usize) -> (f: FrameModel)
    requires
        store.wf(),
    ensures
        f@ == frame_spec(*store, ui@, log_rows as int),
{
    let search_text = ui.search_query.clone();
    let searching = match ui.input_mode {
        InputMode::Searching => true,
        InputMode::Normal => false,
    };

    // Metric list rows over the filtered names.
    let filtered = store.filtered_names(&ui.search_query);
    let ghost fl = filter_names(store.names(), ui@.query);
    let ghost goal_entries = entries_spec(*store, ui@);
    proof {
        assert(filtered.deep_view() == fl);
        assert(goal_entries.len() == fl.len());
    }
    let mut entries: Vec<MetricListEntry> = Vec::new();
    let mut i: usize = 0;
    proof {
        assert(entries.deep_view() =~= goal_entries.take(0));
    }
    while i < filtered.len()
        invariant
            store.wf(),
            fl == filtered.deep_view(),
            fl == filter_names(store.names(), ui@.query),
            goal_entries == entries_spec(*store, ui@),
            goal_entries.len() == fl.len(),
            i <= filtered@.len(),
            entries.deep_view() == goal_entries.take(i as int),
        decreases filtered@.len() - i,
    {
        let ghost e0 = entries;
        proof {
            assert(e0.deep_view().len() == i as int);
            assert(e0@.len() == i as int);
            assert(filtered@[i as int]@ == fl[i as int]);
        }
        let last = store.last_value_bits(&filtered[i]);
        let selected = match &ui.selected_metric {
            Some(s) => s.eq(&filtered[i]),
            None => false,
        };
        entries.push(
            MetricListEntry { name: filtered[i].clone(), last_value_bits: last, selected },
        );
        proof {
            assert(entries@ == e0@.push(entries@[i as int]));
            assert(entries@[i as int]@ == entry_spec(*store, ui@, fl[i as int]));
            assert forall|k: int| 0 <= k < entries@.len() implies entries.deep_view()[k]
                == goal_entries.take(i + 1)[k] by {
                if k < i {
                    assert(entries@[k] == e0@[k]);
                    assert(e0.deep_view()[k] == goal_entries.take(i as int)[k]);
                } else {
                    assert(k == i as int);
                    assert(entries.deep_view()[k] == entries@[i as int]@);
                    assert(goal_entries.take(i + 1)[k] == entry_spec(*store, ui@, fl[i as int]));
                }
            }
            assert(entries.deep_view() =~= goal_entries.take(i + 1));
        }
        i = i + 1;
    }
    proof {
        assert(goal_entries.take(goal_entries.len() as int) =~= goal_entries);
    }

    // Chart region for the selection, if it still resolves.
    let chart: ChartModel = match &ui.selected_metric {
        None => ChartModel::Placeholder,
        Some(sel) => match store.snapshot_series(sel) {
            None => ChartModel::Placeholder,
            Some(v) => {
                let ghost sv = store.series(sel@);
                let ghost goal_points = series_points(sv);
                proof {
                    assert(v.deep_view() == sv);
                    assert(v@.len() == sv.len());
                }
                let mut points: Vec<(usize, u64)> = Vec::new();
                let mut j: usize = 0;
                proof {
                    assert(points@ =~= goal_points.take(0));
                }
                while j < v.len()
                    invariant
                        sv == v.deep_view(),
                        goal_points == series_points(sv),
                        j <= v@.len(),
                        points@ == goal_points.take(j as int),
                    decreases v@.len() - j,
                {
                    proof {
                        assert(v@[j as int]@ == sv[j as int]);
                        assert(goal_points[j as int] == (sv[j as int].step, sv[
                            j as int
                        ].value_bits));
                    }
                    points.push((v[j].step, v[j].value_bits));
                    proof {
                        assert(points@ =~= goal_points.take(j + 1));
                    }
                    j = j + 1;
                }
                proof {
                    assert(goal_points.take(sv.len() as int) =~= goal_points);
                    assert(points@ == goal_points);
                }
                let x_min = if points.len() == 0 {
                    0
                } else {
                    points[0].0
                };
                let x_max = if points.len() == 0 {
                    1
                } else {
                    points[points.len() - 1].0
                };
                let yb = y_bounds(&points);
                proof {
                    if sv.len() > 0 {
                        assert(goal_points[0] == (sv[0].step, sv[0].value_bits));
                        assert(goal_points.last() == (sv.last().step, sv.last().value_bits));
                    }
                }
                ChartModel::Plot(
                    ChartPlot {
                        name: sel.clone(),
                        points,
                        x_min,
                        x_max,
                        y_min_bits: yb.0,
                        y_max_bits: yb.1,
                    },
                )
            },
        },
    };
    proof {
        assert(chart@ == chart_spec(*store, ui@.selected));
    }

    // Log panel lines, newest first.
    let ghost goal_logs = log_lines_spec(store.logs_view(), log_rows as int);
    let recents = store.snapshot_recent_logs(log_rows);
    proof {
        assert(recents.deep_view() == recent_logs(store.logs_view(), log_rows as int));
        assert(goal_logs.len() == recents.deep_view().len());
        assert(recents@.len() == recents.deep_view().len());
    }
    let mut log_lines: Vec<LogLine> = Vec::new();
    let mut j: usize = 0;
    proof {
        assert(log_lines.deep_view() =~= goal_logs.take(0));
    }
    while j < recents.len()
        invariant
            goal_logs == log_lines_spec(store.logs_view(), log_rows as int),
            recents.deep_view() == recent_logs(store.logs_view(), log_rows as int),
            goal_logs.len() == recents@.len(),
            j <= recents@.len(),
            log_lines.deep_view() == goal_logs.take(j as int),
        decreases recents@.len() - j,
    {
        let ghost l0 = log_lines;
        proof {
            assert(l0.deep_view().len() == j as int);
            assert(l0@.len() == j as int);
            assert(recents@[j as int]@ == recents.deep_view()[j as int]);
        }
        let text = format_log_line(&recents[j]);
        log_lines.push(LogLine { text, level: recents[j].level });
        proof {
            assert(log_lines@ == l0@.push(log_lines@[j as int]));
            assert(log_lines@[j as int]@ == goal_logs[j as int]);
            assert forall|k: int| 0 <= k < log_lines@.len() implies log_lines.deep_view()[k]
                == goal_logs.take(j + 1)[k] by {
                if k < j {
                    assert(log_lines@[k] == l0@[k]);
                    assert(l0.deep_view()[k] == goal_logs.take(j as int)[k]);
                }
            }
            assert(log_lines.deep_view() =~= goal_logs.take(j + 1));
        }
        j = j + 1;
    }
    proof {
        assert(goal_logs.take(goal_logs.len() as int) =~= goal_logs);
    }

    let f = FrameModel { search_text, searching, entries, chart, log_lines };
    proof {
        assert(f@ == frame_spec(*store, ui@, log_rows as int));
    }
    f
}

/// Rendering is idempotent: with no intervening writes or input, two
/// successive renderings of the same store and dashboard state describe
/// the identical frame, because each is pinned to [`frame_spec`].
pub proof fn lemma_render_idempotent(
    f1: FrameView,
    f2: FrameView,
    store: ClogTracker,
    u: UiView,
    rows: int,
)
    requires
        f1 == frame_spec(store, u, rows),
        f2 == frame_spec(store, u, rows),
    ensures
        f1 == f2,
{
}

} // verus!
