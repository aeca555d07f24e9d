use clog_tracker::chart::y_bounds;
use clog_tracker::dashboard::TerminalUI;
use clog_tracker::render::{render_frame, ChartModel};
use clog_tracker::store::{ClogTracker, LogLevel};

fn bits(v: f64) -> u64 {
    v.to_bits()
}

#[test]
fn chart_bounds_scenario() {
    let mut tracker = ClogTracker::new();
    tracker.record_metric("loss".to_string(), bits(1.0), 0, 1);
    tracker.record_metric("loss".to_string(), bits(0.5), 1, 2);
    tracker.record_metric("loss".to_string(), bits(0.8), 2, 3);
    let mut ui = TerminalUI::new();
    ui.selected_metric = Some("loss".to_string());
    let frame = render_frame(&tracker, &ui, 5);
    match frame.chart {
        ChartModel::Plot(plot) => {
            assert_eq!(plot.name, "loss".to_string());
            assert_eq!(plot.x_min, 0);
            assert_eq!(plot.x_max, 2);
            assert_eq!(plot.y_min_bits, bits(0.5));
            assert_eq!(plot.y_max_bits, bits(1.0));
            assert_eq!(
                plot.points,
                vec![(0usize, bits(1.0)), (1usize, bits(0.5)), (2usize, bits(0.8))]
            );
        },
        ChartModel::Placeholder => panic!("expected a plotted chart"),
    }
}

#[test]
fn chart_bounds_exclude_nan() {
    let points: Vec<(usize, u64)> = vec![
        (0usize, bits(1.0)),
        (1usize, bits(f64::NAN)),
        (2usize, bits(0.5)),
    ];
    let (lo, hi) = y_bounds(&points);
    assert_eq!(lo, bits(0.5));
    assert_eq!(hi, bits(1.0));
}

#[test]
fn chart_bounds_of_all_nan_are_the_seeds() {
    let points: Vec<(usize, u64)> = vec![(0usize, bits(f64::NAN))];
    let (lo, hi) = y_bounds(&points);
    assert_eq!(lo, bits(f64::INFINITY));
    assert_eq!(hi, bits(f64::NEG_INFINITY));
}

#[test]
fn chart_bounds_order_negative_values() {
    let points: Vec<(usize, u64)> = vec![
        (0usize, bits(-1.5)),
        (1usize, bits(2.0)),
        (2usize, bits(-3.0)),
    ];
    let (lo, hi) = y_bounds(&points);
    assert_eq!(lo, bits(-3.0));
    assert_eq!(hi, bits(2.0));
}

#[test]
fn rendering_twice_is_identical() {
    let mut tracker = ClogTracker::new();
    tracker.record_metric("loss".to_string(), bits(1.0), 0, 1);
    tracker.record_metric("acc".to_string(), bits(0.25), 0, 2);
    tracker.record_log("started".to_string(), LogLevel::Info, 3);
    let mut ui = TerminalUI::new();
    ui.selected_metric = Some("loss".to_string());
    ui.search_query = "".to_string();
    let first = render_frame(&tracker, &ui, 8);
    let second = render_frame(&tracker, &ui, 8);
    assert_eq!(first, second);
}

#[test]
fn frame_reflects_store_and_state() {
    let mut tracker = ClogTracker::new();
    tracker.record_metric("loss".to_string(), bits(1.0), 0, 1);
    tracker.record_metric("loss".to_string(), bits(0.5), 1, 2);
    tracker.record_metric("acc".to_string(), bits(0.75), 0, 3);
    tracker.record_log("warned".to_string(), LogLevel::Warning, 3661);
    let mut ui = TerminalUI::new();
    ui.search_query = "loss".to_string();
    ui.selected_metric = Some("loss".to_string());
    let frame = render_frame(&tracker, &ui, 4);

    assert_eq!(frame.search_text, "loss".to_string());
    assert!(!frame.searching);

    // Only the matching name is listed, with its most recent value, marked
    // selected.
    assert_eq!(frame.entries.len(), 1);
    assert_eq!(frame.entries[0].name, "loss".to_string());
    assert_eq!(frame.entries[0].last_value_bits, bits(0.5));
    assert!(frame.entries[0].selected);

    assert_eq!(frame.log_lines.len(), 1);
    assert_eq!(frame.log_lines[0].text, "[01:01:01] warned".to_string());
    assert_eq!(frame.log_lines[0].level, LogLevel::Warning);
}

#[test]
fn dangling_selection_renders_placeholder() {
    let mut tracker = ClogTracker::new();
    tracker.record_metric("present".to_string(), bits(1.0), 0, 1);
    let mut ui = TerminalUI::new();
    ui.selected_metric = Some("gone".to_string());
    let frame = render_frame(&tracker, &ui, 2);
    assert_eq!(frame.chart, ChartModel::Placeholder);
    let mut ui2 = TerminalUI::new();
    ui2.selected_metric = None;
    let frame2 = render_frame(&tracker, &ui2, 2);
    assert_eq!(frame2.chart, ChartModel::Placeholder);
}
