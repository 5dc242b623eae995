use kedu::collector::{ApplicationIdentity, ApplicationSample, Measure, ProcessSnapshot};
use kedu::config::Config;
use kedu::ipc::ServerMessage;
use kedu::tui::{
    downsample, selected_column, truncate, window, App, Area, InputEvent, KeyInput, MetricCategory,
    MouseKind, TransferDirection,
};

fn sample(timestamp: i64, cpu: f64) -> ProcessSnapshot {
    ProcessSnapshot {
        timestamp_unix_ms: timestamp,
        applications: vec![ApplicationSample {
            identity: ApplicationIdentity {
                id: "app:test".into(),
                name: "Test".into(),
                bundle_path: None,
            },
            processes: vec![],
            cpu_percent: Measure { bits: cpu.to_bits() },
            memory_bytes: 0,
            disk_read_bytes_per_second: Measure { bits: 0 },
            disk_write_bytes_per_second: Measure { bits: 0 },
            network_download_bytes_per_second: Measure { bits: 0 },
            network_upload_bytes_per_second: Measure { bits: 0 },
        }],
    }
}

#[test]
fn selected_column_reaches_both_chart_edges() {
    assert_eq!(selected_column(0, 100, 20), 0);
    assert_eq!(selected_column(99, 100, 20), 19);
}

#[test]
fn selected_column_pans_back_to_older_samples() {
    assert_eq!(selected_column(85, 100, 20), 5);
    assert_eq!(selected_column(40, 100, 20), 0);
    assert_eq!(selected_column(3, 5, 20), 3);
    assert_eq!(selected_column(7, 0, 20), 0);
}

#[test]
fn downsampling_keeps_requested_width() {
    let snapshots = (0..100).map(|index| sample(index, 1.0)).collect::<Vec<_>>();
    assert_eq!(downsample(&snapshots, 20).len(), 20);
}

#[test]
fn live_chart_shows_the_newest_samples_one_per_column() {
    let snapshots = (0..100).map(|index| sample(index, 1.0)).collect::<Vec<_>>();
    let picked: Vec<i64> = downsample(&snapshots, 20).iter().map(|s| s.timestamp_unix_ms).collect();
    assert_eq!(picked, (80..100).collect::<Vec<i64>>());
    let few = (0..10).map(|index| sample(index, 1.0)).collect::<Vec<_>>();
    let picked: Vec<i64> = downsample(&few, 4).iter().map(|s| s.timestamp_unix_ms).collect();
    assert_eq!(picked, vec![6, 7, 8, 9]);
    assert_eq!(downsample(&few, 1)[0].timestamp_unix_ms, 9);
    assert_eq!(downsample(&few, 10).len(), 10);
    assert_eq!(downsample(&few, 30).len(), 10);
    let middle: Vec<i64> = window(&few, 3, 4).iter().map(|s| s.timestamp_unix_ms).collect();
    assert_eq!(middle, vec![3, 4, 5, 6]);
    assert_eq!(window(&few, 8, 4).len(), 2);
    assert!(window(&few, 12, 4).is_empty());
}

#[test]
fn history_view_freezes_pans_and_returns_to_live() {
    let mut app = App::new(Config::default());
    app.snapshots = (0..30).map(|index| sample(index, 1.0)).collect();
    app.chart_area = Area { x: 0, y: 0, width: 10, height: 5 };
    assert_eq!(app.window_start(), 20);
    assert_eq!(app.cursor_column(), Some(9));

    let press = |code| InputEvent::Key { code, press: true };
    app.handle_event(press(KeyInput::Left));
    assert_eq!(app.hovered_index, Some(28));
    assert_eq!(app.viewport_start, Some(20));
    assert_eq!(app.cursor_column(), Some(8));

    // New samples do not move a frozen chart.
    app.apply(ServerMessage::Snapshot { snapshot: sample(30, 1.0) });
    assert_eq!(app.window_start(), 20);
    assert_eq!(app.visible_samples()[0].timestamp_unix_ms, 20);

    // Moving past the left edge pans the chart.
    for _ in 0..9 {
        app.handle_event(press(KeyInput::Left));
    }
    assert_eq!(app.hovered_index, Some(19));
    assert_eq!(app.window_start(), 19);
    assert_eq!(app.cursor_column(), Some(0));

    // Returning to the newest sample follows the newest samples again.
    for _ in 0..20 {
        app.handle_event(press(KeyInput::Right));
    }
    assert_eq!(app.hovered_index, None);
    assert_eq!(app.viewport_start, None);
    assert_eq!(app.window_start(), 21);
}

#[test]
fn mouse_columns_map_to_the_samples_they_show() {
    let mut app = App::new(Config::default());
    app.snapshots = (0..30).map(|index| sample(index, 1.0)).collect();
    app.chart_area = Area { x: 5, y: 4, width: 10, height: 8 };
    app.handle_event(InputEvent::Mouse { kind: MouseKind::Moved, column: 7, row: 6 });
    assert_eq!(app.hovered_index, Some(22));
    assert_eq!(app.viewport_start, Some(20));
    app.handle_event(InputEvent::Mouse { kind: MouseKind::Moved, column: 14, row: 6 });
    assert_eq!(app.hovered_index, None);
    assert_eq!(app.viewport_start, None);
}

#[test]
fn mouse_motion_selects_a_history_sample() {
    let mut app = App::new(Config::default());
    app.snapshots = (0..10).map(|index| sample(index, 1.0)).collect();
    app.chart_area = Area { x: 5, y: 4, width: 10, height: 8 };

    app.handle_event(InputEvent::Mouse { kind: MouseKind::Moved, column: 10, row: 6 });

    assert_eq!(app.hovered_index, Some(5));
}

#[test]
fn selected_history_drives_application_panel() {
    let mut historical = sample(1_000, 42.0);
    historical.applications[0].identity.name = "Historical".into();
    let mut latest = sample(2_000, 99.0);
    latest.applications[0].identity.name = "Latest".into();

    let mut app = App::new(Config::default());
    app.snapshots = vec![historical, latest.duplicate()];
    app.latest = Some(latest);
    assert!(!app.selection_is_historical());
    app.select_snapshot(0);

    assert_eq!(app.selected_snapshot().unwrap().applications[0].identity.name, "Historical");
    assert!(app.selection_is_historical());
    assert_eq!(app.selected_snapshot_index(), Some(0));
}

#[test]
fn keys_switch_metrics_directions_and_quit() {
    let mut app = App::new(Config::default());
    let press = |code| InputEvent::Key { code, press: true };
    assert!(!app.handle_event(press(KeyInput::Char('d'))));
    assert_eq!(app.direction, TransferDirection::Incoming);
    assert!(!app.handle_event(press(KeyInput::Tab)));
    assert!(!app.handle_event(press(KeyInput::Tab)));
    assert_eq!(app.metric, MetricCategory::Disk);
    app.handle_event(press(KeyInput::Char('d')));
    assert_eq!(app.direction, TransferDirection::Outgoing);
    assert_eq!(app.metric.title(app.direction), "磁盘写入");
    app.handle_event(press(KeyInput::Tab));
    app.handle_event(press(KeyInput::Tab));
    assert_eq!(app.metric, MetricCategory::Cpu);
    assert!(!app.handle_event(InputEvent::Key { code: KeyInput::Char('q'), press: false }));
    assert!(app.handle_event(press(KeyInput::Char('q'))));
    assert!(app.handle_event(press(KeyInput::Esc)));
}

#[test]
fn arrows_move_through_history_within_bounds() {
    let mut app = App::new(Config::default());
    app.snapshots = (0..3).map(|index| sample(index, 1.0)).collect();
    let press = |code| InputEvent::Key { code, press: true };
    app.handle_event(press(KeyInput::Right));
    assert_eq!(app.hovered_index, None);
    assert_eq!(app.selected_snapshot_index(), Some(2));
    app.handle_event(press(KeyInput::Left));
    app.handle_event(press(KeyInput::Left));
    app.handle_event(press(KeyInput::Left));
    assert_eq!(app.hovered_index, Some(0));
    app.handle_event(press(KeyInput::Down));
    assert_eq!(app.selected_application, 0);
    app.handle_event(press(KeyInput::Up));
    assert_eq!(app.selected_application, 0);
}

#[test]
fn snapshots_from_the_service_are_trimmed() {
    let mut config = Config::default();
    config.sampling.maximum_samples = 2;
    let mut app = App::new(config);
    app.apply(ServerMessage::State { history: vec![sample(0, 1.0)], latest: None });
    app.apply(ServerMessage::Snapshot { snapshot: sample(1_000, 1.0) });
    app.apply(ServerMessage::Snapshot { snapshot: sample(2_000, 1.0) });
    assert_eq!(app.snapshots.len(), 2);
    assert_eq!(app.snapshots[0].timestamp_unix_ms, 1_000);
    assert_eq!(app.latest.as_ref().unwrap().timestamp_unix_ms, 2_000);
    app.apply(ServerMessage::Error { message: "bad".into() });
    assert_eq!(app.error.as_deref(), Some("bad"));
    app.connected = false;
    app.apply(ServerMessage::Pong);
    assert!(app.connected);
}

#[test]
fn names_are_truncated_with_an_ellipsis() {
    assert_eq!(truncate("Google Chrome Helper", 6), "Googl…");
    assert_eq!(truncate("Safari", 6), "Safari");
    assert_eq!(truncate("Safari", 0), "");
}

#[test]
fn chart_area_is_inside_the_border() {
    let area = Area { x: 3, y: 4, width: 10, height: 1 }.inner();
    assert_eq!(area, Area { x: 4, y: 5, width: 8, height: 0 });
    let edge = Area { x: u16::MAX, y: 0, width: 1, height: 2 }.inner();
    assert_eq!(edge, Area { x: u16::MAX, y: 1, width: 0, height: 0 });
}
