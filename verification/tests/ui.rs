use helium_api::cursor::{freshness, Cursor, Freshness};
use helium_api::panel_ui::{AltitudeUI as PanelAltitudeUI, BarometerUI, MIN_PLOT_SAMPLES};
use helium_api::select_port::PortMenu;
use helium_api::sensor_ui::{AltitudeUI, PitotUI};
use helium_api::{ControlPanelUI, Query, SelectPortUI};

#[test]
fn cursor_window_ends_now() {
    let ts = vec![1000, 2000, 3000, 4000, 5000];
    let mut c = Cursor::new(2500, 0);
    c.update(&ts, Some(5000));
    assert_eq!(c.index, 2);
    c.update(&ts, Some(100_000));
    assert_eq!(c.index, 5);
    c.update(&ts, Some(0));
    assert_eq!(c.index, 0);
    assert_eq!(c.range, 2500);
}

#[test]
fn cursor_window_ends_at_newest_sample() {
    let ts = vec![1000, 2000, 3000, 4000, 5000];
    let mut c = Cursor::new(1000, 3);
    c.update(&ts, None);
    assert_eq!(c.index, 3);
    c.update(&[], None);
    assert_eq!(c.index, 0);
}

#[test]
fn freshness_of_newest_sample() {
    assert_eq!(freshness(None, 10, 5), Freshness::NoData);
    assert_eq!(freshness(Some(5), 10, 5), Freshness::Fresh);
    assert_eq!(freshness(Some(4), 10, 5), Freshness::Stale);
}

#[test]
fn app_sensor_windows() {
    let mut a = AltitudeUI::new();
    assert_eq!((a.range, a.cursor.range, a.cursor.index), (30, 30000, 0));
    assert_eq!(a.status(Some(0), 30001), Freshness::Stale);
    a.range = 10;
    let ts: Vec<i64> = (0..100).map(|i| i * 1000).collect();
    a.refresh(&ts, 99_000);
    assert_eq!(a.cursor.range, 10_000);
    assert_eq!(a.cursor.index, 89);
    assert_eq!(a.status(Some(99_000), 99_000), Freshness::Fresh);

    let mut p = PitotUI::new();
    assert_eq!((p.range, p.cursor.range, p.cursor.index), (300, 300000, 0));
    p.range = 7200;
    p.refresh(&ts, 99_000);
    assert_eq!(p.cursor.index, 0);
}

#[test]
fn panel_sensor_windows() {
    let mut a = PanelAltitudeUI::new();
    let few: Vec<i64> = (0..MIN_PLOT_SAMPLES as i64).collect();
    assert!(!a.refresh(&few));
    let many: Vec<i64> = (0..200).map(|i| i * 1000).collect();
    assert!(a.refresh(&many));
    assert_eq!(a.cursor.index, 169);
    assert_eq!(a.span(199_000), (169_000, 199_000));

    let mut b = BarometerUI::new();
    assert_eq!(b.status(None, 0), Freshness::NoData);
    b.refresh(&many, 230_000);
    assert_eq!(b.cursor.index, 200);
}

#[test]
fn control_panel_stop_logging() {
    let mut p: ControlPanelUI<u32> = ControlPanelUI::new();
    assert!(p.update(None, true).is_none());
    assert!(p.database().is_none());
    assert!(p.update(Some(7), false).is_none());
    assert_eq!(p.database(), Some(&7));
    assert!(matches!(p.update(None, true), Some(Query::ClosePort)));
    assert_eq!(p.database(), Some(&7));
}

#[test]
fn select_port_menu() {
    let ui = SelectPortUI;
    assert!(matches!(ui.menu(vec![]), PortMenu::NoPorts));
    let ports = vec!["COM1".to_string(), "COM2".to_string()];
    match ui.menu(ports.clone()) {
        PortMenu::Choices(list) => assert_eq!(list, ports),
        PortMenu::NoPorts => panic!("ports were listed"),
    }
    match ui.update(&ports, Some(1)) {
        Some(Query::OpenPort(name)) => assert_eq!(name, "COM2"),
        _ => panic!("expected an open request"),
    }
    assert!(ui.update(&ports, None).is_none());
}
