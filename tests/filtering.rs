use paclog::cli::{first_viewer_step, next_viewer_step, viewer, Filter, Launch, Mode, ViewerStep, VIEWER_COUNT};
use paclog::entry::{Action, LogEntry};
use paclog::explicit::{explicit_set, explicitly_installed};
use paclog::filter::{filter_logs, LogError};
use paclog::render::{format_entry, highlighted_entry};

const LOG: &str = "[2024-01-01T10:00:00+0000] [ALPM] installed foo (1.0-1)\n\
[2024-01-02T10:00:00+0000] [ALPM] upgraded foo (1.0-1 -> 1.1-1)\n\
[2024-01-03T10:00:00+0000] [PACMAN] Running 'pacman -S bar'\n\
[2024-01-03T10:00:01+0000] [ALPM] installed bar (2.0-1)\n\
[2024-01-04T10:00:00+0000] [ALPM] removed foo (1.1-1)\n\
[2024-01-05T10:00:00+0000] [ALPM] installed foo (1.2-1)\n";

fn triples(v: &[LogEntry]) -> Vec<(String, String, String)> {
    v.iter().map(|e| (e.time.clone(), e.package.clone(), e.version.clone())).collect()
}

fn t(a: &str, b: &str, c: &str) -> (String, String, String) {
    (a.to_string(), b.to_string(), c.to_string())
}

fn names(v: &[&str]) -> Vec<String> {
    v.iter().map(|s| s.to_string()).collect()
}

#[test]
fn installed_entries_oldest_first() {
    let r = filter_logs(LOG, Action::Installed, usize::MAX).unwrap();
    assert_eq!(
        triples(&r),
        vec![
            t("[2024-01-01T10:00:00+0000]", "foo", "(1.0-1)"),
            t("[2024-01-03T10:00:01+0000]", "bar", "(2.0-1)"),
            t("[2024-01-05T10:00:00+0000]", "foo", "(1.2-1)"),
        ]
    );
    assert!(r.iter().all(|e| e.action == Action::Installed));
}

#[test]
fn upgraded_version_keeps_spaces() {
    let r = filter_logs(LOG, Action::Upgraded, usize::MAX).unwrap();
    assert_eq!(triples(&r), vec![t("[2024-01-02T10:00:00+0000]", "foo", "(1.0-1 -> 1.1-1)")]);
}

#[test]
fn removed_entries() {
    let r = filter_logs(LOG, Action::Removed, 10).unwrap();
    assert_eq!(triples(&r), vec![t("[2024-01-04T10:00:00+0000]", "foo", "(1.1-1)")]);
}

#[test]
fn cap_keeps_most_recent() {
    let r = filter_logs(LOG, Action::Installed, 2).unwrap();
    assert_eq!(
        triples(&r),
        vec![
            t("[2024-01-03T10:00:01+0000]", "bar", "(2.0-1)"),
            t("[2024-01-05T10:00:00+0000]", "foo", "(1.2-1)"),
        ]
    );
}

#[test]
fn cap_never_exceeded() {
    for n in 0..6usize {
        let r = filter_logs(LOG, Action::Installed, n).unwrap();
        assert!(r.len() <= n);
        assert_eq!(r.len(), n.min(3));
    }
}

#[test]
fn zero_cap_shows_nothing() {
    assert!(filter_logs(LOG, Action::Installed, 0).unwrap().is_empty());
    assert!(explicitly_installed(LOG, explicit_set(names(&["foo"])), 0).unwrap().is_empty());
}

#[test]
fn empty_log_gives_no_entries() {
    assert!(filter_logs("", Action::Removed, usize::MAX).unwrap().is_empty());
    assert!(explicitly_installed("", explicit_set(names(&["foo"])), usize::MAX).unwrap().is_empty());
}

#[test]
fn output_is_chronological() {
    let r = filter_logs(LOG, Action::Installed, usize::MAX).unwrap();
    for w in r.windows(2) {
        assert!(w[0].time < w[1].time);
    }
}

#[test]
fn malformed_line_is_reported() {
    let log = "[t1] [ALPM] installed foo (1.0)\n[t2] [ALPM] installed lonely\n";
    match filter_logs(log, Action::Installed, usize::MAX) {
        Err(LogError::InvalidLine(l)) => assert_eq!(l, "[t2] [ALPM] installed lonely"),
        Ok(_) => panic!("expected an error"),
    }
}

#[test]
fn keyword_without_fields_is_malformed() {
    let log = "[t1] [ALPM] removed\n";
    match filter_logs(log, Action::Removed, usize::MAX) {
        Err(LogError::InvalidLine(l)) => assert_eq!(l, "[t1] [ALPM] removed"),
        Ok(_) => panic!("expected an error"),
    }
    assert!(filter_logs(log, Action::Installed, usize::MAX).unwrap().is_empty());
}

#[test]
fn malformed_line_beyond_cap_is_not_seen() {
    let log = "[t1] [ALPM] installed lonely\n[t2] [ALPM] installed foo (1.0)\n";
    let r = filter_logs(log, Action::Installed, 1).unwrap();
    assert_eq!(triples(&r), vec![t("[t2]", "foo", "(1.0)")]);
    assert!(filter_logs(log, Action::Installed, 2).is_err());
}

#[test]
fn carriage_returns_before_line_feeds_are_dropped() {
    let log = "[t1] [ALPM] installed foo 1.0\r\n[t2] [ALPM] installed bar 2.0\r";
    let r = filter_logs(log, Action::Installed, usize::MAX).unwrap();
    assert_eq!(triples(&r), vec![t("[t1]", "foo", "1.0"), t("[t2]", "bar", "2.0\r")]);
}

#[test]
fn explicit_reports_each_package_once() {
    let r = explicitly_installed(LOG, explicit_set(names(&["foo"])), usize::MAX).unwrap();
    assert_eq!(triples(&r), vec![t("[2024-01-05T10:00:00+0000]", "foo", "(1.2-1)")]);
}

#[test]
fn explicit_keeps_order_and_cap() {
    let set = || explicit_set(names(&["foo", "bar", "baz"]));
    let r = explicitly_installed(LOG, set(), usize::MAX).unwrap();
    assert_eq!(
        triples(&r),
        vec![
            t("[2024-01-03T10:00:01+0000]", "bar", "(2.0-1)"),
            t("[2024-01-05T10:00:00+0000]", "foo", "(1.2-1)"),
        ]
    );
    let r = explicitly_installed(LOG, set(), 1).unwrap();
    assert_eq!(triples(&r), vec![t("[2024-01-05T10:00:00+0000]", "foo", "(1.2-1)")]);
}

#[test]
fn explicit_never_repeats_a_package() {
    let log = "[t1] [ALPM] installed a 1\n[t2] [ALPM] installed b 1\n[t3] [ALPM] installed a 2\n\
[t4] [ALPM] installed b 2\n[t5] [ALPM] installed c 1\n";
    let r = explicitly_installed(log, explicit_set(names(&["a", "b"])), usize::MAX).unwrap();
    assert_eq!(triples(&r), vec![t("[t3]", "a", "2"), t("[t4]", "b", "2")]);
    let pkgs: Vec<&String> = r.iter().map(|e| &e.package).collect();
    for i in 0..pkgs.len() {
        for j in i + 1..pkgs.len() {
            assert_ne!(pkgs[i], pkgs[j]);
        }
    }
}

#[test]
fn explicit_empty_set_reports_nothing() {
    assert!(explicitly_installed(LOG, explicit_set(Vec::new()), usize::MAX).unwrap().is_empty());
}

#[test]
fn explicit_malformed_line_is_reported() {
    let log = "[t1] [ALPM] installed nospace\n";
    match explicitly_installed(log, explicit_set(names(&["nospace"])), usize::MAX) {
        Err(LogError::InvalidLine(l)) => assert_eq!(l, "[t1] [ALPM] installed nospace"),
        Ok(_) => panic!("expected an error"),
    }
}

#[test]
fn explicit_ignores_other_actions() {
    let r = explicitly_installed(LOG, explicit_set(names(&["foo"])), usize::MAX).unwrap();
    assert!(r.iter().all(|e| e.action == Action::Installed));
}

#[test]
fn format_places_markers_around_package() {
    let e = LogEntry {
        time: "[t]".to_string(),
        action: Action::Upgraded,
        package: "foo".to_string(),
        version: "(1.0 -> 1.1)".to_string(),
    };
    assert_eq!(format_entry(&e, "<", ">"), "[t] upgraded <foo> (1.0 -> 1.1)");
}

#[test]
fn highlight_is_bright_green() {
    let e = LogEntry {
        time: "[t]".to_string(),
        action: Action::Installed,
        package: "foo".to_string(),
        version: "(1.0)".to_string(),
    };
    assert_eq!(highlighted_entry(&e), "[t] installed \u{1b}[92mfoo\u{1b}[0m (1.0)");
}

#[test]
fn action_keywords() {
    assert_eq!(Action::Installed.keyword(), "installed");
    assert_eq!(Action::Upgraded.keyword(), "upgraded");
    assert_eq!(Action::Removed.keyword(), "removed");
}

#[test]
fn filter_modes() {
    assert_eq!(Filter::A.mode(), Mode::Everything);
    assert_eq!(Filter::All.mode(), Mode::Everything);
    assert_eq!(Filter::I.mode(), Mode::Only(Action::Installed));
    assert_eq!(Filter::Installed.mode(), Mode::Only(Action::Installed));
    assert_eq!(Filter::E.mode(), Mode::Explicit);
    assert_eq!(Filter::Explicitly.mode(), Mode::Explicit);
    assert_eq!(Filter::U.mode(), Mode::Only(Action::Upgraded));
    assert_eq!(Filter::Upgraded.mode(), Mode::Only(Action::Upgraded));
    assert_eq!(Filter::R.mode(), Mode::Only(Action::Removed));
    assert_eq!(Filter::Removed.mode(), Mode::Only(Action::Removed));
    assert_eq!(Filter::Uninstalled.mode(), Mode::Only(Action::Removed));
}

#[test]
fn viewers_tried_in_order() {
    let progs: Vec<&str> = (0..VIEWER_COUNT).map(viewer).collect();
    assert_eq!(progs, vec!["nvim", "vim", "bat", "cat"]);
    assert_eq!(first_viewer_step(), ViewerStep::Start(0));
    assert_eq!(next_viewer_step(0, Launch::NotStarted), ViewerStep::Start(1));
    assert_eq!(next_viewer_step(3, Launch::NotStarted), ViewerStep::NoneWorked);
    assert_eq!(next_viewer_step(1, Launch::Succeeded), ViewerStep::Done);
    assert_eq!(next_viewer_step(2, Launch::Failed(3)), ViewerStep::ExitedWith(2, 3));
    assert_eq!(next_viewer_step(0, Launch::Killed), ViewerStep::EndedBySignal(0));
}
