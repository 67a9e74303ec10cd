use imgconv::model::{Config, Mode};
use imgconv::paths::FilePath;
use imgconv::pipeline::{
    read_delay_for, requests_from_event, requests_from_paths, should_convert, FsEventKind,
    RequestOrigin,
};

fn fp(rooted: bool, parts: &[&str]) -> FilePath {
    let components: Vec<Vec<u8>> = parts.iter().map(|p| p.as_bytes().to_vec()).collect();
    FilePath::new(rooted, components).expect("valid components")
}

fn parts_of(p: &FilePath) -> Vec<String> {
    p.components
        .iter()
        .map(|c| String::from_utf8(c.clone()).expect("utf8"))
        .collect()
}

fn config(flatten: bool) -> Config {
    Config {
        input_path: fp(true, &["in"]),
        output_path: fp(true, &["out"]),
        flatten,
        read_delay_ms: 0,
        long_side_limit: 50,
        smoothing_factor: 0,
        quality: 80,
        mode: Mode::Oneshot,
        thread_count: 1,
    }
}

#[test]
fn scan_skips_non_matching_files() {
    let paths = vec![fp(true, &["in", "a", "b.png"]), fp(true, &["in", "c.txt"])];
    let requests = requests_from_paths(paths, &config(false)).expect("all sources map");
    assert_eq!(requests.len(), 1);
    assert_eq!(parts_of(&requests[0].from), vec!["in", "a", "b.png"]);
    assert_eq!(parts_of(&requests[0].into), vec!["out", "a", "b.jpg"]);
}

#[test]
fn scan_flatten_collapses_destination() {
    let paths = vec![fp(true, &["in", "a", "b.png"])];
    let requests = requests_from_paths(paths, &config(true)).expect("all sources map");
    assert_eq!(requests.len(), 1);
    assert_eq!(parts_of(&requests[0].into), vec!["out", "b.jpg"]);
}

#[test]
fn scan_fails_on_matching_source_outside_input_root() {
    let paths = vec![fp(true, &["elsewhere", "b.png"])];
    assert!(requests_from_paths(paths, &config(false)).is_none());
}

#[test]
fn event_create_yields_requests() {
    let paths = vec![fp(true, &["in", "d.png"])];
    let requests =
        requests_from_event(FsEventKind::Create, paths, &config(false)).expect("all sources map");
    assert_eq!(requests.len(), 1);
    assert_eq!(parts_of(&requests[0].into), vec!["out", "d.jpg"]);
}

#[test]
fn event_other_kinds_yield_nothing() {
    let paths = vec![fp(true, &["in", "d.png"])];
    let requests =
        requests_from_event(FsEventKind::Other, paths, &config(false)).expect("never fatal");
    assert_eq!(requests.len(), 0);
}

#[test]
fn convert_skips_existing_destination() {
    assert!(should_convert(false));
    assert!(!should_convert(true));
}

#[test]
fn watch_requests_wait_the_read_delay() {
    let mut c = config(false);
    c.read_delay_ms = 250;
    assert_eq!(read_delay_for(RequestOrigin::Watch, &c), 250);
    assert_eq!(read_delay_for(RequestOrigin::Scan, &c), 0);
}
