use knob::routing::{RemoveOutcome, RouteError, RoutingTable};

fn s(x: &str) -> String {
    x.to_string()
}

/// The mix snapshot keeps the sources in order and drops exactly the removed one.
#[test]
fn snapshot_swap_len() {
    let mut table = RoutingTable::new();
    let s1: u64 = 0x1000;
    let s2: u64 = 0x2000;

    // add two sources
    table.register_source(s1);
    table.register_source(s2);
    assert_eq!(table.snapshot().len(), 2);

    // remove first source
    assert!(!table.rollback_source(s1, false));
    assert_eq!(table.snapshot().len(), 1);
    assert_eq!(table.snapshot()[0], s2);
}

#[test]
fn first_route_opens_and_last_closes() {
    let mut t = RoutingTable::new();
    let spotify = s("com.spotify.client");
    let music = s("com.apple.Music");

    assert_eq!(t.plan_add(&spotify), Ok(true));
    t.io_proc_opened();
    t.register_source(1);
    t.activate(spotify.clone(), 1);
    assert!(t.is_routed(&spotify));
    assert_eq!(t.route_source(&spotify), Some(1));

    assert_eq!(t.plan_add(&music), Ok(false));
    t.register_source(2);
    t.activate(music.clone(), 2);
    assert_eq!(t.snapshot(), vec![1, 2]);

    assert_eq!(t.remove(&spotify), RemoveOutcome { source: Some(1), close_io_proc: false });
    assert_eq!(t.snapshot(), vec![2]);
    assert!(t.io_proc_open());
    assert_eq!(t.remove(&music), RemoveOutcome { source: Some(2), close_io_proc: true });
    assert!(t.snapshot().is_empty());
    assert!(!t.io_proc_open());
}

#[test]
fn duplicate_route_rejected() {
    let mut t = RoutingTable::new();
    let app = s("com.google.Chrome");
    t.io_proc_opened();
    t.register_source(9);
    t.activate(app.clone(), 9);
    assert_eq!(t.plan_add(&app), Err(RouteError::AlreadyRouted));
}

#[test]
fn remove_unrouted_is_noop() {
    let mut t = RoutingTable::new();
    t.io_proc_opened();
    t.register_source(3);
    t.activate(s("a"), 3);
    assert_eq!(t.remove(&s("b")), RemoveOutcome { source: None, close_io_proc: false });
    assert_eq!(t.snapshot(), vec![3]);
    assert!(t.is_routed(&s("a")));
    assert!(t.io_proc_open());
}

#[test]
fn failed_source_build_closes_fresh_callback() {
    let mut t = RoutingTable::new();
    assert_eq!(t.plan_add(&s("x")), Ok(true));
    t.io_proc_opened();
    assert!(t.abandon_add(true));
    assert!(!t.io_proc_open());
    assert!(!t.abandon_add(false));
}

#[test]
fn failed_capture_rolls_back() {
    let mut t = RoutingTable::new();
    t.io_proc_opened();
    t.register_source(5);
    assert!(t.rollback_source(5, true));
    assert!(t.snapshot().is_empty());
    assert!(!t.io_proc_open());

    // a second route that fails keeps the callback of the first
    t.io_proc_opened();
    t.register_source(6);
    t.activate(s("first"), 6);
    assert_eq!(t.plan_add(&s("second")), Ok(false));
    t.register_source(7);
    assert!(!t.rollback_source(7, false));
    assert_eq!(t.snapshot(), vec![6]);
    assert!(t.io_proc_open());
}

#[test]
fn add_then_remove_restores() {
    let mut t = RoutingTable::new();
    t.io_proc_opened();
    t.register_source(10);
    t.activate(s("keep"), 10);
    let before = t.snapshot();
    assert_eq!(t.plan_add(&s("tmp")), Ok(false));
    assert!(!t.has_source(11));
    t.register_source(11);
    t.activate(s("tmp"), 11);
    assert!(t.has_source(11));
    t.remove(&s("tmp"));
    assert_eq!(t.snapshot(), before);
    assert!(!t.is_routed(&s("tmp")));
    assert!(t.is_routed(&s("keep")));
}
