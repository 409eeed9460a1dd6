use json_ls::scheduler::DiagnosticsScheduler;

#[test]
fn test_only_latest_scheduling_publishes() {
    // For a burst of edits to the same document, only the last scheduling's
    // generation may publish.
    let mut sched = DiagnosticsScheduler::new();
    let uri = String::from("file:///a.json");
    let g1 = sched.schedule(&uri);
    let g2 = sched.schedule(&uri);
    let g3 = sched.schedule(&uri);
    assert_ne!(g1, g3);
    assert!(!sched.may_publish(&uri, g1));
    assert!(!sched.may_publish(&uri, g2));
    assert!(sched.may_publish(&uri, g3));
}

#[test]
fn test_distinct_documents_do_not_interfere() {
    let mut sched = DiagnosticsScheduler::new();
    let a = String::from("file:///a.json");
    let b = String::from("file:///b.json");
    let ga = sched.schedule(&a);
    let gb = sched.schedule(&b);
    assert!(sched.may_publish(&a, ga));
    assert!(sched.may_publish(&b, gb));
    let ga2 = sched.schedule(&a);
    assert!(!sched.may_publish(&a, ga));
    assert!(sched.may_publish(&a, ga2));
    assert!(sched.may_publish(&b, gb));
}

#[test]
fn test_complete_removes_registration() {
    let mut sched = DiagnosticsScheduler::new();
    let uri = String::from("file:///a.json");
    let g = sched.schedule(&uri);
    assert!(sched.may_publish(&uri, g));
    sched.complete(&uri, g);
    assert!(!sched.may_publish(&uri, g));
}

#[test]
fn test_complete_of_stale_generation_keeps_latest() {
    let mut sched = DiagnosticsScheduler::new();
    let uri = String::from("file:///a.json");
    let g1 = sched.schedule(&uri);
    let g2 = sched.schedule(&uri);
    // The superseded task finishing must not unregister the newer one.
    sched.complete(&uri, g1);
    assert!(sched.may_publish(&uri, g2));
}

#[test]
fn test_close_cancels_pending() {
    let mut sched = DiagnosticsScheduler::new();
    let uri = String::from("file:///a.json");
    let g = sched.schedule(&uri);
    sched.close(&uri);
    assert!(!sched.may_publish(&uri, g));
}
