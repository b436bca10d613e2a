use thermostatd::router::{Handler, Router, SubscriptionSet};

#[test]
fn dispatch_exact_path_in_insertion_order() {
    let mut r = Router::new();
    r.insert("home/thermostat/temp", Handler { id: 1 });
    r.insert("home/thermostat/temp", Handler { id: 2 });
    assert_eq!(r.dispatch("home/thermostat/temp"), vec![1, 2]);
    assert_eq!(r.dispatch("home/thermostat"), Vec::<u64>::new());
    assert_eq!(r.dispatch("home/thermostat/temp/extra"), Vec::<u64>::new());
    assert_eq!(r.dispatch("other"), Vec::<u64>::new());
}

#[test]
fn dispatch_runs_wildcard_children() {
    let mut r = Router::new();
    r.insert("home/*", Handler { id: 7 });
    r.insert("home/kitchen", Handler { id: 8 });
    // The wildcard child's handlers run before the literal descent.
    assert_eq!(r.dispatch("home/kitchen"), vec![7, 8]);
    assert_eq!(r.dispatch("home/porch"), vec![7]);
    // They run whenever dispatch passes their node with segments left.
    assert_eq!(r.dispatch("home/kitchen/light"), vec![7]);
    assert_eq!(r.dispatch("home"), Vec::<u64>::new());
}

#[test]
fn dispatch_root_wildcard_sees_topics_below_the_root() {
    let mut r = Router::new();
    r.insert("*", Handler { id: 3 });
    assert_eq!(r.dispatch("anything"), vec![3]);
    assert_eq!(r.dispatch("any/deeper"), vec![3]);
}

#[test]
fn dispatch_handles_empty_segments() {
    let mut r = Router::new();
    r.insert("a//b", Handler { id: 4 });
    assert_eq!(r.dispatch("a//b"), vec![4]);
    assert_eq!(r.dispatch("a/b"), Vec::<u64>::new());
}

/// Subscribing any number of times yields exactly one logical
/// subscription.
#[test]
fn subscribe_is_idempotent() {
    let mut subs = SubscriptionSet::new();
    assert!(subs.subscribe(b"home/thermostat/temp".to_vec()));
    for _ in 0..4 {
        assert!(!subs.subscribe(b"home/thermostat/temp".to_vec()));
    }
    assert_eq!(subs.len(), 1);
    assert_eq!(subs.topic_at(0), &b"home/thermostat/temp".to_vec());
    assert!(subs.contains(b"home/thermostat/temp"));
    assert!(!subs.contains(b"home/thermostat"));
}

/// Repeated subscriptions do not stop dispatch from running every
/// registered handler.
#[test]
fn idempotent_subscribe_still_runs_all_handlers() {
    let mut subs = SubscriptionSet::new();
    let mut r = Router::new();
    r.insert("home/thermostat/temp", Handler { id: 1 });
    subs.subscribe(b"home/thermostat/temp".to_vec());
    r.insert("home/thermostat/temp", Handler { id: 2 });
    subs.subscribe(b"home/thermostat/temp".to_vec());
    assert_eq!(subs.len(), 1);
    assert_eq!(r.dispatch("home/thermostat/temp"), vec![1, 2]);
}
