//! The monitor fan-out registry: ordered delivery, lazy pruning of
//! detached subscribers, and the hook's command-line formatting.

use valkeyhttp::registry::{command_line_of, MonitorRegistry};

#[test]
fn subscriber_receives_all_commands_in_order() {
    let mut reg = MonitorRegistry::new();
    let id = reg.subscribe();
    reg.broadcast("set a 1");
    reg.broadcast("get a");
    reg.broadcast("del a");
    let msgs = reg.take(id);
    assert_eq!(msgs, vec!["set a 1", "get a", "del a"]);
    // drained: nothing left until the next broadcast
    assert_eq!(reg.take(id), Vec::<String>::new());
}

#[test]
fn slow_and_absent_subscribers_do_not_affect_delivery() {
    let mut reg = MonitorRegistry::new();
    let slow = reg.subscribe();
    reg.broadcast("set a 1");
    let late = reg.subscribe();
    reg.broadcast("set b 2");
    reg.broadcast("set c 3");
    // the slow subscriber never read in between and still sees everything
    assert_eq!(reg.take(slow), vec!["set a 1", "set b 2", "set c 3"]);
    // the late subscriber sees only what was executed after it joined
    assert_eq!(reg.take(late), vec!["set b 2", "set c 3"]);
}

#[test]
fn detached_subscriber_is_pruned_on_next_broadcast() {
    let mut reg = MonitorRegistry::new();
    let dying = reg.subscribe();
    let living = reg.subscribe();
    reg.broadcast("set a 1");
    assert_eq!(reg.subscriber_count(), 2);
    // the dying session's socket write failed: it detaches and exits
    reg.detach(dying);
    // cleanup is lazy: the count drops only on the next fan-out pass
    assert_eq!(reg.subscriber_count(), 2);
    reg.broadcast("set b 2");
    assert_eq!(reg.subscriber_count(), 1);
    // nothing further is queued for the detached subscriber
    assert_eq!(reg.take(dying), Vec::<String>::new());
    // the living one received both, in order
    assert_eq!(reg.take(living), vec!["set a 1", "set b 2"]);
}

#[test]
fn detaching_an_unknown_handle_changes_nothing() {
    let mut reg = MonitorRegistry::new();
    let id = reg.subscribe();
    reg.detach(id + 1);
    reg.broadcast("set a 1");
    assert_eq!(reg.subscriber_count(), 1);
    assert_eq!(reg.take(id), vec!["set a 1"]);
}

#[test]
fn handles_are_never_reused() {
    let mut reg = MonitorRegistry::new();
    let a = reg.subscribe();
    let b = reg.subscribe();
    assert_ne!(a, b);
    reg.detach(a);
    reg.broadcast("x y");
    let c = reg.subscribe();
    assert_ne!(a, c);
    assert_ne!(b, c);
}

#[test]
fn hook_joins_command_and_arguments_with_spaces() {
    let parts = vec!["SET".to_string(), "color".to_string(), "blue".to_string()];
    assert_eq!(command_line_of(&parts), "SET color blue");
    let parts = vec!["PING".to_string()];
    assert_eq!(command_line_of(&parts), "PING");
    let parts: Vec<String> = Vec::new();
    assert_eq!(command_line_of(&parts), "");
}
