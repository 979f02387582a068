use clear_coat::callbacks::{dispatch_status, CallbackRegistry, DispatchOutcome,
    PropagationDecision, Token};
use clear_coat::toolkit::{NativeHandle, Toolkit};

/// What a trampoline does, with the callback invocation played by adding
/// the registered step to a counter.
fn simulate_dispatch(reg: &CallbackRegistry<u64>, h: NativeHandle, counter: &mut u64) -> i32 {
    match reg.cb_for_handle(h) {
        Some(step) => {
            *counter += *step;
            dispatch_status(DispatchOutcome::Completed(PropagationDecision::ContinuePropagation))
        },
        None => dispatch_status(DispatchOutcome::NoHandler),
    }
}

fn fresh_handle() -> (Toolkit, NativeHandle) {
    let mut tk = Toolkit::new();
    let h = tk.create_widget();
    (tk, h)
}

#[test]
fn second_registration_replaces_first() {
    let (_tk, h) = fresh_handle();
    let mut reg: CallbackRegistry<u64> = CallbackRegistry::new("ACTION");
    let t1 = reg.register(h, 1);
    let t2 = reg.register(h, 2);
    assert_ne!(t1, t2);
    // Only the second callback is active; dispatch never sees the first.
    assert_eq!(reg.cb_for_handle(h), Some(&2));
    // The first token died with its registration: unregistering it must
    // not disturb the second registration.
    reg.unregister(t1);
    assert_eq!(reg.cb_for_handle(h), Some(&2));
}

#[test]
fn unregister_falls_back_to_default_and_is_idempotent() {
    let (_tk, h) = fresh_handle();
    let mut reg: CallbackRegistry<u64> = CallbackRegistry::new("ACTION");
    let t = reg.register(h, 5);
    let mut counter: u64 = 0;
    assert_eq!(simulate_dispatch(&reg, h, &mut counter), -2);
    assert_eq!(counter, 5);
    reg.unregister(t);
    assert_eq!(simulate_dispatch(&reg, h, &mut counter), -2);
    assert_eq!(counter, 5);
    // A second unregister of the same token succeeds silently.
    reg.unregister(t);
    assert!(reg.cb_for_handle(h).is_none());
}

#[test]
fn action_counter_scenario() {
    // Register a callback for ACTION that increments a counter; invoke the
    // trampoline twice, unregister, invoke again.
    let (_tk, h) = fresh_handle();
    let mut reg: CallbackRegistry<u64> = CallbackRegistry::new("ACTION");
    let t = reg.register(h, 1);
    let mut counter: u64 = 0;
    simulate_dispatch(&reg, h, &mut counter);
    simulate_dispatch(&reg, h, &mut counter);
    assert_eq!(counter, 2);
    reg.unregister(t);
    simulate_dispatch(&reg, h, &mut counter);
    assert_eq!(counter, 2);
}

#[test]
fn tokens_are_unique_per_registry() {
    let mut tk = Toolkit::new();
    let h1 = tk.create_widget();
    let h2 = tk.create_widget();
    let mut reg: CallbackRegistry<u64> = CallbackRegistry::new("ACTION");
    let t1 = reg.register(h1, 1);
    let t2 = reg.register(h2, 2);
    let t3 = reg.register(h1, 3);
    let all: Vec<Token> = vec![t1, t2, t3];
    for i in 0..all.len() {
        for j in (i + 1)..all.len() {
            assert_ne!(all[i], all[j]);
        }
    }
    // Unregistering one handle's registration leaves the other alone.
    reg.unregister(t2);
    assert_eq!(reg.cb_for_handle(h1), Some(&3));
    assert!(reg.cb_for_handle(h2).is_none());
}

#[test]
fn status_codes_match_the_dispatcher_contract() {
    assert_eq!(dispatch_status(DispatchOutcome::NoHandler), -2);
    assert_eq!(
        dispatch_status(DispatchOutcome::Completed(PropagationDecision::ContinuePropagation)),
        -2
    );
    assert_eq!(dispatch_status(DispatchOutcome::Completed(PropagationDecision::Close)), -3);
    assert_eq!(dispatch_status(DispatchOutcome::Completed(PropagationDecision::Ignore)), -1);
    // An intercepted callback failure reports the default decision: the
    // failure must never unwind into the foreign caller.
    assert_eq!(dispatch_status(DispatchOutcome::Aborted), -2);
}

#[test]
fn purge_handle_clears_only_that_handle() {
    let mut tk = Toolkit::new();
    let h1 = tk.create_widget();
    let h2 = tk.create_widget();
    let mut reg: CallbackRegistry<u64> = CallbackRegistry::new("MAP");
    reg.register(h1, 10);
    reg.register(h2, 20);
    reg.purge_handle(h1);
    assert!(reg.cb_for_handle(h1).is_none());
    assert_eq!(reg.cb_for_handle(h2), Some(&20));
}

#[test]
fn event_name_is_kept() {
    let reg: CallbackRegistry<u64> = CallbackRegistry::new("ACTION");
    assert_eq!(reg.event_name().as_slice(), b"ACTION");
}
