use clear_coat::callbacks::CallbackRegistry;
use clear_coat::handle_rc::HandleRc;
use clear_coat::toolkit::Toolkit;

#[test]
fn two_clones_destroy_exactly_once() {
    // Create a handle, derive two clones (count = 2), drop both: the
    // native destroy fires exactly once, and only at the last drop.
    let mut tk = Toolkit::new();
    let h = tk.create_widget();
    let rc = HandleRc::new(&mut tk, h);
    let rc2 = rc.clone_rc(&mut tk);
    assert_eq!(tk.rc_get(h), Some(2));
    rc.release(&mut tk);
    assert_eq!(tk.times_destroyed(h), 0);
    assert!(tk.widget_is_live(h));
    rc2.release(&mut tk);
    assert_eq!(tk.times_destroyed(h), 1);
    assert!(!tk.widget_is_live(h));
}

#[test]
fn many_clones_any_order_destroy_once() {
    let mut tk = Toolkit::new();
    let h = tk.create_widget();
    let a = HandleRc::new(&mut tk, h);
    let b = a.clone_rc(&mut tk);
    let c = b.clone_rc(&mut tk);
    let d = a.clone_rc(&mut tk);
    assert_eq!(tk.rc_get(h), Some(4));
    // Release in an order unrelated to creation.
    c.release(&mut tk);
    a.release(&mut tk);
    d.release(&mut tk);
    assert_eq!(tk.times_destroyed(h), 0);
    b.release(&mut tk);
    assert_eq!(tk.times_destroyed(h), 1);
}

#[test]
fn reentrant_native_destroy_is_tolerated() {
    // The native layer destroys the widget on its own (as a container
    // destroys its children) while an owner remains; the final release
    // must not issue a second destroy.
    let mut tk = Toolkit::new();
    let h = tk.create_widget();
    let rc = HandleRc::new(&mut tk, h);
    tk.destroy_widget(h);
    assert_eq!(tk.times_destroyed(h), 1);
    rc.release(&mut tk);
    assert_eq!(tk.times_destroyed(h), 1);
    assert_eq!(tk.rc_get(h), None);
}

#[test]
fn destroy_while_registered_purges_registry() {
    // A widget destroyed while still registered for callbacks: the final
    // release purges the registry entry before the native destroy, so no
    // dispatch can reach a callback for the dead handle.
    let mut tk = Toolkit::new();
    let h = tk.create_widget();
    let rc = HandleRc::new(&mut tk, h);
    let mut reg: CallbackRegistry<u64> = CallbackRegistry::new("ACTION");
    let _t = reg.register(h, 7);
    assert!(reg.cb_for_handle(h).is_some());
    rc.release_purging(&mut tk, &mut reg);
    assert_eq!(tk.times_destroyed(h), 1);
    assert!(reg.cb_for_handle(h).is_none());
}

#[test]
fn independent_widgets_do_not_interfere() {
    let mut tk = Toolkit::new();
    let h1 = tk.create_widget();
    let h2 = tk.create_widget();
    assert_ne!(h1, h2);
    let rc1 = HandleRc::new(&mut tk, h1);
    let rc2 = HandleRc::new(&mut tk, h2);
    rc1.release(&mut tk);
    assert_eq!(tk.times_destroyed(h1), 1);
    assert_eq!(tk.times_destroyed(h2), 0);
    assert!(tk.widget_is_live(h2));
    rc2.release(&mut tk);
    assert_eq!(tk.times_destroyed(h2), 1);
}
