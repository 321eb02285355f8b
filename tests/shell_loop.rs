use widget_tree::conversion::{
    modifiers_to_native, pointer_button_to_native, raw_os_err, Modifiers, MouseButton, SeatModifiers, BTN_EXTRA,
    BTN_LEFT, BTN_MIDDLE, BTN_RIGHT, BTN_SIDE,
};
use widget_tree::event_loop::{sticky_exit_callback, ControlFlow, LockStep, SessionLock, SessionLockAction};
use widget_tree::surface::{
    event_is_for_all_surfaces, event_is_for_surface, ConfigureSteps, EventRoute, Removal, SurfaceIdWrapper, Surfaces,
};

#[test]
fn surface_configure_lifecycle() {
    let mut s = Surfaces::new();
    s.created(10, SurfaceIdWrapper::Window(1));
    assert_eq!(s.configure(99, true), None);
    assert_eq!(s.configure(10, true), Some(ConfigureSteps { create_surface: true, build_interface: true }));
    assert_eq!(s.configure(10, false), Some(ConfigureSteps { create_surface: false, build_interface: false }));
    assert!(s.get(10).unwrap().configured);
    assert_eq!(s.len(), 1);
}

#[test]
fn closing_last_window_exits() {
    let mut s = Surfaces::new();
    s.created(10, SurfaceIdWrapper::Window(1));
    s.created(11, SurfaceIdWrapper::Popup(2));
    assert_eq!(s.remove(11, true), Removal { removed: Some(SurfaceIdWrapper::Popup(2)), exit: false });
    assert_eq!(s.remove(12, true), Removal { removed: None, exit: false });
    assert_eq!(s.remove(10, true), Removal { removed: Some(SurfaceIdWrapper::Window(1)), exit: true });
    assert_eq!(s.len(), 0);
}

#[test]
fn closing_window_without_exit_request() {
    let mut s = Surfaces::new();
    s.created(10, SurfaceIdWrapper::LayerSurface(1));
    assert_eq!(s.remove(10, false), Removal { removed: Some(SurfaceIdWrapper::LayerSurface(1)), exit: false });
}

#[test]
fn closing_last_popup_does_not_exit() {
    let mut s = Surfaces::new();
    s.created(11, SurfaceIdWrapper::Popup(2));
    assert_eq!(s.remove(11, true), Removal { removed: Some(SurfaceIdWrapper::Popup(2)), exit: false });
}

#[test]
fn recreated_object_starts_unconfigured() {
    let mut s = Surfaces::new();
    s.created(10, SurfaceIdWrapper::Window(1));
    let _ = s.configure(10, true);
    s.created(10, SurfaceIdWrapper::Window(3));
    assert_eq!(s.len(), 1);
    let l = s.get(10).unwrap();
    assert!(!l.configured);
    assert_eq!(l.id.inner(), 3);
}

#[test]
fn dnd_icons_dropped_after_drag() {
    let mut s = Surfaces::new();
    s.created(1, SurfaceIdWrapper::Window(1));
    s.created(2, SurfaceIdWrapper::Dnd(2));
    s.created(3, SurfaceIdWrapper::SessionLock(3));
    s.drop_dnd_icons();
    assert_eq!(s.len(), 2);
    assert!(s.get(2).is_none());
    assert!(s.get(1).is_some());
    assert!(s.get(3).is_some());
}

#[test]
fn pointer_buttons() {
    assert_eq!(pointer_button_to_native(BTN_LEFT), Some(MouseButton::Left));
    assert_eq!(pointer_button_to_native(BTN_RIGHT), Some(MouseButton::Right));
    assert_eq!(pointer_button_to_native(BTN_MIDDLE), Some(MouseButton::Middle));
    assert_eq!(pointer_button_to_native(BTN_SIDE), Some(MouseButton::Back));
    assert_eq!(pointer_button_to_native(BTN_EXTRA), Some(MouseButton::Forward));
    assert_eq!(pointer_button_to_native(0x115), Some(MouseButton::Other(0x115)));
    assert_eq!(pointer_button_to_native(70000), None);
}

#[test]
fn modifiers() {
    let m = SeatModifiers { ctrl: true, alt: false, shift: true, caps_lock: true, logo: false, num_lock: true };
    assert_eq!(modifiers_to_native(m), Modifiers { shift: true, control: true, alt: false, logo: false });
    assert_eq!(modifiers_to_native(SeatModifiers::default()), Modifiers::default());
}

#[test]
fn exit_codes() {
    assert_eq!(raw_os_err(Some(32)), 32);
    assert_eq!(raw_os_err(None), 1);
}

#[test]
fn exit_request_sticks() {
    let mut cf = ControlFlow::Poll;
    sticky_exit_callback(&mut cf, |_| ControlFlow::ExitWithCode(3));
    assert_eq!(cf, ControlFlow::ExitWithCode(3));
    sticky_exit_callback(&mut cf, |c| {
        assert_eq!(c, ControlFlow::ExitWithCode(3));
        ControlFlow::Wait
    });
    assert_eq!(cf, ControlFlow::ExitWithCode(3));
}

#[test]
fn session_lock_requests() {
    let mut l = SessionLock::new();
    assert_eq!(l.on_action(SessionLockAction::Lock), LockStep::RequestLock);
    l.lock_result(true);
    assert!(l.is_locked());
    assert_eq!(l.on_action(SessionLockAction::Lock), LockStep::Nothing);
    assert_eq!(
        l.on_action(SessionLockAction::LockSurface { id: 5, output: 1 }),
        LockStep::CreateSurface { id: 5, output: 1 }
    );
    l.surface_created(5);
    assert_eq!(l.on_action(SessionLockAction::DestroyLockSurface { id: 6 }), LockStep::Nothing);
    assert_eq!(l.on_action(SessionLockAction::DestroyLockSurface { id: 5 }), LockStep::SurfaceDone { id: 5 });
    assert_eq!(l.on_action(SessionLockAction::DestroyLockSurface { id: 5 }), LockStep::Nothing);
    assert_eq!(l.on_action(SessionLockAction::Unlock), LockStep::Unlock { release: true });
    assert!(!l.is_locked());
    assert_eq!(l.on_action(SessionLockAction::Unlock), LockStep::Unlock { release: false });
}

#[test]
fn failed_lock_is_not_held() {
    let mut l = SessionLock::new();
    assert_eq!(l.on_action(SessionLockAction::Lock), LockStep::RequestLock);
    l.lock_result(false);
    assert!(!l.is_locked());
}

#[test]
fn event_routing() {
    let subs = vec![7u32, 8];
    assert!(event_is_for_all_surfaces(&EventRoute::All));
    assert!(!event_is_for_all_surfaces(&EventRoute::Object(1)));
    assert!(event_is_for_surface(&EventRoute::Object(1), 1, &subs, false));
    assert!(!event_is_for_surface(&EventRoute::Object(7), 1, &subs, false));
    assert!(event_is_for_surface(&EventRoute::ObjectOrSubsurface(8), 1, &subs, false));
    assert!(!event_is_for_surface(&EventRoute::ObjectOrSubsurface(9), 1, &subs, false));
    assert!(event_is_for_surface(&EventRoute::KeyboardFocus, 1, &subs, true));
    assert!(!event_is_for_surface(&EventRoute::KeyboardFocus, 1, &subs, false));
    assert!(event_is_for_surface(&EventRoute::All, 1, &subs, false));
    assert!(!event_is_for_surface(&EventRoute::Nowhere, 1, &subs, true));
}

#[test]
fn drag_icons_are_not_redrawn() {
    let mut s = Surfaces::new();
    s.created(1, SurfaceIdWrapper::Window(1));
    s.created(2, SurfaceIdWrapper::Dnd(2));
    assert!(s.may_redraw(1));
    assert!(!s.may_redraw(2));
    assert!(!s.may_redraw(3));
}

#[test]
fn redraws_handed_out_after_batch() {
    let mut b = widget_tree::event_loop::RedrawBatch::new();
    b.request(4);
    b.request(4);
    b.request(5);
    b.request(4);
    assert_eq!(b.finish(), vec![4, 5, 4]);
    assert!(widget_tree::event_loop::RedrawBatch::new().finish().is_empty());
}
