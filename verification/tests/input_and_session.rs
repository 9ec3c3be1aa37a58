//! Input routing, the scroll conversion, the spawn environment, and the
//! listening-socket retry policy.

use std::collections::HashMap;
use wayvr::client::{
    build_child_env, create_wayland_listener, first_bind_success, get_mouse_index_number,
    scroll_v120, spawn_failure_message, EnvOp, InputState,
};
use wayvr::wayvr::{MouseIndex, WayVrError, WaylandEnv};
use wayvr::window::WindowManager;

#[test]
fn mouse_button_codes_are_the_wire_codes() {
    assert_eq!(get_mouse_index_number(MouseIndex::Left), 0x110);
    assert_eq!(get_mouse_index_number(MouseIndex::Center), 0x112);
    assert_eq!(get_mouse_index_number(MouseIndex::Right), 0x111);
}

/// The high-resolution axis value is round(delta * -120), sign inverted,
/// with the delta given in thousandths of an axis step.
#[test]
fn scroll_high_resolution_value() {
    assert_eq!(scroll_v120(1000), -120); // delta 1.0
    assert_eq!(scroll_v120(-1000), 120); // delta -1.0
    assert_eq!(scroll_v120(-500), 60); // delta -0.5
    assert_eq!(scroll_v120(2500), -300); // delta 2.5
    assert_eq!(scroll_v120(0), 0);
    assert_eq!(scroll_v120(4), 0); // -0.48 rounds to 0
    assert_eq!(scroll_v120(13), -2); // -1.56 rounds to -2
    assert_eq!(scroll_v120(-13), 2); // 1.56 rounds to 2
}

/// A scroll is delivered to the pointer focus with the inverted continuous
/// delta beside the high-resolution value.
#[test]
fn scroll_delivery_carries_focus_and_values() {
    let mut wm = WindowManager::new(100, 100);
    wm.get_window_handle(5);
    let mut input = InputState::new();
    let d = input.on_mouse_scroll(250);
    assert_eq!(d.target, None);
    input.on_mouse_move(&wm, 10, 10);
    let d = input.on_mouse_scroll(250);
    assert_eq!(d.target, Some(5));
    assert_eq!(d.axis_milli, -250);
    assert_eq!(d.v120, -30);
}

/// Focus transfer: with no keyboard focus, a press inside window A focuses
/// and delivers to A; a later press inside window B keeps keyboard focus on
/// A while the press goes to the current pointer focus, which followed the
/// motion into B.
#[test]
fn focus_transfer_between_two_windows() {
    let mut wm = WindowManager::new(1000, 500);
    wm.get_window_handle(10); // A: band [0, 500)
    wm.get_window_handle(20); // B: band [500, 1000)
    let mut input = InputState::new();

    // a press re-hit-tests at the last known pointer location (not at a
    // location supplied with the event), so the pointer moves first
    let m = input.on_mouse_move(&wm, 100, 100).unwrap();
    assert_eq!((m.surface_id, m.local_x, m.local_y), (10, 100, 100));
    let press = input.on_mouse_down(&wm, MouseIndex::Left);
    assert_eq!(press.button, 0x110);
    assert_eq!(press.focus_change, Some(10));
    assert_eq!(press.target, Some(10));
    assert_eq!(input.keyboard_focus, Some(10));

    let m = input.on_mouse_move(&wm, 700, 300).unwrap();
    assert_eq!((m.surface_id, m.local_x, m.local_y), (20, 200, 300));
    let press = input.on_mouse_down(&wm, MouseIndex::Left);
    // keyboard focus is only transferred when none is held
    assert_eq!(press.focus_change, None);
    assert_eq!(input.keyboard_focus, Some(10));
    // the press still goes to the current pointer focus
    assert_eq!(press.target, Some(20));

    let release = input.on_mouse_up(MouseIndex::Right);
    assert_eq!(release.button, 0x111);
    assert_eq!(release.target, Some(20));
    assert_eq!(release.focus_change, None);
}

/// Motion outside every window changes nothing and delivers nothing.
#[test]
fn motion_miss_is_a_no_op() {
    let mut wm = WindowManager::new(100, 100);
    wm.get_window_handle(1);
    let mut input = InputState::new();
    input.on_mouse_move(&wm, 50, 50).unwrap();
    assert!(input.on_mouse_move(&wm, 50, 200).is_none());
    assert_eq!(input.pointer_x, 50);
    assert_eq!(input.pointer_y, 50);
    assert_eq!(input.pointer_focus, Some(1));
}

fn apply_ops(base: &mut HashMap<String, String>, ops: &[EnvOp]) {
    for op in ops {
        match op {
            EnvOp::Assign(k, v) => {
                base.insert(k.clone(), v.clone());
            }
            EnvOp::Remove(k) => {
                base.remove(k);
            }
        }
    }
}

/// Environment override invariant: whatever the caller passes, the child
/// ends up with WAYLAND_DISPLAY bound to the compositor's endpoint and with
/// no legacy DISPLAY variable; other overrides and inherited variables
/// survive.
#[test]
fn spawn_env_override_invariant() {
    let endpoint = String::from("wayland-20");
    let overrides = vec![
        (String::from("FOO"), String::from("bar")),
        (String::from("DISPLAY"), String::from(":0")),
        (String::from("WAYLAND_DISPLAY"), String::from("wayland-99")),
    ];
    let ops = build_child_env(&endpoint, &overrides);
    assert_eq!(ops.len(), overrides.len() + 2);

    let mut env: HashMap<String, String> = HashMap::new();
    env.insert(String::from("DISPLAY"), String::from(":9"));
    env.insert(String::from("PATH"), String::from("/usr/bin"));
    apply_ops(&mut env, &ops);

    assert_eq!(env.get("WAYLAND_DISPLAY"), Some(&String::from("wayland-20")));
    assert_eq!(env.get("DISPLAY"), None);
    assert_eq!(env.get("FOO"), Some(&String::from("bar")));
    assert_eq!(env.get("PATH"), Some(&String::from("/usr/bin")));
}

/// A launch failure names the path and the cause, with guidance.
#[test]
fn spawn_failure_message_names_path_and_cause() {
    let m = spawn_failure_message("konsole", "No such file or directory");
    assert_eq!(
        m,
        "Failed to launch process with path \"konsole\": No such file or directory. \
         Make sure your exec path exists."
    );
}

/// Socket retry bound: k failures followed by a success settle on the
/// (k+1)-th candidate address; 21 failures exhaust the policy.
#[test]
fn socket_retry_policy_bound() {
    let mut outcomes = vec![false; 21];
    outcomes[0] = true;
    assert_eq!(first_bind_success(&outcomes), Some(20));

    let mut outcomes = vec![false; 21];
    outcomes[5] = true;
    outcomes[9] = true; // a later success is ignored: first one wins
    assert_eq!(first_bind_success(&outcomes), Some(25));

    let mut outcomes = vec![false; 21];
    outcomes[20] = true;
    assert_eq!(first_bind_success(&outcomes), Some(40));

    assert_eq!(first_bind_success(&vec![false; 21]), None);

    // a 22nd candidate is never probed
    let mut outcomes = vec![false; 22];
    outcomes[21] = true;
    assert_eq!(first_bind_success(&outcomes), None);
}

/// Binding the real listening socket either yields an address in the probed
/// range or fails with the exhaustion error, depending on the host.
#[test]
fn create_listener_respects_probe_range() {
    match create_wayland_listener() {
        Ok((env, _listener)) => {
            assert!((20..=40).contains(&env.display_num));
        }
        Err(e) => {
            assert_eq!(e.message(), "Failed to create wayland-server socket");
        }
    }
}

/// The endpoint name is "wayland-<display number>".
#[test]
fn display_num_string_formats_endpoint() {
    assert_eq!(WaylandEnv { display_num: 20 }.display_num_string(), "wayland-20");
    assert_eq!(WaylandEnv { display_num: 0 }.display_num_string(), "wayland-0");
    assert_eq!(WaylandEnv { display_num: 40 }.display_num_string(), "wayland-40");
    assert_eq!(
        WaylandEnv { display_num: 4294967295 }.display_num_string(),
        "wayland-4294967295"
    );
}

/// Each error renders its own message.
#[test]
fn error_messages() {
    assert_eq!(
        WayVrError::SocketExhausted.message(),
        "Failed to create wayland-server socket"
    );
    assert_eq!(
        WayVrError::SpawnFailed(String::from("boom")).message(),
        "boom"
    );
    assert_eq!(
        WayVrError::NoModifiers.message(),
        "No memory-layout modifiers available for the export format"
    );
}
