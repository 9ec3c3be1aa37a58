//! Layout and handle-arena behaviour of the window manager.

use wayvr::window::{ConfigureEvent, WindowManager};

/// Three windows split a 1000-wide display into bands [0,333), [333,666),
/// [666,1000): no gaps, no overlaps, full coverage at full height.
#[test]
fn layout_three_windows_partition_width() {
    let mut wm = WindowManager::new(1000, 500);
    let h1 = wm.get_window_handle(1);
    let h2 = wm.get_window_handle(2);
    let h3 = wm.get_window_handle(3);

    let w1 = *wm.get(&h1).unwrap();
    let w2 = *wm.get(&h2).unwrap();
    let w3 = *wm.get(&h3).unwrap();

    assert_eq!((w1.pos_x, w1.size_x), (0, 333));
    assert_eq!((w2.pos_x, w2.size_x), (333, 333));
    assert_eq!((w3.pos_x, w3.size_x), (666, 334));
    for w in [w1, w2, w3] {
        assert_eq!(w.pos_y, 0);
        assert_eq!(w.size_y, 500);
    }
    // edge-to-edge: each band starts where the previous one ends
    assert_eq!(w1.pos_x + w1.size_x as i32, w2.pos_x);
    assert_eq!(w2.pos_x + w2.size_x as i32, w3.pos_x);
    assert_eq!(w3.pos_x + w3.size_x as i32, 1000);
}

/// Band widths follow floor((i+1)W/n) - floor(iW/n) for an uneven split.
#[test]
fn layout_band_width_formula() {
    let mut wm = WindowManager::new(7, 10);
    for sid in 1..=3u64 {
        wm.get_window_handle(sid);
    }
    // floor(0*7/3)=0, floor(1*7/3)=2, floor(2*7/3)=4, floor(3*7/3)=7
    let widths: Vec<u32> = (1..=3u64).map(|sid| wm.get_window(sid).size_x).collect();
    assert_eq!(widths, vec![2, 2, 3]);
}

/// A single window takes the full display.
#[test]
fn layout_single_window_full_width() {
    let mut wm = WindowManager::new(1280, 720);
    let w = wm.get_window(42);
    assert_eq!((w.pos_x, w.pos_y, w.size_x, w.size_y), (0, 0, 1280, 720));
    assert_eq!(w.surface_id, 42);
}

/// A handle stays valid and resolves to the same window while its surface
/// lives; a second lookup of the same surface returns the same handle and
/// leaves the manager untouched.
#[test]
fn handle_stable_for_known_surface() {
    let mut wm = WindowManager::new(800, 600);
    let ha = wm.get_window_handle(7);
    let _hb = wm.get_window_handle(8);
    let ha_again = wm.get_window_handle(7);
    assert_eq!(ha, ha_again);
    assert_eq!(wm.get(&ha).unwrap().surface_id, 7);
}

/// After its surface is destroyed, an old handle is detected as invalid and
/// never aliases the new window that recycles the slot.
#[test]
fn stale_handle_never_aliases_recycled_slot() {
    let mut wm = WindowManager::new(800, 600);
    let ha = wm.get_window_handle(1);
    let _hb = wm.get_window_handle(2);
    assert!(wm.get(&ha).is_some());

    assert!(wm.remove_surface(1));
    assert!(wm.get(&ha).is_none());

    // the new window reuses the vacated slot, but under a new generation
    let hc = wm.get_window_handle(3);
    assert_eq!(hc.idx, ha.idx);
    assert_ne!(hc, ha);
    assert!(wm.get(&ha).is_none());
    assert_eq!(wm.get(&hc).unwrap().surface_id, 3);

    // removing an unknown surface is a no-op
    assert!(!wm.remove_surface(99));
}

/// Every reposition pass pushes one configure event per live window, in
/// creation order, carrying the newly assigned size.
#[test]
fn reposition_queues_configure_events() {
    let mut wm = WindowManager::new(1000, 500);
    wm.get_window_handle(1);
    wm.get_window_handle(2);
    let expected = vec![
        // first pass: window 1 alone
        ConfigureEvent { surface_id: 1, size_x: 1000, size_y: 500 },
        // second pass: both windows at half width
        ConfigureEvent { surface_id: 1, size_x: 500, size_y: 500 },
        ConfigureEvent { surface_id: 2, size_x: 500, size_y: 500 },
    ];
    assert_eq!(wm.pending_configures, expected);
}

/// Hit-testing: the first (and only) window containing the point wins;
/// points outside every window miss.
#[test]
fn hover_hits_containing_window() {
    let mut wm = WindowManager::new(1000, 500);
    wm.get_window_handle(10);
    wm.get_window_handle(20);
    assert_eq!(wm.get_hovered_window(0, 0).unwrap().surface_id, 10);
    assert_eq!(wm.get_hovered_window(499, 250).unwrap().surface_id, 10);
    assert_eq!(wm.get_hovered_window(500, 0).unwrap().surface_id, 20);
    assert_eq!(wm.get_hovered_window(999, 499).unwrap().surface_id, 20);
    assert!(wm.get_hovered_window(1000, 0).is_none());
    assert!(wm.get_hovered_window(3, 500).is_none());
}

/// An empty manager hovers nothing.
#[test]
fn hover_miss_when_empty() {
    let wm = WindowManager::new(1000, 500);
    assert!(wm.get_hovered_window(1, 1).is_none());
}

/// Surface lookup: a handle is found for live surfaces only.
#[test]
fn find_handle_for_known_surface_only() {
    let mut wm = WindowManager::new(640, 480);
    let h = wm.get_window_handle(5);
    assert_eq!(wm.find_window_handle(5), Some(h));
    assert_eq!(wm.find_window_handle(6), None);
    wm.remove_surface(5);
    assert_eq!(wm.find_window_handle(5), None);
}
