//! The window manager: a slot arena of top-level windows addressed by
//! generation-tagged handles, an equal-horizontal-split layout policy, and
//! point hit-testing.
//!
//! Windows reference the underlying protocol top-level object only through a
//! plain numeric surface identity; the protocol bookkeeping itself is an
//! external collaborator.

use vstd::arithmetic::div_mod::{lemma_div_is_ordered, lemma_div_multiples_vanish, lemma_div_of0};
use vstd::prelude::*;

verus! {

/// One top-level client surface currently being composited.
#[derive(Clone, Copy, PartialEq, Eq, Structural, Debug)]
pub struct Window {
    pub pos_x: i32,
    pub pos_y: i32,
    pub size_x: u32,
    pub size_y: u32,
    /// Identity of the underlying protocol top-level object.
    pub surface_id: u64,
}

impl Window {
    pub fn new(surface_id: u64) -> (r: Window)
        ensures
            r == (Window { pos_x: 0, pos_y: 0, size_x: 0, size_y: 0, surface_id }),
    {
        Window { pos_x: 0, pos_y: 0, size_x: 0, size_y: 0, surface_id }
    }

    pub fn set_pos(&mut self, pos_x: i32, pos_y: i32)
        ensures
            *final(self) == (Window { pos_x, pos_y, ..*old(self) }),
    {
        self.pos_x = pos_x;
        self.pos_y = pos_y;
    }

    pub fn set_size(&mut self, size_x: u32, size_y: u32)
        ensures
            *final(self) == (Window { size_x, size_y, ..*old(self) }),
    {
        self.size_x = size_x;
        self.size_y = size_y;
    }
}

/// Does the window's rectangle contain the point `(x, y)`?
pub open spec fn spec_contains(w: Window, x: int, y: int) -> bool {
    &&& w.pos_x <= x < w.pos_x + w.size_x
    &&& w.pos_y <= y < w.pos_y + w.size_y
}

/// A stable reference to an arena slot: the slot index plus the generation
/// the slot had when the handle was issued. A handle is valid only while the
/// slot still carries that generation, so a recycled slot can never be
/// reached through a stale handle.
#[derive(Clone, Copy, PartialEq, Eq, Structural, Debug)]
pub struct WindowHandle {
    pub idx: usize,
    pub generation: u64,
}

/// An arena slot: its current generation and its occupant, if any.
#[derive(Clone, Copy)]
pub struct WindowCell {
    pub generation: u64,
    pub window: Option<Window>,
}

/// A configure event owed to a client: the size assigned to its surface.
#[derive(Clone, Copy, PartialEq, Eq, Structural, Debug)]
pub struct ConfigureEvent {
    pub surface_id: u64,
    pub size_x: u32,
    pub size_y: u32,
}

/// The left edge of horizontal band `i` when `n` windows share a display of
/// width `w`: `floor(i * w / n)`.
pub open spec fn band_left(i: int, n: int, w: int) -> int {
    i * w / n
}

/// Does `x` lie in one of the `n` bands of a display of width `w`?
pub open spec fn in_some_band(n: int, w: int, x: int) -> bool {
    exists|i: int| 0 <= i < n && #[trigger] band_left(i, n, w) <= x < band_left(i + 1, n, w)
}

/// The equal-split layout partitions the display width exactly: the bands
/// `[band_left(i), band_left(i + 1))` are ordered, disjoint, and together
/// cover `[0, w)` with no gaps.
pub proof fn lemma_layout_partition(n: int, w: int)
    requires
        0 < n,
        0 <= w,
    ensures
        band_left(0, n, w) == 0,
        band_left(n, n, w) == w,
        forall|i: int, j: int| 0 <= i <= j <= n ==> band_left(i, n, w) <= band_left(j, n, w),
        forall|x: int| 0 <= x < w ==> #[trigger] in_some_band(n, w, x),
{
    lemma_band_edges(n, w);
    assert forall|i: int, j: int| 0 <= i <= j <= n implies band_left(i, n, w) <= band_left(
        j,
        n,
        w,
    ) by {
        lemma_band_monotone(i, j, n, w);
    }
    assert forall|x: int| 0 <= x < w implies #[trigger] in_some_band(n, w, x) by {
        lemma_band_edges(n, w);
        lemma_band_cover(n, w, x, 0);
    }
}

/// Layout partition over the live windows themselves: once every window is
/// laid out, window `k`'s horizontal span is exactly the `k`-th band, the
/// bands are ordered and edge-to-edge from 0 to the display width, and
/// every column of the display lies in one of them.
pub proof fn lemma_windows_partition_width(wm: WindowManager)
    requires
        wm.wf(),
        wm.laid_out(),
        wm.window_count() > 0,
    ensures
        forall|k: int|
            0 <= k < wm.window_count() ==> (#[trigger] wm.nth_window(k)).pos_x == band_left(
                k,
                wm.window_count() as int,
                wm.disp_width as int,
            ) && wm.nth_window(k).pos_x + wm.nth_window(k).size_x == band_left(
                k + 1,
                wm.window_count() as int,
                wm.disp_width as int,
            ),
        band_left(0, wm.window_count() as int, wm.disp_width as int) == 0,
        band_left(
            wm.window_count() as int,
            wm.window_count() as int,
            wm.disp_width as int,
        ) == wm.disp_width,
        forall|i: int, j: int|
            0 <= i <= j <= wm.window_count() ==> band_left(
                i,
                wm.window_count() as int,
                wm.disp_width as int,
            ) <= band_left(j, wm.window_count() as int, wm.disp_width as int),
        forall|x: int|
            0 <= x < wm.disp_width ==> #[trigger] in_some_band(
                wm.window_count() as int,
                wm.disp_width as int,
                x,
            ),
{
    let n = wm.window_count() as int;
    let w = wm.disp_width as int;
    lemma_layout_partition(n, w);
    assert forall|k: int| 0 <= k < n implies (#[trigger] wm.nth_window(k)).pos_x == band_left(
        k,
        n,
        w,
    ) && wm.nth_window(k).pos_x + wm.nth_window(k).size_x == band_left(k + 1, n, w) by {
        lemma_band_bounds(k, n, w);
        lemma_band_bounds(k + 1, n, w);
        lemma_band_monotone(k, k + 1, n, w);
    }
}

/// Under the equal-split layout, windows do not overlap: no point lies in
/// two live windows, so the first hit of a scan is also the only one.
pub proof fn lemma_hit_is_unique(wm: WindowManager, k1: int, k2: int, x: int, y: int)
    requires
        wm.wf(),
        wm.laid_out(),
        0 <= k1 < wm.window_count(),
        0 <= k2 < wm.window_count(),
        spec_contains(wm.nth_window(k1), x, y),
        spec_contains(wm.nth_window(k2), x, y),
    ensures
        k1 == k2,
{
    let n = wm.window_count() as int;
    let w = wm.disp_width as int;
    if k1 < k2 {
        lemma_band_monotone(k1 + 1, k2, n, w);
        assert(false);
    }
    if k2 < k1 {
        lemma_band_monotone(k2 + 1, k1, n, w);
        assert(false);
    }
}

/// Band edges: the first band starts at 0 and the last one ends at `w`.
proof fn lemma_band_edges(n: int, w: int)
    requires
        0 < n,
        0 <= w,
    ensures
        band_left(0, n, w) == 0,
        band_left(n, n, w) == w,
{
    lemma_div_of0(n);
    assert(band_left(0, n, w) == 0);
    lemma_div_multiples_vanish(w, n);
    assert((n * w) / n == w);
    assert(n * w == w * n) by (nonlinear_arith);
    assert(band_left(n, n, w) == w);
}

/// Band left edges are monotone in the band index.
pub proof fn lemma_band_monotone(i: int, j: int, n: int, w: int)
    requires
        0 < n,
        0 <= w,
        i <= j,
    ensures
        band_left(i, n, w) <= band_left(j, n, w),
{
    assert(i * w <= j * w) by (nonlinear_arith)
        requires
            i <= j,
            0 <= w,
    ;
    lemma_div_is_ordered(i * w, j * w, n);
}

/// Every band's left edge lies within `[0, w]`.
pub proof fn lemma_band_bounds(i: int, n: int, w: int)
    requires
        0 < n,
        0 <= w,
        0 <= i <= n,
    ensures
        0 <= band_left(i, n, w) <= w,
{
    lemma_band_edges(n, w);
    lemma_band_monotone(0, i, n, w);
    lemma_band_monotone(i, n, n, w);
}

/// Any point of `[band_left(k), w)` lies in some band at or after `k`.
proof fn lemma_band_cover(n: int, w: int, x: int, k: int)
    requires
        0 < n,
        0 <= w,
        0 <= k < n,
        band_left(k, n, w) <= x < w,
    ensures
        in_some_band(n, w, x),
    decreases n - k,
{
    if x < band_left(k + 1, n, w) {
        assert(band_left(k, n, w) <= x < band_left(k + 1, n, w));
    } else {
        lemma_band_edges(n, w);
        if k + 1 == n {
            assert(band_left(k + 1, n, w) == w);
            assert(false);
        } else {
            lemma_band_cover(n, w, x, k + 1);
        }
    }
}

/// Inserting a fresh window into a vacant or brand-new slot preserves the
/// arena invariant, keeps every previously valid handle valid and unchanged,
/// and keeps every previously invalid handle (other than the new one)
/// invalid.
proof fn lemma_arena_insert(pre: WindowManager, post: WindowManager, h: WindowHandle, sid: u64)
    requires
        pre.wf(),
        !pre.has_surface(sid),
        post.disp_width == pre.disp_width,
        post.disp_height == pre.disp_height,
        post.order@ == pre.order@.push(h),
        post.pending_configures@ == pre.pending_configures@,
        h.generation < u64::MAX,
        h.idx < post.slots@.len(),
        post.slots@[h.idx as int] == (WindowCell {
            generation: h.generation,
            window: Some(
                Window { pos_x: 0, pos_y: 0, size_x: 0, size_y: 0, surface_id: sid },
            ),
        }),
        post.slots@.len() == pre.slots@.len() || (post.slots@.len() == pre.slots@.len() + 1
            && h.idx == pre.slots@.len()),
        forall|i: int|
            0 <= i < pre.slots@.len() && i != h.idx ==> post.slots@[i] == pre.slots@[i],
        h.idx < pre.slots@.len() ==> pre.slots@[h.idx as int].window is None,
    ensures
        post.wf(),
        post.valid_handle(h),
        post.window_at(h) == (Window {
            pos_x: 0,
            pos_y: 0,
            size_x: 0,
            size_y: 0,
            surface_id: sid,
        }),
        !pre.valid_handle(h),
        forall|h2: WindowHandle|
            pre.valid_handle(h2) ==> post.valid_handle(h2) && post.window_at(h2)
                == pre.window_at(h2),
        forall|h2: WindowHandle|
            !pre.valid_handle(h2) && h2 != h ==> !post.valid_handle(h2),
{
    let nold = pre.order@.len() as int;
    assert forall|h2: WindowHandle| pre.valid_handle(h2) implies post.valid_handle(h2)
        && post.window_at(h2) == pre.window_at(h2) by {
        assert(h2.idx != h.idx);
        assert(post.slots@[h2.idx as int] == pre.slots@[h2.idx as int]);
    }
    assert forall|h2: WindowHandle| !pre.valid_handle(h2) && h2 != h implies !post.valid_handle(
        h2,
    ) by {
        if h2.idx < post.slots@.len() {
            if h2.idx == h.idx {
                assert(h2.generation != h.generation);
            } else if h2.idx < pre.slots@.len() {
                assert(post.slots@[h2.idx as int] == pre.slots@[h2.idx as int]);
            }
        }
    }
    assert forall|k: int| 0 <= k < post.order@.len() implies post.valid_handle(
        #[trigger] post.order@[k],
    ) by {
        if k < nold {
            assert(pre.valid_handle(pre.order@[k]));
        }
    }
    assert forall|k1: int, k2: int| 0 <= k1 < k2 < post.order@.len() implies (
    #[trigger] post.order@[k1]).idx != (#[trigger] post.order@[k2]).idx by {
        if k2 < nold {
            assert(pre.valid_handle(pre.order@[k1]));
        } else {
            assert(pre.valid_handle(pre.order@[k1]));
            assert(pre.slots@[pre.order@[k1].idx as int].window is Some);
        }
    }
    assert forall|i: int|
        0 <= i < post.slots@.len() && (#[trigger] post.slots@[i]).window is Some implies exists|
        k: int,
    | 0 <= k < post.order@.len() && (#[trigger] post.order@[k]).idx == i by {
        if i == h.idx {
            assert(post.order@[nold].idx == i);
        } else {
            assert(pre.slots@[i].window is Some);
            let k = choose|k: int| 0 <= k < pre.order@.len() && (#[trigger] pre.order@[k]).idx
                == i;
            assert(post.order@[k].idx == i);
        }
    }
    assert forall|k1: int, k2: int| 0 <= k1 < k2 < post.window_count() implies
        #[trigger] post.nth_window(k1).surface_id != #[trigger] post.nth_window(
        k2,
    ).surface_id by {
        if k2 < nold {
            assert(pre.valid_handle(pre.order@[k1]));
            assert(pre.valid_handle(pre.order@[k2]));
            assert(post.nth_window(k1) == pre.nth_window(k1));
            assert(post.nth_window(k2) == pre.nth_window(k2));
        } else {
            assert(pre.valid_handle(pre.order@[k1]));
            assert(post.nth_window(k1) == pre.nth_window(k1));
            assert(pre.nth_window(k1).surface_id != sid);
        }
    }
    assert forall|k: int| 0 <= k < post.window_count() implies (#[trigger] post.nth_window(
        k,
    )).pos_x >= 0 && post.nth_window(k).pos_y >= 0 by {
        if k < nold {
            assert(pre.valid_handle(pre.order@[k]));
            assert(post.nth_window(k) == pre.nth_window(k));
        }
    }
}

/// Vacating the slot of the `k`-th live window and dropping it from the
/// creation order preserves the arena invariant; the removed surface is
/// gone, its handles are dead, all other handles are untouched, and no
/// previously invalid handle comes back to life.
proof fn lemma_arena_remove(
    pre: WindowManager,
    mid: WindowManager,
    k: int,
    h: WindowHandle,
    sid: u64,
)
    requires
        pre.wf(),
        0 <= k < pre.order@.len(),
        h == pre.order@[k],
        pre.nth_window(k).surface_id == sid,
        mid.disp_width == pre.disp_width,
        mid.disp_height == pre.disp_height,
        mid.order@ == pre.order@.remove(k),
        mid.pending_configures@ == pre.pending_configures@,
        mid.slots@.len() == pre.slots@.len(),
        mid.slots@[h.idx as int] == (WindowCell {
            generation: (pre.slots@[h.idx as int].generation + 1) as u64,
            window: None,
        }),
        forall|i: int|
            0 <= i < pre.slots@.len() && i != h.idx ==> mid.slots@[i] == pre.slots@[i],
    ensures
        mid.wf(),
        mid.window_count() == pre.window_count() - 1,
        !mid.has_surface(sid),
        forall|h2: WindowHandle|
            pre.valid_handle(h2) && pre.window_at(h2).surface_id != sid ==> mid.valid_handle(h2)
                && mid.window_at(h2) == pre.window_at(h2),
        forall|h2: WindowHandle|
            pre.valid_handle(h2) && pre.window_at(h2).surface_id == sid ==> !mid.valid_handle(
                h2,
            ),
        forall|h2: WindowHandle| !pre.valid_handle(h2) ==> !mid.valid_handle(h2),
{
    pre.order@.remove_ensures(k);
    assert(pre.valid_handle(h));
    // A valid handle whose window carries `sid` must use the vacated slot.
    assert forall|h2: WindowHandle|
        pre.valid_handle(h2) && pre.window_at(h2).surface_id == sid implies h2.idx == h.idx by {
        let k2 = choose|k2: int|
            0 <= k2 < pre.order@.len() && (#[trigger] pre.order@[k2]).idx == h2.idx;
        assert(pre.wf_complete());
        assert(pre.slots@[h2.idx as int].window is Some);
        assert(0 <= k2 < pre.order@.len() && pre.order@[k2].idx == h2.idx);
        assert(pre.nth_window(k2).surface_id == sid);
        if k2 != k {
            assert(pre.nth_window(k2).surface_id != pre.nth_window(k).surface_id);
            assert(false);
        }
    }
    assert forall|h2: WindowHandle|
        pre.valid_handle(h2) && pre.window_at(h2).surface_id != sid implies mid.valid_handle(h2)
        && mid.window_at(h2) == pre.window_at(h2) by {
        assert(h2.idx != h.idx);
        assert(mid.slots@[h2.idx as int] == pre.slots@[h2.idx as int]);
    }
    assert forall|h2: WindowHandle| !pre.valid_handle(h2) implies !mid.valid_handle(h2) by {
        if h2.idx < mid.slots@.len() && h2.idx != h.idx {
            assert(mid.slots@[h2.idx as int] == pre.slots@[h2.idx as int]);
        }
    }
    assert forall|j: int| 0 <= j < mid.order@.len() implies mid.valid_handle(
        #[trigger] mid.order@[j],
    ) && mid.nth_window(j) == pre.nth_window(if j < k { j } else { j + 1 }) by {
        let p = if j < k {
            j
        } else {
            j + 1
        };
        assert(mid.order@[j] == pre.order@[p]);
        assert(pre.valid_handle(pre.order@[p]));
        if k != p {
            assert(pre.order@[p].idx != pre.order@[k].idx);
        }
        assert(mid.slots@[pre.order@[p].idx as int] == pre.slots@[pre.order@[p].idx as int]);
    }
    assert forall|j1: int, j2: int| 0 <= j1 < j2 < mid.order@.len() implies (
    #[trigger] mid.order@[j1]).idx != (#[trigger] mid.order@[j2]).idx by {
        let p1 = if j1 < k {
            j1
        } else {
            j1 + 1
        };
        let p2 = if j2 < k {
            j2
        } else {
            j2 + 1
        };
        assert(mid.order@[j1] == pre.order@[p1]);
        assert(mid.order@[j2] == pre.order@[p2]);
        assert(pre.order@[p1].idx != pre.order@[p2].idx);
    }
    assert forall|i: int|
        0 <= i < mid.slots@.len() && (#[trigger] mid.slots@[i]).window is Some implies exists|
        j: int,
    | 0 <= j < mid.order@.len() && (#[trigger] mid.order@[j]).idx == i by {
        assert(i != h.idx);
        assert(mid.slots@[i] == pre.slots@[i]);
        let k2 = choose|k2: int|
            0 <= k2 < pre.order@.len() && (#[trigger] pre.order@[k2]).idx == i;
        assert(0 <= k2 < pre.order@.len() && pre.order@[k2].idx == i);
        assert(k2 != k);
        let j = if k2 < k {
            k2
        } else {
            k2 - 1
        };
        assert(mid.order@[j] == pre.order@[k2]);
    }
    assert forall|j1: int, j2: int| 0 <= j1 < j2 < mid.window_count() implies
        #[trigger] mid.nth_window(j1).surface_id != #[trigger] mid.nth_window(
        j2,
    ).surface_id by {
        let p1 = if j1 < k {
            j1
        } else {
            j1 + 1
        };
        let p2 = if j2 < k {
            j2
        } else {
            j2 + 1
        };
        assert(mid.nth_window(j1) == pre.nth_window(p1));
        assert(mid.nth_window(j2) == pre.nth_window(p2));
    }
    assert forall|j: int| 0 <= j < mid.window_count() implies #[trigger] mid.nth_window(
        j,
    ).surface_id != sid by {
        let p = if j < k {
            j
        } else {
            j + 1
        };
        assert(mid.nth_window(j) == pre.nth_window(p));
        assert(pre.nth_window(p).surface_id != pre.nth_window(k).surface_id);
    }
    assert forall|j: int| 0 <= j < mid.window_count() implies (#[trigger] mid.nth_window(
        j,
    )).pos_x >= 0 && mid.nth_window(j).pos_y >= 0 by {
        let p = if j < k {
            j
        } else {
            j + 1
        };
        assert(mid.nth_window(j) == pre.nth_window(p));
    }
}

/// Two managers with the same creation order and slot-for-slot agreement on
/// everything but geometry validate the same handles and carry the same
/// surfaces.
proof fn lemma_same_windows_preserves(a: WindowManager, b: WindowManager)
    requires
        a.wf(),
        b.order@ == a.order@,
        b.same_windows(a),
    ensures
        forall|h: WindowHandle| a.valid_handle(h) <==> b.valid_handle(h),
        forall|h: WindowHandle|
            a.valid_handle(h) ==> b.window_at(h).surface_id == a.window_at(h).surface_id,
        forall|j: int|
            0 <= j < a.window_count() ==> #[trigger] b.nth_window(j).surface_id == a.nth_window(
                j,
            ).surface_id,
        forall|sid: u64| #[trigger] a.has_surface(sid) <==> b.has_surface(sid),
{
    assert forall|h: WindowHandle| a.valid_handle(h) <==> b.valid_handle(h) by {
        if h.idx < a.slots@.len() {
            assert(b.slots@[h.idx as int].generation == a.slots@[h.idx as int].generation);
            assert(b.slots@[h.idx as int].window is Some <==> a.slots@[h.idx as int].window
                is Some);
        }
    }
    assert forall|j: int| 0 <= j < a.window_count() implies #[trigger] b.nth_window(
        j,
    ).surface_id == a.nth_window(j).surface_id by {
        assert(a.valid_handle(a.order@[j]));
    }
    assert forall|sid: u64| #[trigger] a.has_surface(sid) <==> b.has_surface(sid) by {
        if a.has_surface(sid) {
            let j = choose|j: int|
                0 <= j < a.window_count() && a.nth_window(j).surface_id == sid;
            assert(b.nth_window(j).surface_id == sid);
        }
        if b.has_surface(sid) {
            let j = choose|j: int|
                0 <= j < b.window_count() && b.nth_window(j).surface_id == sid;
            assert(b.nth_window(j).surface_id == a.nth_window(j).surface_id);
        }
    }
}

/// The window manager: the display size, the slot arena, the live windows in
/// creation order, and the configure events not yet delivered to clients.
pub struct WindowManager {
    pub disp_width: u32,
    pub disp_height: u32,
    pub slots: Vec<WindowCell>,
    pub order: Vec<WindowHandle>,
    pub pending_configures: Vec<ConfigureEvent>,
}

impl WindowManager {
    /// Is `h` a currently valid handle?
    pub open spec fn valid_handle(self, h: WindowHandle) -> bool {
        &&& h.idx < self.slots@.len()
        &&& self.slots@[h.idx as int].generation == h.generation
        &&& self.slots@[h.idx as int].window is Some
    }

    /// The window a valid handle resolves to.
    pub open spec fn window_at(self, h: WindowHandle) -> Window
        recommends
            self.valid_handle(h),
    {
        self.slots@[h.idx as int].window.unwrap()
    }

    /// The number of live windows.
    pub open spec fn window_count(self) -> nat {
        self.order@.len()
    }

    /// The `k`-th live window, in creation order.
    pub open spec fn nth_window(self, k: int) -> Window
        recommends
            0 <= k < self.window_count(),
    {
        self.window_at(self.order@[k])
    }

    /// Is some live window bound to surface identity `sid`?
    pub open spec fn has_surface(self, sid: u64) -> bool {
        exists|k: int| 0 <= k < self.window_count() && self.nth_window(k).surface_id == sid
    }

    /// Every entry of the creation-order list is a valid handle.
    pub open spec fn wf_handles(self) -> bool {
        forall|k: int|
            0 <= k < self.order@.len() ==> self.valid_handle(#[trigger] self.order@[k])
    }

    /// No two entries of the creation-order list share a slot.
    pub open spec fn wf_distinct_slots(self) -> bool {
        forall|k1: int, k2: int|
            0 <= k1 < k2 < self.order@.len() ==> (#[trigger] self.order@[k1]).idx != (
            #[trigger] self.order@[k2]).idx
    }

    /// Every occupied slot is reachable from the creation-order list.
    pub open spec fn wf_complete(self) -> bool {
        forall|i: int|
            0 <= i < self.slots@.len() && (#[trigger] self.slots@[i]).window is Some
                ==> exists|k: int|
                0 <= k < self.order@.len() && (#[trigger] self.order@[k]).idx == i
    }

    /// No two live windows share a surface identity.
    pub open spec fn wf_distinct_surfaces(self) -> bool {
        forall|k1: int, k2: int|
            0 <= k1 < k2 < self.window_count() ==> #[trigger] self.nth_window(k1).surface_id
                != #[trigger] self.nth_window(k2).surface_id
    }

    /// Every occupied slot still has room to bump its generation when it is
    /// vacated; a slot whose generation cannot grow any more is never
    /// reused.
    pub open spec fn wf_live_generations(self) -> bool {
        forall|i: int|
            0 <= i < self.slots@.len() && (#[trigger] self.slots@[i]).window is Some
                ==> self.slots@[i].generation < u64::MAX
    }

    /// Live windows sit at non-negative positions.
    pub open spec fn wf_positions(self) -> bool {
        forall|k: int|
            0 <= k < self.window_count() ==> (#[trigger] self.nth_window(k)).pos_x >= 0
                && self.nth_window(k).pos_y >= 0
    }

    /// The manager's invariant. The display bounds fit the signed
    /// coordinate space that window positions use.
    pub open spec fn wf(self) -> bool {
        &&& self.disp_width <= i32::MAX as u32
        &&& self.disp_height <= i32::MAX as u32
        &&& self.wf_handles()
        &&& self.wf_distinct_slots()
        &&& self.wf_complete()
        &&& self.wf_distinct_surfaces()
        &&& self.wf_live_generations()
        &&& self.wf_positions()
    }

    /// The left edge of the `k`-th window's band under the current window
    /// count and display width.
    pub open spec fn spec_band_left(self, k: int) -> int {
        band_left(k, self.window_count() as int, self.disp_width as int)
    }

    /// Is every live window at its equal-split layout position: window `k`
    /// of `n` occupies its horizontal band at full display height?
    pub open spec fn laid_out(self) -> bool {
        forall|k: int|
            0 <= k < self.window_count() ==> {
                let w = #[trigger] self.nth_window(k);
                &&& w.pos_x == self.spec_band_left(k)
                &&& w.pos_y == 0
                &&& w.size_x == self.spec_band_left(k + 1) - self.spec_band_left(k)
                &&& w.size_y == self.disp_height
            }
    }

    /// The configure event a reposition pass owes the `k`-th window.
    pub open spec fn spec_band_configure(self, k: int) -> ConfigureEvent {
        ConfigureEvent {
            surface_id: self.nth_window(k).surface_id,
            size_x: (self.spec_band_left(k + 1) - self.spec_band_left(k)) as u32,
            size_y: self.disp_height,
        }
    }

    /// The configure events one reposition pass pushes, in creation order.
    pub open spec fn spec_band_configures(self) -> Seq<ConfigureEvent> {
        Seq::new(self.window_count(), |k: int| self.spec_band_configure(k))
    }

    /// Slot-for-slot agreement on everything but window geometry.
    pub open spec fn same_windows(self, other: WindowManager) -> bool {
        &&& self.slots@.len() == other.slots@.len()
        &&& forall|i: int|
            0 <= i < self.slots@.len() ==> {
                let c = #[trigger] self.slots@[i];
                let d = other.slots@[i];
                &&& c.generation == d.generation
                &&& (c.window is Some <==> d.window is Some)
                &&& (c.window is Some ==> c.window.unwrap().surface_id
                    == d.window.unwrap().surface_id)
            }
    }

    pub fn new(disp_width: u32, disp_height: u32) -> (r: WindowManager)
        requires
            disp_width <= i32::MAX as u32,
            disp_height <= i32::MAX as u32,
        ensures
            r.wf(),
            r.disp_width == disp_width,
            r.disp_height == disp_height,
            r.window_count() == 0,
            r.pending_configures@ =~= Seq::<ConfigureEvent>::empty(),
    {
        WindowManager {
            disp_width,
            disp_height,
            slots: Vec::new(),
            order: Vec::new(),
            pending_configures: Vec::new(),
        }
    }

    /// The handle of the live window bound to `sid`, if any.
    pub fn find_window_handle(&self, sid: u64) -> (r: Option<WindowHandle>)
        requires
            self.wf(),
        ensures
            r is Some <==> self.has_surface(sid),
            r matches Some(h) ==> self.valid_handle(h) && self.window_at(h).surface_id == sid,
    {
        let n = self.order.len();
        let mut k: usize = 0;
        while k < n
            invariant
                self.wf(),
                n == self.order@.len(),
                k <= n,
                forall|j: int| 0 <= j < k ==> self.nth_window(j).surface_id != sid,
            decreases n - k,
        {
            let h = self.order[k];
            match &self.slots[h.idx].window {
                Some(w) => {
                    if w.surface_id == sid {
                        proof {
                            assert(self.nth_window(k as int).surface_id == sid);
                        }
                        return Some(h);
                    }
                },
                None => {
                    proof {
                        assert(self.valid_handle(self.order@[k as int]));
                        assert(false);
                    }
                },
            }
            k = k + 1;
        }
        None
    }

    /// Allocates an arena slot for a new window bound to `sid`, reusing a
    /// vacant slot when one is available, and appends it to the creation
    /// order. The new window has zero position and size.
    fn create_window_handle(&mut self, sid: u64) -> (r: WindowHandle)
        requires
            old(self).wf(),
            !old(self).has_surface(sid),
        ensures
            final(self).wf(),
            final(self).disp_width == old(self).disp_width,
            final(self).disp_height == old(self).disp_height,
            final(self).valid_handle(r),
            final(self).window_at(r) == (Window {
                pos_x: 0,
                pos_y: 0,
                size_x: 0,
                size_y: 0,
                surface_id: sid,
            }),
            final(self).order@ == old(self).order@.push(r),
            !old(self).valid_handle(r),
            forall|h: WindowHandle|
                old(self).valid_handle(h) ==> final(self).valid_handle(h) && final(self).window_at(h) == old(self).window_at(h),
            forall|h: WindowHandle|
                !old(self).valid_handle(h) && h != r ==> !final(self).valid_handle(h),
            final(self).pending_configures@ == old(self).pending_configures@,
    {
        let w = Window::new(sid);
        let nslots = self.slots.len();
        let mut i: usize = 0;
        while i < nslots
            invariant
                old(self).wf(),
                !old(self).has_surface(sid),
                *self == *old(self),
                nslots == self.slots@.len(),
                i <= nslots,
                w == (Window { pos_x: 0, pos_y: 0, size_x: 0, size_y: 0, surface_id: sid }),
            decreases nslots - i,
        {
            let c = self.slots[i];
            let is_free = match &c.window {
                None => true,
                Some(_) => false,
            };
            if is_free && c.generation < u64::MAX {
                let h = WindowHandle { idx: i, generation: c.generation };
                self.slots[i] = WindowCell { generation: c.generation, window: Some(w) };
                self.order.push(h);
                proof {
                    lemma_arena_insert(*old(self), *self, h, sid);
                }
                return h;
            }
            i = i + 1;
        }
        let idx = self.slots.len();
        let h = WindowHandle { idx, generation: 0 };
        self.slots.push(WindowCell { generation: 0, window: Some(w) });
        self.order.push(h);
        proof {
            lemma_arena_insert(*old(self), *self, h, sid);
        }
        h
    }

    /// Returns the handle of the window bound to `surface_id`, creating the
    /// window and re-running the layout pass when the surface is new. A
    /// known surface leaves the manager untouched; a new one appends a
    /// window and lays every window out again, queueing one configure event
    /// per window. Handles valid before the call stay valid and keep their
    /// surface; invalid handles other than the returned one stay invalid.
    pub fn get_window_handle(&mut self, surface_id: u64) -> (r: WindowHandle)
        requires
            old(self).wf(),
        ensures
            final(self).wf(),
            final(self).disp_width == old(self).disp_width,
            final(self).disp_height == old(self).disp_height,
            final(self).valid_handle(r),
            final(self).window_at(r).surface_id == surface_id,
            final(self).has_surface(surface_id),
            old(self).has_surface(surface_id) ==> *final(self) == *old(self),
            !old(self).has_surface(surface_id) ==> {
                &&& final(self).order@.len() == old(self).order@.len() + 1
                &&& !old(self).valid_handle(r)
                &&& final(self).laid_out()
                &&& final(self).pending_configures@ == old(self).pending_configures@ + final(self).spec_band_configures()
            },
            forall|h: WindowHandle|
                old(self).valid_handle(h) ==> final(self).valid_handle(h) && final(self).window_at(h).surface_id == old(self).window_at(h).surface_id,
            forall|h: WindowHandle|
                !old(self).valid_handle(h) && h != r ==> !final(self).valid_handle(h),
    {
        match self.find_window_handle(surface_id) {
            Some(h) => h,
            None => {
                let h = self.create_window_handle(surface_id);
                let ghost mid = *self;
                self.reposition_windows();
                proof {
                    assert forall|h2: WindowHandle| mid.valid_handle(h2) implies self.valid_handle(
                        h2,
                    ) && self.window_at(h2).surface_id == mid.window_at(h2).surface_id by {
                        assert(self.slots@[h2.idx as int].generation == mid.slots@[h2.idx
                            as int].generation);
                    }
                    assert forall|h2: WindowHandle| !mid.valid_handle(h2) implies !self
                        .valid_handle(h2) by {
                        if h2.idx < mid.slots@.len() {
                            assert(self.slots@[h2.idx as int].generation == mid.slots@[h2.idx
                                as int].generation);
                        }
                    }
                    assert(self.valid_handle(h));
                    assert(self.window_at(h).surface_id == surface_id);
                    let k = self.order@.len() - 1;
                    assert(self.order@[k] == h);
                    assert(self.nth_window(k).surface_id == surface_id);
                    assert(self.has_surface(surface_id));
                }
                h
            },
        }
    }

    /// Resolves a handle to its window: `Some` exactly while the handle is
    /// valid, `None` once the slot was vacated or recycled.
    pub fn get(&self, handle: &WindowHandle) -> (r: Option<&Window>)
        ensures
            match r {
                Some(w) => self.valid_handle(*handle) && *w == self.window_at(*handle),
                None => !self.valid_handle(*handle),
            },
    {
        if handle.idx < self.slots.len() {
            let c = &self.slots[handle.idx];
            if c.generation == handle.generation {
                match &c.window {
                    Some(w) => Some(w),
                    None => None,
                }
            } else {
                None
            }
        } else {
            None
        }
    }

    /// Recomputes the equal-horizontal-split layout for every live window
    /// and queues a configure event per window. Window `k` of `n` occupies
    /// the band `[floor(k*W/n), floor((k+1)*W/n))` at full display height.
    fn reposition_windows(&mut self)
        requires
            old(self).wf(),
        ensures
            final(self).wf(),
            final(self).disp_width == old(self).disp_width,
            final(self).disp_height == old(self).disp_height,
            final(self).order@ == old(self).order@,
            final(self).same_windows(*old(self)),
            final(self).laid_out(),
            final(self).pending_configures@ == old(self).pending_configures@
                + final(self).spec_band_configures(),
    {
        let n = self.order.len();
        if n == 0 {
            proof {
                assert(self.spec_band_configures() =~= Seq::<ConfigureEvent>::empty());
                assert(self.pending_configures@ =~= self.pending_configures@
                    + self.spec_band_configures());
            }
            return ;
        }
        let wdisp = self.disp_width;
        let hdisp = self.disp_height;
        let mut k: usize = 0;
        while k < n
            invariant
                old(self).wf(),
                0 < n == self.order@.len(),
                k <= n,
                self.disp_width == old(self).disp_width == wdisp,
                self.disp_height == old(self).disp_height == hdisp,
                self.order@ == old(self).order@,
                self.same_windows(*old(self)),
                forall|j: int|
                    0 <= j < k ==> {
                        let w = #[trigger] self.nth_window(j);
                        &&& w.pos_x == self.spec_band_left(j)
                        &&& w.pos_y == 0
                        &&& w.size_x == self.spec_band_left(j + 1) - self.spec_band_left(j)
                        &&& w.size_y == hdisp
                    },
                forall|j: int|
                    k <= j < n ==> self.slots@[(#[trigger] self.order@[j]).idx as int]
                        == old(self).slots@[self.order@[j].idx as int],
                self.pending_configures@ == old(self).pending_configures@ + Seq::new(
                    k as nat,
                    |j: int| old(self).spec_band_configure(j),
                ),
            decreases n - k,
        {
            let ghost prev = *self;
            let h = self.order[k];
            proof {
                assert(old(self).valid_handle(old(self).order@[k as int]));
                assert(self.valid_handle(h));
            }
            proof {
                let ki = k as int;
                let ni = n as int;
                let wi = wdisp as int;
                assert(0 <= ki * wi <= (ki + 1) * wi) by (nonlinear_arith)
                    requires
                        0 <= ki,
                        0 <= wi,
                ;
                assert((ki + 1) * wi <= 0x1_0000_0000_0000_0000 * 0x8000_0000int)
                    by (nonlinear_arith)
                    requires
                        0 <= ki + 1 <= 0x1_0000_0000_0000_0000,
                        0 <= wi <= 0x8000_0000int,
                ;
                lemma_band_bounds(ki, ni, wi);
                lemma_band_bounds(ki + 1, ni, wi);
                lemma_band_monotone(ki, ki + 1, ni, wi);
            }
            let left128 = (k as u128) * (wdisp as u128) / (n as u128);
            let right128 = (k as u128 + 1) * (wdisp as u128) / (n as u128);
            proof {
                let ki = k as int;
                let ni = n as int;
                let wi = wdisp as int;
                assert(left128 == band_left(ki, ni, wi));
                assert(right128 == band_left(ki + 1, ni, wi));
            }
            let left = left128 as u32;
            let right = right128 as u32;
            let width = right - left;
            let idx = h.idx;
            let cell = self.slots[idx];
            let mut w = cell.window.unwrap();
            w.set_pos(left as i32, 0);
            w.set_size(width, hdisp);
            self.slots[idx] = WindowCell { generation: cell.generation, window: Some(w) };
            self.pending_configures.push(
                ConfigureEvent { surface_id: w.surface_id, size_x: width, size_y: hdisp },
            );
            proof {
                assert forall|j: int| k + 1 <= j < n implies self.slots@[(
                #[trigger] self.order@[j]).idx as int] == old(self).slots@[self.order@[j].idx
                    as int] by {
                    assert(old(self).wf_distinct_slots());
                    assert(old(self).order@[k as int].idx != old(self).order@[j].idx);
                }
                assert forall|j: int| 0 <= j < k + 1 implies {
                    let wj = #[trigger] self.nth_window(j);
                    &&& wj.pos_x == self.spec_band_left(j)
                    &&& wj.pos_y == 0
                    &&& wj.size_x == self.spec_band_left(j + 1) - self.spec_band_left(j)
                    &&& wj.size_y == hdisp
                } by {
                    if j < k {
                        assert(old(self).order@[k as int].idx != old(self).order@[j].idx);
                        assert(self.nth_window(j) == prev.nth_window(j));
                    }
                }
                assert(self.pending_configures@ =~= old(self).pending_configures@ + Seq::new(
                    (k + 1) as nat,
                    |j: int| old(self).spec_band_configure(j),
                ));
            }
            k = k + 1;
        }
        proof {
            assert forall|kk: int| 0 <= kk < self.order@.len() implies self.valid_handle(
                #[trigger] self.order@[kk],
            ) by {
                assert(old(self).valid_handle(old(self).order@[kk]));
            }
            assert forall|k1: int, k2: int| 0 <= k1 < k2 < self.window_count() implies
                #[trigger] self.nth_window(k1).surface_id != #[trigger] self.nth_window(
                k2,
            ).surface_id by {
                assert(old(self).valid_handle(old(self).order@[k1]));
                assert(old(self).valid_handle(old(self).order@[k2]));
                assert(self.nth_window(k1).surface_id == old(self).nth_window(k1).surface_id);
                assert(self.nth_window(k2).surface_id == old(self).nth_window(k2).surface_id);
            }
            assert forall|j: int| 0 <= j < self.window_count() implies (
            #[trigger] self.nth_window(j)).pos_x >= 0 && self.nth_window(j).pos_y >= 0 by {
                lemma_band_bounds(j, n as int, wdisp as int);
            }
            assert(self.wf());
            assert forall|j: int| 0 <= j < n implies old(self).spec_band_configure(j)
                == self.spec_band_configure(j) by {
                assert(old(self).valid_handle(old(self).order@[j]));
                assert(self.nth_window(j).surface_id == old(self).nth_window(j).surface_id);
            }
            assert(Seq::new(n as nat, |j: int| old(self).spec_band_configure(j))
                =~= self.spec_band_configures());
        }
    }

    /// The first live window, in creation order, that lies beneath the
    /// point, starting the scan at position `k`.
    pub open spec fn spec_hit_from(self, k: int, x: int, y: int) -> Option<Window>
        recommends
            0 <= k,
        decreases self.window_count() - k,
        when 0 <= k
    {
        if k >= self.window_count() {
            None
        } else if spec_contains(self.nth_window(k), x, y) {
            Some(self.nth_window(k))
        } else {
            self.spec_hit_from(k + 1, x, y)
        }
    }

    /// The live window beneath the point, if any: the first match in
    /// creation order (under the equal-split layout windows do not overlap,
    /// so the first match is the only one).
    pub open spec fn spec_hovered(self, x: int, y: int) -> Option<Window> {
        self.spec_hit_from(0, x, y)
    }

    /// A hit result is one of the live windows and contains the point.
    pub proof fn lemma_hit_from_is_live(self, k: int, x: int, y: int)
        requires
            0 <= k,
            self.spec_hit_from(k, x, y) is Some,
        ensures
            spec_contains(self.spec_hit_from(k, x, y).unwrap(), x, y),
            exists|j: int|
                k <= j < self.window_count() && #[trigger] self.nth_window(j)
                    == self.spec_hit_from(k, x, y).unwrap(),
        decreases self.window_count() - k,
    {
        if k < self.window_count() && spec_contains(self.nth_window(k), x, y) {
            assert(self.nth_window(k) == self.spec_hit_from(k, x, y).unwrap());
        } else {
            self.lemma_hit_from_is_live(k + 1, x, y);
            let j = choose|j: int|
                k + 1 <= j < self.window_count() && #[trigger] self.nth_window(j)
                    == self.spec_hit_from(k + 1, x, y).unwrap();
            assert(self.nth_window(j) == self.spec_hit_from(k, x, y).unwrap());
        }
    }

    /// The window beneath a point sits at a non-negative position and
    /// contains the point.
    pub proof fn lemma_hovered_is_live(self, x: int, y: int)
        requires
            self.wf(),
            self.spec_hovered(x, y) is Some,
        ensures
            spec_contains(self.spec_hovered(x, y).unwrap(), x, y),
            self.spec_hovered(x, y).unwrap().pos_x >= 0,
            self.spec_hovered(x, y).unwrap().pos_y >= 0,
            self.has_surface(self.spec_hovered(x, y).unwrap().surface_id),
    {
        self.lemma_hit_from_is_live(0, x, y);
        let j = choose|j: int|
            0 <= j < self.window_count() && #[trigger] self.nth_window(j) == self.spec_hit_from(
                0,
                x,
                y,
            ).unwrap();
        assert(self.nth_window(j).pos_x >= 0);
        assert(self.nth_window(j).surface_id == self.spec_hovered(x, y).unwrap().surface_id);
    }

    /// Hit-tests the point against every live window.
    pub fn get_hovered_window(&self, cursor_x: u32, cursor_y: u32) -> (r: Option<&Window>)
        requires
            self.wf(),
        ensures
            match r {
                Some(w) => self.spec_hovered(cursor_x as int, cursor_y as int) == Some(*w),
                None => self.spec_hovered(cursor_x as int, cursor_y as int) is None,
            },
    {
        let n = self.order.len();
        let mut k: usize = 0;
        while k < n
            invariant
                self.wf(),
                n == self.order@.len(),
                k <= n,
                self.spec_hovered(cursor_x as int, cursor_y as int) == self.spec_hit_from(
                    k as int,
                    cursor_x as int,
                    cursor_y as int,
                ),
            decreases n - k,
        {
            let h = self.order[k];
            proof {
                assert(self.valid_handle(self.order@[k as int]));
            }
            match &self.slots[h.idx].window {
                Some(w) => {
                    let cx = cursor_x as i64;
                    let cy = cursor_y as i64;
                    if cx >= w.pos_x as i64 && cx < w.pos_x as i64 + w.size_x as i64 && cy
                        >= w.pos_y as i64 && cy < w.pos_y as i64 + w.size_y as i64 {
                        proof {
                            assert(spec_contains(
                                self.nth_window(k as int),
                                cursor_x as int,
                                cursor_y as int,
                            ));
                        }
                        return Some(w);
                    }
                    proof {
                        assert(!spec_contains(
                            self.nth_window(k as int),
                            cursor_x as int,
                            cursor_y as int,
                        ));
                    }
                },
                None => {
                    proof {
                        assert(false);
                    }
                },
            }
            k = k + 1;
        }
        None
    }

    /// Returns (a copy of) the window bound to `surface_id`, creating it
    /// first when the surface is new, exactly as `get_window_handle` does.
    pub fn get_window(&mut self, surface_id: u64) -> (r: Window)
        requires
            old(self).wf(),
        ensures
            final(self).wf(),
            final(self).disp_width == old(self).disp_width,
            final(self).disp_height == old(self).disp_height,
            r.surface_id == surface_id,
            final(self).has_surface(surface_id),
            exists|k: int|
                0 <= k < final(self).window_count() && #[trigger] final(self).nth_window(k) == r,
            old(self).has_surface(surface_id) ==> *final(self) == *old(self),
            !old(self).has_surface(surface_id) ==> final(self).laid_out(),
            forall|h: WindowHandle|
                old(self).valid_handle(h) ==> final(self).valid_handle(h) && final(self).window_at(h).surface_id == old(self).window_at(h).surface_id,
    {
        let h = self.get_window_handle(surface_id);
        proof {
            assert(self.slots@[h.idx as int].window is Some);
            assert(self.wf_complete());
            let k = choose|k: int|
                0 <= k < self.order@.len() && (#[trigger] self.order@[k]).idx == h.idx;
            assert(self.valid_handle(self.order@[k]));
            assert(self.nth_window(k) == self.window_at(h));
        }
        let c = self.slots[h.idx];
        c.window.unwrap()
    }

    /// Removes the window bound to `surface_id`, if one is live: its slot is
    /// vacated with a bumped generation, so every handle to it is dead from
    /// now on, and the remaining windows are laid out again (queueing one
    /// configure event per remaining window). Returns whether a window was
    /// removed. Handles to other surfaces survive unchanged; invalid handles
    /// never come back to life.
    pub fn remove_surface(&mut self, surface_id: u64) -> (r: bool)
        requires
            old(self).wf(),
        ensures
            final(self).wf(),
            final(self).disp_width == old(self).disp_width,
            final(self).disp_height == old(self).disp_height,
            r == old(self).has_surface(surface_id),
            !final(self).has_surface(surface_id),
            !r ==> *final(self) == *old(self),
            r ==> final(self).window_count() == old(self).window_count() - 1,
            r ==> final(self).laid_out(),
            r ==> final(self).pending_configures@ == old(self).pending_configures@ + final(self).spec_band_configures(),
            forall|h: WindowHandle|
                old(self).valid_handle(h) && old(self).window_at(h).surface_id != surface_id
                    ==> final(self).valid_handle(h) && final(self).window_at(h).surface_id == old(
                    self,
                ).window_at(h).surface_id,
            forall|h: WindowHandle|
                old(self).valid_handle(h) && old(self).window_at(h).surface_id == surface_id
                    ==> !final(self).valid_handle(h),
            forall|h: WindowHandle| !old(self).valid_handle(h) ==> !final(self).valid_handle(h),
    {
        let n = self.order.len();
        let mut k: usize = 0;
        while k < n
            invariant
                old(self).wf(),
                *self == *old(self),
                n == self.order@.len(),
                k <= n,
                forall|j: int| 0 <= j < k ==> self.nth_window(j).surface_id != surface_id,
            decreases n - k,
        {
            let h = self.order[k];
            proof {
                assert(self.valid_handle(self.order@[k as int]));
            }
            let hit = match &self.slots[h.idx].window {
                Some(w) => w.surface_id == surface_id,
                None => false,
            };
            if hit {
                self.order.remove(k);
                let c = self.slots[h.idx];
                self.slots[h.idx] = WindowCell {
                    generation: c.generation + 1,
                    window: None,
                };
                proof {
                    lemma_arena_remove(*old(self), *self, k as int, h, surface_id);
                }
                let ghost mid = *self;
                self.reposition_windows();
                proof {
                    lemma_same_windows_preserves(mid, *self);
                    assert forall|h2: WindowHandle|
                        old(self).valid_handle(h2) && old(self).window_at(h2).surface_id
                            != surface_id implies self.valid_handle(h2) && self.window_at(
                        h2,
                    ).surface_id == old(self).window_at(h2).surface_id by {
                        assert(mid.valid_handle(h2));
                        assert(self.slots@[h2.idx as int].generation == mid.slots@[h2.idx
                            as int].generation);
                    }
                    assert(old(self).nth_window(k as int).surface_id == surface_id);
                    assert(old(self).has_surface(surface_id));
                }
                return true;
            }
            k = k + 1;
        }
        proof {
            if old(self).has_surface(surface_id) {
                let j = choose|j: int|
                    0 <= j < old(self).window_count() && old(self).nth_window(j).surface_id
                        == surface_id;
                assert(false);
            }
            assert forall|h: WindowHandle|
                self.valid_handle(h) && self.window_at(h).surface_id
                    == surface_id implies false by {
                assert(self.wf_complete());
                assert(self.slots@[h.idx as int].window is Some);
                let k2 = choose|k2: int|
                    0 <= k2 < self.order@.len() && (#[trigger] self.order@[k2]).idx == h.idx;
                assert(self.nth_window(k2).surface_id == surface_id);
            }
        }
        false
    }
}

} // verus!
