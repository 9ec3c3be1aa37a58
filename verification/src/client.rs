//! The client/session manager's decision core: translation of host input
//! into protocol deliveries, child-process environment assembly, and the
//! bounded retry policy for the listening socket.
//!
//! The protocol server itself (accepting connections, dispatching client
//! messages, delivering the events decided here) is an external
//! collaborator driven by the unverified shell.

use crate::wayvr::{MouseIndex, WayVrError, WaylandEnv};
use crate::window::WindowManager;
use vstd::prelude::*;
use vstd::string::StringExecFns;

verus! {

/// The wire-level button code for each abstract mouse button:
/// `BTN_LEFT` / `BTN_MIDDLE` / `BTN_RIGHT`.
pub open spec fn spec_mouse_code(index: MouseIndex) -> u32 {
    match index {
        MouseIndex::Left => 0x110,
        MouseIndex::Center => 0x112,
        MouseIndex::Right => 0x111,
    }
}

/// Maps the abstract mouse-button enumeration to the fixed wire-level
/// button codes. The mapping is a static table, not configurable.
pub fn get_mouse_index_number(index: MouseIndex) -> (r: u32)
    ensures
        r == spec_mouse_code(index),
{
    match index {
        MouseIndex::Left => 0x110,
        MouseIndex::Center => 0x112,
        MouseIndex::Right => 0x111,
    }
}

/// `a / b` rounded to the nearest integer, half away from zero (`b > 0`).
pub open spec fn round_div(a: int, b: int) -> int
    recommends
        b > 0,
{
    if a >= 0 {
        (2 * a + b) / (2 * b)
    } else {
        -((2 * (-a) + b) / (2 * b))
    }
}

/// The fixed-point high-resolution axis value for a scroll delta given in
/// thousandths of an axis step: `round(delta * -120)`. The sign inversion
/// matches the wire protocol's natural-scrolling axis-direction convention.
pub open spec fn spec_scroll_v120(delta_milli: int) -> int {
    round_div(-120 * delta_milli, 1000)
}

/// Computes the high-resolution axis value `round(delta * -120)` for a
/// scroll delta in thousandths of an axis step.
pub fn scroll_v120(delta_milli: i32) -> (r: i32)
    ensures
        r == spec_scroll_v120(delta_milli as int),
{
    let mag: i64 = if delta_milli >= 0 {
        delta_milli as i64
    } else {
        -(delta_milli as i64)
    };
    let prod: i64 = mag * 120;
    let q: i64 = prod / 1000;
    let rem: i64 = prod % 1000;
    let mag_rounded: i64 = if rem >= 500 {
        q + 1
    } else {
        q
    };
    proof {
        lemma_round_div_nonneg(prod as int, q as int, rem as int);
    }
    let r64: i64 = if delta_milli > 0 {
        -mag_rounded
    } else {
        mag_rounded
    };
    r64 as i32
}

/// For non-negative `p` with truncating quotient `q` and remainder `r` by
/// 1000, rounding half away from zero bumps the quotient exactly when the
/// remainder reaches 500.
proof fn lemma_round_div_nonneg(p: int, q: int, r: int)
    requires
        0 <= p,
        q == p / 1000,
        r == p % 1000,
    ensures
        (if r >= 500 {
            q + 1
        } else {
            q
        }) == (2 * p + 1000) / 2000,
        0 <= q <= p,
{
    vstd::arithmetic::div_mod::lemma_fundamental_div_mod(p, 1000);
    assert(p == 1000 * q + r);
    assert(0 <= r < 1000);
    vstd::arithmetic::div_mod::lemma_div_pos_is_pos(p, 1000);
    if r >= 500 {
        assert(2 * p + 1000 == 2000 * (q + 1) + (2 * r - 1000));
        vstd::arithmetic::div_mod::lemma_div_multiples_vanish_fancy(q + 1, 2 * r - 1000, 2000);
    } else {
        assert(2 * p + 1000 == 2000 * q + (2 * r + 1000));
        vstd::arithmetic::div_mod::lemma_div_multiples_vanish_fancy(q, 2 * r + 1000, 2000);
    }
    vstd::arithmetic::div_mod::lemma_div_is_ordered_by_denominator(p, 1, 1000);
    vstd::arithmetic::div_mod::lemma_div_basics_1(p);
}

/// A pointer-motion delivery: the surface under the pointer and the
/// pointer's position translated into that window's local coordinates.
#[derive(Clone, Copy, PartialEq, Eq, Structural, Debug)]
pub struct MotionDelivery {
    pub surface_id: u64,
    pub local_x: u32,
    pub local_y: u32,
}

/// A button delivery: the wire-level button code, the surface the event
/// goes to (the current pointer focus, if any), and the surface that newly
/// received keyboard focus, if the press transferred it.
#[derive(Clone, Copy, Debug)]
pub struct ButtonDelivery {
    pub button: u32,
    pub target: Option<u64>,
    pub focus_change: Option<u64>,
}

/// An axis delivery: the surface it goes to, the sign-inverted continuous
/// delta in thousandths of an axis step, and the fixed-point
/// high-resolution value.
#[derive(Clone, Copy, Debug)]
pub struct AxisDelivery {
    pub target: Option<u64>,
    pub axis_milli: i32,
    pub v120: i32,
}

/// The synthetic seat: the last known pointer location and the two focus
/// targets, each a surface identity.
#[derive(Clone, Copy, Debug)]
pub struct InputState {
    pub pointer_x: u32,
    pub pointer_y: u32,
    pub pointer_focus: Option<u64>,
    pub keyboard_focus: Option<u64>,
}

impl InputState {
    /// A fresh seat: pointer at the origin, nothing focused.
    pub fn new() -> (r: InputState)
        ensures
            r.pointer_x == 0,
            r.pointer_y == 0,
            r.pointer_focus is None,
            r.keyboard_focus is None,
    {
        InputState { pointer_x: 0, pointer_y: 0, pointer_focus: None, keyboard_focus: None }
    }

    /// Pointer motion: hit-test the point against the live windows; on a
    /// hit, pointer focus follows the hit surface and a motion event in
    /// window-local coordinates is delivered to it; with no window under
    /// the pointer nothing changes and nothing is delivered.
    pub fn on_mouse_move(&mut self, wm: &WindowManager, x: u32, y: u32) -> (r: Option<
        MotionDelivery,
    >)
        requires
            wm.wf(),
        ensures
            match wm.spec_hovered(x as int, y as int) {
                Some(w) => {
                    &&& r == Some(
                        MotionDelivery {
                            surface_id: w.surface_id,
                            local_x: (x - w.pos_x) as u32,
                            local_y: (y - w.pos_y) as u32,
                        },
                    )
                    &&& *final(self) == (InputState {
                        pointer_x: x,
                        pointer_y: y,
                        pointer_focus: Some(w.surface_id),
                        ..*old(self)
                    })
                },
                None => r is None && *final(self) == *old(self),
            },
    {
        match wm.get_hovered_window(x, y) {
            Some(w) => {
                proof {
                    wm.lemma_hovered_is_live(x as int, y as int);
                }
                let local_x = x - (w.pos_x as u32);
                let local_y = y - (w.pos_y as u32);
                self.pointer_x = x;
                self.pointer_y = y;
                self.pointer_focus = Some(w.surface_id);
                Some(MotionDelivery { surface_id: w.surface_id, local_x, local_y })
            },
            None => None,
        }
    }

    /// Pointer button press: re-hit-test at the last known pointer
    /// location; when a window is hit and no surface currently holds
    /// keyboard focus, keyboard focus moves to that window's surface. The
    /// press itself goes to the current pointer focus regardless of the
    /// hit-test outcome (pointer-grab semantics).
    pub fn on_mouse_down(&mut self, wm: &WindowManager, index: MouseIndex) -> (r: ButtonDelivery)
        requires
            wm.wf(),
        ensures
            r.button == spec_mouse_code(index),
            r.target == old(self).pointer_focus,
            final(self).pointer_x == old(self).pointer_x,
            final(self).pointer_y == old(self).pointer_y,
            final(self).pointer_focus == old(self).pointer_focus,
            match wm.spec_hovered(old(self).pointer_x as int, old(self).pointer_y as int) {
                Some(w) => {
                    &&& (old(self).keyboard_focus is None ==> final(self).keyboard_focus == Some(
                        w.surface_id,
                    ) && r.focus_change == Some(w.surface_id))
                    &&& (old(self).keyboard_focus is Some ==> final(self).keyboard_focus == old(
                        self,
                    ).keyboard_focus && r.focus_change is None)
                },
                None => final(self).keyboard_focus == old(self).keyboard_focus
                    && r.focus_change is None,
            },
    {
        let mut focus_change: Option<u64> = None;
        match wm.get_hovered_window(self.pointer_x, self.pointer_y) {
            Some(w) => {
                if self.keyboard_focus.is_none() {
                    self.keyboard_focus = Some(w.surface_id);
                    focus_change = Some(w.surface_id);
                }
            },
            None => {},
        }
        ButtonDelivery {
            button: get_mouse_index_number(index),
            target: self.pointer_focus,
            focus_change,
        }
    }

    /// Pointer button release: delivered to the current pointer focus; no
    /// focus changes.
    pub fn on_mouse_up(&self, index: MouseIndex) -> (r: ButtonDelivery)
        ensures
            r.button == spec_mouse_code(index),
            r.target == self.pointer_focus,
            r.focus_change is None,
    {
        ButtonDelivery {
            button: get_mouse_index_number(index),
            target: self.pointer_focus,
            focus_change: None,
        }
    }

    /// Scroll: an axis event to the current pointer focus carrying the
    /// sign-inverted continuous delta and the high-resolution value
    /// `round(delta * -120)`. The delta is given in thousandths of an axis
    /// step.
    pub fn on_mouse_scroll(&self, delta_milli: i32) -> (r: AxisDelivery)
        requires
            delta_milli > i32::MIN,
        ensures
            r.target == self.pointer_focus,
            r.axis_milli == -delta_milli,
            r.v120 == spec_scroll_v120(delta_milli as int),
    {
        AxisDelivery {
            target: self.pointer_focus,
            axis_milli: -delta_milli,
            v120: scroll_v120(delta_milli),
        }
    }
}

/// One mutation of a child process's launch environment.
pub enum EnvOp {
    Assign(String, String),
    Remove(String),
}

/// The environment map after applying `ops`, in order, to `base`; a later
/// operation on a variable wins over an earlier one.
pub open spec fn apply_env_ops(
    base: Map<Seq<char>, Seq<char>>,
    ops: Seq<EnvOp>,
) -> Map<Seq<char>, Seq<char>>
    decreases ops.len(),
{
    if ops.len() == 0 {
        base
    } else {
        let m = apply_env_ops(base, ops.drop_last());
        match ops.last() {
            EnvOp::Assign(k, v) => m.insert(k@, v@),
            EnvOp::Remove(k) => m.remove(k@),
        }
    }
}

/// Builds the launch-environment mutations for one spawned client: the
/// caller's overrides first, then the forced removal of the legacy display
/// variable and the binding of the protocol display variable to the
/// compositor's own endpoint — so the two defaults can never be overridden
/// back by the caller.
pub fn build_child_env(endpoint: &String, env: &Vec<(String, String)>) -> (r: Vec<EnvOp>)
    ensures
        r@.len() == env@.len() + 2,
        forall|i: int|
            0 <= i < env@.len() ==> (#[trigger] r@[i] matches EnvOp::Assign(k, v) && k
                == env@[i].0 && v == env@[i].1),
        r@[env@.len() as int] matches EnvOp::Remove(k) && k@ == "DISPLAY"@,
        r@[env@.len() as int + 1] matches EnvOp::Assign(k, v) && k@ == "WAYLAND_DISPLAY"@ && v@
            == endpoint@,
{
    let mut r: Vec<EnvOp> = Vec::new();
    let n = env.len();
    let mut i: usize = 0;
    while i < n
        invariant
            n == env@.len(),
            i <= n,
            r@.len() == i,
            forall|j: int|
                0 <= j < i ==> (#[trigger] r@[j] matches EnvOp::Assign(k, v) && k == env@[j].0
                    && v == env@[j].1),
        decreases n - i,
    {
        let e = &env[i];
        r.push(EnvOp::Assign(e.0.clone(), e.1.clone()));
        i = i + 1;
    }
    r.push(EnvOp::Remove(String::from_str("DISPLAY")));
    r.push(EnvOp::Assign(String::from_str("WAYLAND_DISPLAY"), endpoint.clone()));
    r
}

/// Environment override invariant: whatever the parent environment and
/// whatever the caller passed as overrides, an environment built by
/// `build_child_env` leaves the child with the protocol display variable
/// bound to the compositor's own endpoint and with no legacy display
/// variable.
pub proof fn lemma_env_override_invariant(
    base: Map<Seq<char>, Seq<char>>,
    ops: Seq<EnvOp>,
    endpoint: Seq<char>,
)
    requires
        ops.len() >= 2,
        ops[ops.len() - 2] matches EnvOp::Remove(k) && k@ == "DISPLAY"@,
        ops.last() matches EnvOp::Assign(k, v) && k@ == "WAYLAND_DISPLAY"@ && v@ == endpoint,
    ensures
        apply_env_ops(base, ops).contains_key("WAYLAND_DISPLAY"@),
        apply_env_ops(base, ops)["WAYLAND_DISPLAY"@] == endpoint,
        !apply_env_ops(base, ops).contains_key("DISPLAY"@),
{
    reveal_strlit("WAYLAND_DISPLAY");
    reveal_strlit("DISPLAY");
    assert("WAYLAND_DISPLAY"@.len() == 15);
    assert("DISPLAY"@.len() == 7);
    assert("WAYLAND_DISPLAY"@ != "DISPLAY"@);
    let shorter = ops.drop_last();
    assert(shorter.last() == ops[ops.len() - 2]);
    let m2 = apply_env_ops(base, shorter.drop_last());
    let m1 = apply_env_ops(base, shorter);
    let m0 = apply_env_ops(base, ops);
    match ops[ops.len() - 2] {
        EnvOp::Remove(k) => {
            assert(m1 == m2.remove(k@));
            assert(!m1.contains_key("DISPLAY"@));
        },
        EnvOp::Assign(k, v) => {
            assert(false);
        },
    }
    match ops.last() {
        EnvOp::Assign(k, v) => {
            assert(m0 == m1.insert(k@, v@));
        },
        EnvOp::Remove(k) => {
            assert(false);
        },
    }
}

/// The error message surfaced when a client program could not be launched:
/// it names the executable path and the underlying error, and tells the
/// caller to verify the path.
pub fn spawn_failure_message(exec_path: &str, os_error: &str) -> (r: String)
    ensures
        r@ == "Failed to launch process with path \""@ + exec_path@ + "\": "@ + os_error@
            + ". Make sure your exec path exists."@,
{
    let mut s = String::from_str("Failed to launch process with path \"");
    s.append(exec_path);
    s.append("\": ");
    s.append(os_error);
    s.append(". Make sure your exec path exists.");
    proof {
        assert(s@ =~= "Failed to launch process with path \""@ + exec_path@ + "\": "@
            + os_error@ + ". Make sure your exec path exists."@);
    }
    s
}

/// The first candidate display number probed for the listening socket.
pub const STARTING_WAYLAND_ADDR_IDX: u32 = 20;

/// How many candidate display numbers the bounded retry probes before
/// giving up.
pub const WAYLAND_ADDR_ATTEMPTS: u32 = 21;

/// The display number the bounded retry policy settles on, given which of
/// the candidate binds would succeed, scanning from candidate `k` on: the
/// first success wins; past the last candidate the policy has given up.
pub open spec fn spec_probe_from(outcomes: Seq<bool>, k: int) -> Option<u32>
    decreases WAYLAND_ADDR_ATTEMPTS - k,
    when 0 <= k
{
    if k >= WAYLAND_ADDR_ATTEMPTS || k >= outcomes.len() {
        None
    } else if outcomes[k] {
        Some((STARTING_WAYLAND_ADDR_IDX + k) as u32)
    } else {
        spec_probe_from(outcomes, k + 1)
    }
}

/// The display number the bounded retry policy settles on, given which of
/// the candidate binds would succeed.
pub open spec fn spec_probe_result(outcomes: Seq<bool>) -> Option<u32> {
    spec_probe_from(outcomes, 0)
}

/// Socket retry bound, success half: when the first `k` candidate
/// addresses fail and the `k+1`-th binds, the policy settles on the
/// `k+1`-th address.
pub proof fn lemma_socket_retry_bound(outcomes: Seq<bool>, k: int)
    requires
        outcomes.len() == WAYLAND_ADDR_ATTEMPTS,
        0 <= k < WAYLAND_ADDR_ATTEMPTS,
        forall|j: int| 0 <= j < k ==> !outcomes[j],
        outcomes[k],
    ensures
        spec_probe_result(outcomes) == Some((STARTING_WAYLAND_ADDR_IDX + k) as u32),
{
    lemma_probe_skips_failures(outcomes, 0, k);
}

/// Socket retry bound, exhaustion half: when every candidate bind fails,
/// the policy gives up.
pub proof fn lemma_socket_retry_exhausted(outcomes: Seq<bool>)
    requires
        outcomes.len() == WAYLAND_ADDR_ATTEMPTS,
        forall|j: int| 0 <= j < WAYLAND_ADDR_ATTEMPTS ==> !outcomes[j],
    ensures
        spec_probe_result(outcomes) is None,
{
    lemma_probe_all_fail(outcomes, 0);
}

/// Scanning from `i` over failing candidates reaches the first success `k`.
proof fn lemma_probe_skips_failures(outcomes: Seq<bool>, i: int, k: int)
    requires
        outcomes.len() == WAYLAND_ADDR_ATTEMPTS,
        0 <= i <= k < WAYLAND_ADDR_ATTEMPTS,
        forall|j: int| i <= j < k ==> !outcomes[j],
        outcomes[k],
    ensures
        spec_probe_from(outcomes, i) == Some((STARTING_WAYLAND_ADDR_IDX + k) as u32),
    decreases k - i,
{
    if i < k {
        lemma_probe_skips_failures(outcomes, i + 1, k);
    }
}

/// Scanning from `i` over failing candidates alone ends with no address.
proof fn lemma_probe_all_fail(outcomes: Seq<bool>, i: int)
    requires
        outcomes.len() == WAYLAND_ADDR_ATTEMPTS,
        0 <= i <= WAYLAND_ADDR_ATTEMPTS,
        forall|j: int| i <= j < WAYLAND_ADDR_ATTEMPTS ==> !outcomes[j],
    ensures
        spec_probe_from(outcomes, i) is None,
    decreases WAYLAND_ADDR_ATTEMPTS - i,
{
    if i < WAYLAND_ADDR_ATTEMPTS {
        lemma_probe_all_fail(outcomes, i + 1);
    }
}

/// The retry decision on recorded candidate bind outcomes: the display
/// number of the first successful candidate, or nothing when all the
/// candidates tried have failed.
pub fn first_bind_success(outcomes: &Vec<bool>) -> (r: Option<u32>)
    ensures
        r == spec_probe_result(outcomes@),
{
    let bound = if outcomes.len() < 21 {
        outcomes.len()
    } else {
        21
    };
    let mut k: usize = 0;
    while k < bound
        invariant
            bound <= outcomes@.len(),
            bound <= 21,
            bound == 21 || bound == outcomes@.len(),
            k <= bound,
            spec_probe_result(outcomes@) == spec_probe_from(outcomes@, k as int),
        decreases bound - k,
    {
        if outcomes[k] {
            return Some(STARTING_WAYLAND_ADDR_IDX + k as u32);
        }
        k = k + 1;
    }
    None
}

#[verifier::external_type_specification]
#[verifier::external_body]
pub struct ExListeningSocket(wayland_server::ListeningSocket);

/// Relies on wayland_server::ListeningSocket::bind: attempts to bind a
/// listening socket with the given name in the host's runtime directory.
/// Whether the bind succeeds depends on the host environment (which
/// addresses are already taken, whether a runtime directory is set), so
/// nothing is promised of the outcome.
#[verifier::external_body]
fn try_bind_socket(name: &String) -> (r: Option<wayland_server::ListeningSocket>) {
    wayland_server::ListeningSocket::bind(name.as_str()).ok()
}

/// Binds the compositor's listening socket: the candidate endpoints
/// `wayland-20` through `wayland-40` are probed in order and the first
/// successful bind wins; when all of them fail, construction fails with
/// the socket-exhaustion error.
pub fn create_wayland_listener() -> (r: Result<
    (WaylandEnv, wayland_server::ListeningSocket),
    WayVrError,
>)
    ensures
        r matches Ok(p) ==> STARTING_WAYLAND_ADDR_IDX <= p.0.display_num
            < STARTING_WAYLAND_ADDR_IDX + WAYLAND_ADDR_ATTEMPTS,
        r matches Err(e) ==> e is SocketExhausted,
{
    let mut num: u32 = STARTING_WAYLAND_ADDR_IDX;
    while num < STARTING_WAYLAND_ADDR_IDX + WAYLAND_ADDR_ATTEMPTS
        invariant
            STARTING_WAYLAND_ADDR_IDX <= num <= STARTING_WAYLAND_ADDR_IDX
                + WAYLAND_ADDR_ATTEMPTS,
        decreases STARTING_WAYLAND_ADDR_IDX + WAYLAND_ADDR_ATTEMPTS - num,
    {
        let env = WaylandEnv { display_num: num };
        let name = env.display_num_string();
        match try_bind_socket(&name) {
            Some(listener) => {
                return Ok((env, listener));
            },
            None => {
                num = num + 1;
            },
        }
    }
    Err(WayVrError::SocketExhausted)
}

} // verus!
