//! The effect engine: one tick computes every LED's color from the elapsed
//! time, the geometry and the active effect.
//!
//! Sweep depths and plane positions are carried in billionths of a unit so
//! that projections onto a direction scaled by thousandths stay in integer
//! arithmetic: a coordinate tick (thousandth of a unit) is one million depth
//! ticks, and the plane advances one million depth ticks per millisecond.

use crate::color::{black, hue_to_rgb, spec_hue_color, Rgb};
use crate::geometry::{Vec3, MAX_COORD};
use crate::rng::random_in;
use crate::state::{led_wf, AppState, Effect, Led, DEPTH_CAP, MAX_LEDS};
use crate::trig::{cos_milli, sin_milli};
use vstd::arithmetic::div_mod::{
    lemma_div_is_ordered, lemma_div_multiples_vanish, lemma_div_pos_is_pos,
    lemma_fundamental_div_mod, lemma_fundamental_div_mod_converse, lemma_hoist_over_denominator,
    lemma_mod_bound,
};
use vstd::arithmetic::mul::lemma_mul_is_commutative;
use vstd::math::{max, min};
use vstd::prelude::*;

verus! {

/// Half-width of the lit band around the sweeping plane: a tenth of a unit,
/// in depth ticks (billionths of a unit).
pub const BAND_DEPTH: i64 = 100_000_000;

/// Sweep speed: a thousandth of a unit per millisecond, in depth ticks.
pub const DEPTH_PER_MS: i64 = 1_000_000;

/// Depth ticks per coordinate tick.
pub const COORD_TO_DEPTH: i64 = 1_000_000;

/// Elapsed times beyond this are treated as this; the capped plane position
/// still lies beyond every possible depth plus band.
pub const ELAPSED_CAP_MS: u64 = 10_000_000;

/// Plane position at the elapsed-time cap.
pub const PLANE_CAP: i64 = 10_000_000_000_000;

/// Largest magnitude of a projection onto a unit direction, in depth ticks.
pub const PROJ_CAP: i64 = 3_000_000_000_000;

/// Radius cap of the concentric effect, in coordinate ticks: farther than
/// any in-range point can lie from the center.
pub const RADIUS_CAP: i64 = 4_000_000;

/// The view of an `i64` sequence as a sequence of integers.
pub open spec fn to_ints(s: Seq<i64>) -> Seq<int> {
    s.map_values(|v: i64| v as int)
}

/// Smallest element of `s` (zero for an empty sequence).
pub open spec fn seq_min(s: Seq<int>) -> int
    decreases s.len(),
{
    if s.len() == 0 {
        0
    } else if s.len() == 1 {
        s[0]
    } else {
        min(seq_min(s.drop_last()), s[s.len() - 1])
    }
}

/// Largest element of `s` (zero for an empty sequence).
pub open spec fn seq_max(s: Seq<int>) -> int
    decreases s.len(),
{
    if s.len() == 0 {
        0
    } else if s.len() == 1 {
        s[0]
    } else {
        max(seq_max(s.drop_last()), s[s.len() - 1])
    }
}

/// The smallest element is a lower bound and is attained.
pub proof fn lemma_seq_min_props(s: Seq<int>)
    requires
        s.len() > 0,
    ensures
        forall|i: int| 0 <= i < s.len() ==> seq_min(s) <= #[trigger] s[i],
        exists|i: int| 0 <= i < s.len() && #[trigger] s[i] == seq_min(s),
    decreases s.len(),
{
    if s.len() == 1 {
        assert(s[0] == seq_min(s));
    } else {
        let t = s.drop_last();
        lemma_seq_min_props(t);
        assert(forall|i: int| 0 <= i < t.len() ==> t[i] == s[i]);
        if seq_min(s) == s[s.len() - 1] {
            assert(s[s.len() - 1] == seq_min(s));
        } else {
            let ghost j = choose|i: int| 0 <= i < t.len() && #[trigger] t[i] == seq_min(t);
            assert(s[j] == seq_min(s));
        }
    }
}

/// Raw sweep depth of one LED for an axis-fixed sweep, in depth ticks.
pub open spec fn axis_depth(l: Led, e: Effect) -> int {
    match e {
        Effect::SweepingPlaneX => l.actual_position.x * COORD_TO_DEPTH,
        Effect::SweepingPlaneY => l.actual_position.y * COORD_TO_DEPTH,
        Effect::SweepingPlaneZ => l.actual_position.z * COORD_TO_DEPTH,
        _ => 0,
    }
}

/// Raw axis depths of all LEDs.
pub open spec fn axis_seq(leds: Seq<Led>, e: Effect) -> Seq<int> {
    Seq::new(leds.len(), |i: int| axis_depth(leds[i], e))
}

/// Axis depths shifted so the smallest is exactly zero: the scratch cache an
/// axis-fixed sweep re-seeds.
pub open spec fn spec_axis_depths(leds: Seq<Led>, e: Effect) -> Seq<i64> {
    Seq::new(leds.len(), |i: int| (axis_depth(leds[i], e) - seq_min(axis_seq(leds, e))) as i64)
}

/// Plane position after `elapsed_ms` milliseconds, in depth ticks, capped.
pub open spec fn spec_plane_depth(elapsed_ms: int) -> int {
    if elapsed_ms >= ELAPSED_CAP_MS {
        PLANE_CAP as int
    } else {
        elapsed_ms * DEPTH_PER_MS
    }
}

/// A depth lies in the open band of one band half-width around the plane.
pub open spec fn band_lit(depth: int, plane: int) -> bool {
    depth - BAND_DEPTH < plane && plane < depth + BAND_DEPTH
}

/// A usable sweep scratch cache: one depth per LED, all in range, and the
/// smallest exactly zero.
pub open spec fn valid_depths(n: int, d: Seq<i64>) -> bool {
    &&& d.len() == n
    &&& forall|i: int| 0 <= i < n ==> 0 <= #[trigger] d[i] <= DEPTH_CAP
    &&& n > 0 ==> exists|i: int| 0 <= i < n && #[trigger] d[i] == 0
}

/// The scratch cache disagrees with the LED count and must be re-seeded.
pub open spec fn stale(pre: AppState) -> bool {
    pre.sweeping_plane_z@.len() != pre.leds@.len()
}

/// Paint every LED by the band rule: an enabled LED inside the band gets
/// `color`, every other LED black.
fn paint_band(leds: &mut Vec<Led>, depths: &Vec<i64>, plane: i64, color: Rgb)
    requires
        depths@.len() == old(leds)@.len(),
        forall|k: int| 0 <= k < depths@.len() ==> 0 <= #[trigger] depths@[k] <= DEPTH_CAP,
    ensures
        final(leds)@.len() == old(leds)@.len(),
        forall|i: int|
            0 <= i < old(leds)@.len() ==> #[trigger] final(leds)@[i] == (Led {
                color: if old(leds)@[i].enabled && band_lit(depths@[i] as int, plane as int) {
                    color
                } else {
                    black()
                },
                ..old(leds)@[i]
            }),
{
    let n = leds.len();
    let mut i: usize = 0;
    while i < n
        invariant
            i <= n,
            n == leds@.len(),
            depths@.len() == n,
            forall|k: int| 0 <= k < n ==> 0 <= #[trigger] depths@[k] <= DEPTH_CAP,
            forall|j: int| i <= j < n ==> #[trigger] leds@[j] == old(leds)@[j],
            forall|j: int|
                0 <= j < i ==> #[trigger] leds@[j] == (Led {
                    color: if old(leds)@[j].enabled && band_lit(depths@[j] as int, plane as int) {
                        color
                    } else {
                        black()
                    },
                    ..old(leds)@[j]
                }),
        decreases n - i,
    {
        let d = depths[i];
        if leds[i].enabled && d - BAND_DEPTH < plane && plane < d + BAND_DEPTH {
            leds[i].color = color;
        } else {
            leds[i].color = Rgb { r: 0, g: 0, b: 0 };
        }
        i = i + 1;
    }
}

/// Shift raw depths so the smallest becomes exactly zero.
fn shift_to_zero(vals: &Vec<i64>) -> (depths: Vec<i64>)
    requires
        vals@.len() > 0,
        forall|k: int| 0 <= k < vals@.len() ==> -PROJ_CAP <= #[trigger] vals@[k] <= PROJ_CAP,
    ensures
        depths@.len() == vals@.len(),
        forall|k: int|
            0 <= k < vals@.len() ==> #[trigger] depths@[k] == vals@[k] - seq_min(to_ints(vals@)),
        valid_depths(vals@.len() as int, depths@),
{
    let ghost s = to_ints(vals@);
    let n = vals.len();
    let mut m: i64 = vals[0];
    let mut i: usize = 1;
    proof {
        assert(s.take(1).len() == 1);
        assert(s.take(1)[0] == s[0]);
        assert(m == seq_min(s.take(1)));
    }
    while i < n
        invariant
            1 <= i <= n,
            n == vals@.len(),
            s == to_ints(vals@),
            forall|k: int| 0 <= k < n ==> -PROJ_CAP <= #[trigger] vals@[k] <= PROJ_CAP,
            -PROJ_CAP <= m <= PROJ_CAP,
            m == seq_min(s.take(i as int)),
        decreases n - i,
    {
        proof {
            assert(s.take(i + 1).drop_last() =~= s.take(i as int));
            assert(s.take(i + 1)[i as int] == s[i as int]);
        }
        if vals[i] < m {
            m = vals[i];
        }
        i = i + 1;
    }
    proof {
        assert(s.take(n as int) =~= s);
        lemma_seq_min_props(s);
    }
    let mut depths: Vec<i64> = Vec::new();
    let mut i: usize = 0;
    while i < n
        invariant
            i <= n,
            n == vals@.len(),
            s == to_ints(vals@),
            forall|k: int| 0 <= k < n ==> -PROJ_CAP <= #[trigger] vals@[k] <= PROJ_CAP,
            -PROJ_CAP <= m <= PROJ_CAP,
            m == seq_min(s),
            forall|k: int| 0 <= k < n ==> m <= #[trigger] s[k],
            depths@.len() == i,
            forall|k: int| 0 <= k < i ==> #[trigger] depths@[k] == vals@[k] - m,
            forall|k: int| 0 <= k < i ==> 0 <= #[trigger] depths@[k] <= DEPTH_CAP,
        decreases n - i,
    {
        assert(s[i as int] == vals@[i as int]);
        depths.push(vals[i] - m);
        i = i + 1;
    }
    proof {
        let ghost j = choose|k: int| 0 <= k < s.len() && #[trigger] s[k] == seq_min(s);
        assert(depths@[j] == 0);
    }
    depths
}

/// Largest element of a non-empty depth vector.
fn max_in(v: &Vec<i64>) -> (m: i64)
    requires
        v@.len() > 0,
    ensures
        m == seq_max(to_ints(v@)),
{
    let ghost s = to_ints(v@);
    let n = v.len();
    let mut m: i64 = v[0];
    let mut i: usize = 1;
    proof {
        assert(s.take(1).len() == 1);
        assert(s.take(1)[0] == s[0]);
        assert(m == seq_max(s.take(1)));
    }
    while i < n
        invariant
            1 <= i <= n,
            n == v@.len(),
            s == to_ints(v@),
            m == seq_max(s.take(i as int)),
        decreases n - i,
    {
        proof {
            assert(s.take(i + 1).drop_last() =~= s.take(i as int));
            assert(s.take(i + 1)[i as int] == s[i as int]);
        }
        if v[i] > m {
            m = v[i];
        }
        i = i + 1;
    }
    proof {
        assert(s.take(n as int) =~= s);
    }
    m
}

/// A tick keeps LED identity: count, mask bits and both placements.
pub open spec fn led_frame(pre: Seq<Led>, post: Seq<Led>) -> bool {
    &&& post.len() == pre.len()
    &&& forall|i: int|
        0 <= i < pre.len() ==> ((#[trigger] post[i]).enabled == pre[i].enabled
            && post[i].determined_position == pre[i].determined_position
            && post[i].actual_position == pre[i].actual_position)
}

/// A tick keeps LED identity, the base color and the effect selector.
pub open spec fn frame_keeps(pre: AppState, post: AppState) -> bool {
    &&& led_frame(pre.leds@, post.leds@)
    &&& post.base_color == pre.base_color
    &&& post.effect == pre.effect
}

/// A tick keeps the timer and every scratch field.
pub open spec fn scratch_keeps(pre: AppState, post: AppState) -> bool {
    &&& post.effect_start_ms == pre.effect_start_ms
    &&& post.sweeping_plane_z@ == pre.sweeping_plane_z@
    &&& post.sweeping_plane_hue == pre.sweeping_plane_hue
    &&& post.concentric_color_hue == pre.concentric_color_hue
}

/// With no effect active a tick changes nothing.
pub open spec fn none_post(pre: AppState, post: AppState) -> bool {
    &&& post.leds@ == pre.leds@
    &&& post.base_color == pre.base_color
    &&& post.effect == pre.effect
    &&& scratch_keeps(pre, post)
}

/// The blink switch: on during even elapsed seconds.
pub open spec fn spec_blink_on(elapsed_ms: int) -> bool {
    (elapsed_ms / 1000) % 2 == 0
}

/// One blink tick: every enabled LED shows the base color on even elapsed
/// seconds and black on odd ones; disabled LEDs are not touched.
pub open spec fn blink_post(pre: AppState, post: AppState, now: int) -> bool {
    &&& frame_keeps(pre, post)
    &&& scratch_keeps(pre, post)
    &&& forall|i: int|
        0 <= i < pre.leds@.len() ==> (#[trigger] post.leds@[i]).color == (if pre.leds@[i].enabled {
            if spec_blink_on(now - pre.effect_start_ms) {
                pre.base_color
            } else {
                black()
            }
        } else {
            pre.leds@[i].color
        })
}

/// One all-on tick: every enabled LED takes the base color; disabled LEDs
/// keep their prior color.
pub open spec fn allon_post(pre: AppState, post: AppState) -> bool {
    &&& frame_keeps(pre, post)
    &&& scratch_keeps(pre, post)
    &&& forall|i: int|
        0 <= i < pre.leds@.len() ==> (#[trigger] post.leds@[i]).color == (if pre.leds@[i].enabled {
            pre.base_color
        } else {
            pre.leds@[i].color
        })
}

/// Blink: toggle every enabled LED between the base color and black once
/// per elapsed second.
fn blink(state: &mut AppState, now_ms: u64)
    requires
        old(state).wf(),
        old(state).effect_start_ms <= now_ms,
    ensures
        final(state).wf(),
        final(state).ticks == old(state).ticks,
        blink_post(*old(state), *final(state), now_ms as int),
{
    let elapsed = now_ms - state.effect_start_ms;
    let on = (elapsed / 1000) % 2 == 0;
    let base = state.base_color;
    let n = state.leds.len();
    let mut i: usize = 0;
    while i < n
        invariant
            old(state).wf(),
            i <= n,
            n == state.leds@.len(),
            on == spec_blink_on(now_ms - old(state).effect_start_ms),
            base == old(state).base_color,
            state.base_color == old(state).base_color,
            state.effect == old(state).effect,
            state.ticks == old(state).ticks,
            scratch_keeps(*old(state), *state),
            forall|j: int| i <= j < n ==> #[trigger] state.leds@[j] == old(state).leds@[j],
            forall|j: int|
                0 <= j < i ==> #[trigger] state.leds@[j] == (Led {
                    color: if old(state).leds@[j].enabled {
                        if spec_blink_on(now_ms - old(state).effect_start_ms) {
                            old(state).base_color
                        } else {
                            black()
                        }
                    } else {
                        old(state).leds@[j].color
                    },
                    ..old(state).leds@[j]
                }),
        decreases n - i,
    {
        if state.leds[i].enabled {
            if on {
                state.leds[i].color = base;
            } else {
                state.leds[i].color = Rgb { r: 0, g: 0, b: 0 };
            }
        }
        i = i + 1;
    }
}

/// All on: give every enabled LED the base color.
fn all_on(state: &mut AppState)
    requires
        old(state).wf(),
    ensures
        final(state).wf(),
        final(state).ticks == old(state).ticks,
        allon_post(*old(state), *final(state)),
{
    let base = state.base_color;
    let n = state.leds.len();
    let mut i: usize = 0;
    while i < n
        invariant
            old(state).wf(),
            i <= n,
            n == state.leds@.len(),
            base == old(state).base_color,
            state.base_color == old(state).base_color,
            state.effect == old(state).effect,
            state.ticks == old(state).ticks,
            scratch_keeps(*old(state), *state),
            forall|j: int| i <= j < n ==> #[trigger] state.leds@[j] == old(state).leds@[j],
            forall|j: int|
                0 <= j < i ==> #[trigger] state.leds@[j] == (Led {
                    color: if old(state).leds@[j].enabled {
                        old(state).base_color
                    } else {
                        old(state).leds@[j].color
                    },
                    ..old(state).leds@[j]
                }),
        decreases n - i,
    {
        if state.leds[i].enabled {
            state.leds[i].color = base;
        }
        i = i + 1;
    }
}

/// Re-seed an axis-fixed sweep: depths from the fixed coordinate, shifted so
/// the smallest is zero, and the timer reset.
fn reseed_axis(state: &mut AppState, now_ms: u64)
    requires
        old(state).wf(),
        old(state).effect is SweepingPlaneX || old(state).effect is SweepingPlaneY || old(
            state,
        ).effect is SweepingPlaneZ,
    ensures
        final(state).wf(),
        final(state).leds@ == old(state).leds@,
        final(state).base_color == old(state).base_color,
        final(state).effect == old(state).effect,
        final(state).sweeping_plane_hue == old(state).sweeping_plane_hue,
        final(state).concentric_color_hue == old(state).concentric_color_hue,
        final(state).ticks == old(state).ticks,
        final(state).effect_start_ms == now_ms,
        final(state).sweeping_plane_z@ == spec_axis_depths(old(state).leds@, old(state).effect),
        valid_depths(old(state).leds@.len() as int, final(state).sweeping_plane_z@),
{
    state.effect_start_ms = now_ms;
    let n = state.leds.len();
    if n == 0 {
        state.sweeping_plane_z = Vec::new();
        proof {
            assert(state.sweeping_plane_z@ =~= spec_axis_depths(state.leds@, state.effect));
        }
        return;
    }
    let mut vals: Vec<i64> = Vec::new();
    let mut i: usize = 0;
    while i < n
        invariant
            old(state).wf(),
            *state == (AppState { effect_start_ms: now_ms, ..*old(state) }),
            old(state).effect is SweepingPlaneX || old(state).effect is SweepingPlaneY || old(
                state,
            ).effect is SweepingPlaneZ,
            i <= n,
            n == state.leds@.len(),
            vals@.len() == i,
            forall|k: int|
                0 <= k < i ==> #[trigger] vals@[k] == axis_depth(state.leds@[k], state.effect),
            forall|k: int| 0 <= k < i ==> -PROJ_CAP <= #[trigger] vals@[k] <= PROJ_CAP,
        decreases n - i,
    {
        let p = state.leds[i].actual_position;
        proof {
            assert(led_wf(state.leds@[i as int]));
        }
        let c: i64 = match state.effect {
            Effect::SweepingPlaneX => p.x,
            Effect::SweepingPlaneY => p.y,
            _ => p.z,
        };
        let v: i64 = c * COORD_TO_DEPTH;
        vals.push(v);
        i = i + 1;
    }
    let depths = shift_to_zero(&vals);
    proof {
        assert(to_ints(vals@) =~= axis_seq(state.leds@, state.effect));
        assert forall|k: int| 0 <= k < n implies depths@[k] == spec_axis_depths(
            state.leds@,
            state.effect,
        )[k] by {
            assert(depths@[k] == vals@[k] - seq_min(to_ints(vals@)));
        }
        assert(depths@ =~= spec_axis_depths(state.leds@, state.effect));
    }
    state.sweeping_plane_z = depths;
}

/// Re-seed the randomly oriented sweep: a fresh random orientation from two
/// angle draws, depths as projections onto it shifted so the smallest is
/// zero, a fresh random hue, and the timer reset.
fn reseed_sweeping_plane(state: &mut AppState, now_ms: u64)
    requires
        old(state).wf(),
        old(state).effect is SweepingPlane,
    ensures
        final(state).wf(),
        final(state).leds@ == old(state).leds@,
        final(state).base_color == old(state).base_color,
        final(state).effect == old(state).effect,
        final(state).concentric_color_hue == old(state).concentric_color_hue,
        final(state).ticks == old(state).ticks,
        final(state).effect_start_ms == now_ms,
        valid_depths(old(state).leds@.len() as int, final(state).sweeping_plane_z@),
        final(state).sweeping_plane_hue < 360,
{
    state.effect_start_ms = now_ms;
    let hue_draw = random_in(0, 360);
    let hue = hue_draw as u16;
    let theta = random_in(0, 360) as u16;
    let alpha = random_in(0, 360) as u16;
    let st = sin_milli(theta);
    let ct = cos_milli(theta);
    let sa = sin_milli(alpha);
    let ca = cos_milli(alpha);
    proof {
        assert(-1_000_000 <= st * sa <= 1_000_000 && -1_000_000 <= st * ca <= 1_000_000)
            by (nonlinear_arith)
            requires -1000 <= st <= 1000 && -1000 <= sa <= 1000 && -1000 <= ca <= 1000;
    }
    let dx: i64 = st * sa;
    let dy: i64 = st * ca;
    let dz: i64 = ct * 1000;
    let n = state.leds.len();
    if n == 0 {
        state.sweeping_plane_z = Vec::new();
        state.sweeping_plane_hue = hue;
        return;
    }
    let mut vals: Vec<i64> = Vec::new();
    let mut i: usize = 0;
    while i < n
        invariant
            old(state).wf(),
            state.leds@ == old(state).leds@,
            -1_000_000 <= dx <= 1_000_000,
            -1_000_000 <= dy <= 1_000_000,
            -1_000_000 <= dz <= 1_000_000,
            i <= n,
            n == state.leds@.len(),
            vals@.len() == i,
            forall|k: int| 0 <= k < i ==> -PROJ_CAP <= #[trigger] vals@[k] <= PROJ_CAP,
        decreases n - i,
    {
        let p = state.leds[i].actual_position;
        proof {
            assert(led_wf(state.leds@[i as int]));
            assert(-1_000_000_000_000 <= dx * p.x <= 1_000_000_000_000 && -1_000_000_000_000 <= dy
                * p.y <= 1_000_000_000_000 && -1_000_000_000_000 <= dz * p.z <= 1_000_000_000_000)
                by (nonlinear_arith)
                requires
                    -1_000_000 <= dx <= 1_000_000,
                    -1_000_000 <= dy <= 1_000_000,
                    -1_000_000 <= dz <= 1_000_000,
                    -1_000_000 <= p.x <= 1_000_000,
                    -1_000_000 <= p.y <= 1_000_000,
                    -1_000_000 <= p.z <= 1_000_000,
            ;
        }
        let v: i64 = dx * p.x + dy * p.y + dz * p.z;
        vals.push(v);
        i = i + 1;
    }
    let depths = shift_to_zero(&vals);
    state.sweeping_plane_z = depths;
    state.sweeping_plane_hue = hue;
}

/// Shifted depths are a function of placements alone: equal on LED arrays
/// that differ only in colors.
pub proof fn lemma_axis_depths_frame(a: Seq<Led>, b: Seq<Led>, e: Effect)
    requires
        led_frame(a, b),
    ensures
        spec_axis_depths(b, e) == spec_axis_depths(a, e),
{
    assert forall|i: int| 0 <= i < a.len() implies axis_depth(b[i], e) == axis_depth(a[i], e) by {
        assert(b[i].actual_position == a[i].actual_position);
    }
    assert(axis_seq(b, e) =~= axis_seq(a, e));
    assert(spec_axis_depths(b, e) =~= spec_axis_depths(a, e));
}

/// One tick of an axis-fixed sweep: a stale scratch cache is re-seeded
/// first and the timer restarted; then every enabled LED within one band
/// half-width of the plane takes the base color and every other LED black;
/// finally, a plane beyond the deepest LED re-seeds for the next cycle.
pub open spec fn sweep_axis_post(pre: AppState, post: AppState, now: int) -> bool {
    let d1 = if stale(pre) {
        spec_axis_depths(pre.leds@, pre.effect)
    } else {
        pre.sweeping_plane_z@
    };
    let s1 = if stale(pre) {
        now
    } else {
        pre.effect_start_ms as int
    };
    let plane = spec_plane_depth(now - s1);
    let finish = d1.len() > 0 && plane > seq_max(to_ints(d1));
    &&& frame_keeps(pre, post)
    &&& forall|i: int|
        0 <= i < pre.leds@.len() ==> (#[trigger] post.leds@[i]).color == (if pre.leds@[i].enabled
            && band_lit(d1[i] as int, plane) {
            pre.base_color
        } else {
            black()
        })
    &&& post.sweeping_plane_z@ == (if finish {
        spec_axis_depths(pre.leds@, pre.effect)
    } else {
        d1
    })
    &&& post.effect_start_ms == (if finish {
        now
    } else {
        s1
    })
    &&& post.sweeping_plane_hue == pre.sweeping_plane_hue
    &&& post.concentric_color_hue == pre.concentric_color_hue
}

/// The scratch a randomly oriented sweep ticks with: the prior cache, or a
/// fresh one (valid depths, timer at `now`, a hue below a turn) when the
/// cache was stale.
pub open spec fn sweep_rand_seed(
    pre: AppState,
    now: int,
    d1: Seq<i64>,
    s1: int,
    h1: int,
) -> bool {
    if stale(pre) {
        valid_depths(pre.leds@.len() as int, d1) && s1 == now && 0 <= h1 < 360
    } else {
        d1 == pre.sweeping_plane_z@ && s1 == pre.effect_start_ms && h1 == pre.sweeping_plane_hue
    }
}

/// The band rule of the randomly oriented sweep over the scratch it ticks
/// with, and what it leaves behind: the same scratch, or a fresh one when
/// the plane passed the deepest LED.
pub open spec fn sweep_rand_step(
    pre: AppState,
    post: AppState,
    now: int,
    d1: Seq<i64>,
    s1: int,
    h1: int,
) -> bool {
    let plane = spec_plane_depth(now - s1);
    let finish = d1.len() > 0 && plane > seq_max(to_ints(d1));
    &&& forall|i: int|
        0 <= i < pre.leds@.len() ==> (#[trigger] post.leds@[i]).color == (if pre.leds@[i].enabled
            && band_lit(d1[i] as int, plane) {
            spec_hue_color(h1)
        } else {
            black()
        })
    &&& (if finish {
        valid_depths(pre.leds@.len() as int, post.sweeping_plane_z@) && post.effect_start_ms == now
            && post.sweeping_plane_hue < 360
    } else {
        post.sweeping_plane_z@ == d1 && post.effect_start_ms == s1 && post.sweeping_plane_hue == h1
    })
}

/// One tick of the randomly oriented sweep.  The orientation and hue are
/// random, so the tick is pinned down relative to the scratch it used.
pub open spec fn sweep_rand_post(pre: AppState, post: AppState, now: int) -> bool {
    &&& frame_keeps(pre, post)
    &&& post.concentric_color_hue == pre.concentric_color_hue
    &&& exists|d1: Seq<i64>, s1: int, h1: int|
        sweep_rand_seed(pre, now, d1, s1, h1) && #[trigger] sweep_rand_step(
            pre,
            post,
            now,
            d1,
            s1,
            h1,
        )
}

/// One tick of an axis-fixed sweep.
fn sweeping_plane_xyz(state: &mut AppState, now_ms: u64)
    requires
        old(state).wf(),
        old(state).effect_start_ms <= now_ms,
        old(state).effect is SweepingPlaneX || old(state).effect is SweepingPlaneY || old(
            state,
        ).effect is SweepingPlaneZ,
    ensures
        final(state).wf(),
        final(state).ticks == old(state).ticks,
        final(state).sweeping_plane_z@.len() == final(state).leds@.len(),
        sweep_axis_post(*old(state), *final(state), now_ms as int),
{
    let ghost pre = *old(state);
    if state.sweeping_plane_z.len() != state.leds.len() {
        reseed_axis(state, now_ms);
    }
    let ghost mid = *state;
    proof {
        if stale(pre) {
            assert(mid.sweeping_plane_z@ == spec_axis_depths(pre.leds@, pre.effect));
        } else {
            assert(mid == pre);
        }
    }
    let elapsed = now_ms - state.effect_start_ms;
    let plane: i64 = if elapsed >= ELAPSED_CAP_MS {
        PLANE_CAP
    } else {
        (elapsed as i64) * DEPTH_PER_MS
    };
    let base = state.base_color;
    paint_band(&mut state.leds, &state.sweeping_plane_z, plane, base);
    let ghost painted = *state;
    if state.sweeping_plane_z.len() > 0 {
        let mx = max_in(&state.sweeping_plane_z);
        if plane > mx {
            reseed_axis(state, now_ms);
            proof {
                lemma_axis_depths_frame(pre.leds@, painted.leds@, pre.effect);
            }
        }
    }
    proof {
        assert(led_frame(pre.leds@, state.leds@));
        assert forall|i: int| 0 <= i < state.leds@.len() implies led_wf(
            #[trigger] state.leds@[i],
        ) by {
            assert(led_wf(pre.leds@[i]));
        }
    }
}

/// One tick of the randomly oriented sweep.
fn sweeping_plane(state: &mut AppState, now_ms: u64)
    requires
        old(state).wf(),
        old(state).effect_start_ms <= now_ms,
        old(state).effect is SweepingPlane,
    ensures
        final(state).wf(),
        final(state).ticks == old(state).ticks,
        final(state).sweeping_plane_z@.len() == final(state).leds@.len(),
        sweep_rand_post(*old(state), *final(state), now_ms as int),
{
    let ghost pre = *old(state);
    if state.sweeping_plane_z.len() != state.leds.len() {
        reseed_sweeping_plane(state, now_ms);
    }
    let ghost d1 = state.sweeping_plane_z@;
    let ghost s1 = state.effect_start_ms as int;
    let ghost h1 = state.sweeping_plane_hue as int;
    proof {
        assert(sweep_rand_seed(pre, now_ms as int, d1, s1, h1));
    }
    let elapsed = now_ms - state.effect_start_ms;
    let plane: i64 = if elapsed >= ELAPSED_CAP_MS {
        PLANE_CAP
    } else {
        (elapsed as i64) * DEPTH_PER_MS
    };
    let color = hue_to_rgb(state.sweeping_plane_hue);
    paint_band(&mut state.leds, &state.sweeping_plane_z, plane, color);
    if state.sweeping_plane_z.len() > 0 {
        let mx = max_in(&state.sweeping_plane_z);
        if plane > mx {
            reseed_sweeping_plane(state, now_ms);
        }
    }
    proof {
        assert(sweep_rand_step(pre, *state, now_ms as int, d1, s1, h1));
        assert(led_frame(pre.leds@, state.leds@));
        assert forall|i: int| 0 <= i < state.leds@.len() implies led_wf(
            #[trigger] state.leds@[i],
        ) by {
            assert(led_wf(pre.leds@[i]));
        }
    }
}

/// Count of enabled LEDs.
pub open spec fn enabled_count(leds: Seq<Led>) -> int
    decreases leds.len(),
{
    if leds.len() == 0 {
        0
    } else {
        enabled_count(leds.drop_last()) + if leds.last().enabled {
            1int
        } else {
            0int
        }
    }
}

/// Sum of the ground-truth heights of the enabled LEDs, in coordinate ticks.
pub open spec fn enabled_z_sum(leds: Seq<Led>) -> int
    decreases leds.len(),
{
    if leds.len() == 0 {
        0
    } else {
        enabled_z_sum(leds.drop_last()) + if leds.last().enabled {
            leds.last().actual_position.z as int
        } else {
            0int
        }
    }
}

/// Height of the expansion center: the centroid (rounded down) of the
/// enabled LEDs' heights; zero when none is enabled.
pub open spec fn spec_center_z(leds: Seq<Led>) -> int {
    if enabled_count(leds) == 0 {
        0
    } else {
        enabled_z_sum(leds) / enabled_count(leds)
    }
}

/// Squared distance of a point from the center point `(0, 0, cz)`, in
/// squared coordinate ticks.
pub open spec fn dist_sq(p: Vec3, cz: int) -> int {
    p.x * p.x + p.y * p.y + (p.z - cz) * (p.z - cz)
}

/// Largest squared distance of an enabled LED from the center; zero when
/// none is enabled.
pub open spec fn max_enabled_dist_sq(leds: Seq<Led>, cz: int) -> int
    decreases leds.len(),
{
    if leds.len() == 0 {
        0
    } else {
        let rest = max_enabled_dist_sq(leds.drop_last(), cz);
        if leds.last().enabled {
            max(rest, dist_sq(leds.last().actual_position, cz))
        } else {
            rest
        }
    }
}

/// Radius the expanding sphere has reached after `elapsed` milliseconds, in
/// coordinate ticks, capped beyond every in-range distance.
pub open spec fn spec_radius_milli(elapsed: int) -> int {
    if elapsed >= RADIUS_CAP {
        RADIUS_CAP as int
    } else {
        elapsed
    }
}

/// One concentric tick: every enabled LED strictly inside the reached
/// radius takes the hue color; all other LEDs keep their prior color.  Once
/// the sphere has covered the farthest enabled LED, a fresh hue is drawn
/// and the timer reset; colors already set are left standing.
pub open spec fn concentric_post(pre: AppState, post: AppState, now: int) -> bool {
    let cz = spec_center_z(pre.leds@);
    let r = spec_radius_milli(now - pre.effect_start_ms);
    let rsq = r * r;
    let finish = rsq > max_enabled_dist_sq(pre.leds@, cz);
    &&& frame_keeps(pre, post)
    &&& forall|i: int|
        0 <= i < pre.leds@.len() ==> (#[trigger] post.leds@[i]).color == (if pre.leds@[i].enabled
            && dist_sq(pre.leds@[i].actual_position, cz) < rsq {
            spec_hue_color(pre.concentric_color_hue as int)
        } else {
            pre.leds@[i].color
        })
    &&& post.sweeping_plane_z@ == pre.sweeping_plane_z@
    &&& post.sweeping_plane_hue == pre.sweeping_plane_hue
    &&& post.effect_start_ms == (if finish {
        now
    } else {
        pre.effect_start_ms as int
    })
    &&& (if finish {
        post.concentric_color_hue < 360
    } else {
        post.concentric_color_hue == pre.concentric_color_hue
    })
}

/// Height of the expansion center, as the engine computes it: sums are
/// shifted into the non-negative range so the division is exact floor
/// division.
fn center_z(leds: &Vec<Led>) -> (cz: i64)
    requires
        leds@.len() <= MAX_LEDS,
        forall|i: int| 0 <= i < leds@.len() ==> led_wf(#[trigger] leds@[i]),
    ensures
        cz == spec_center_z(leds@),
        -MAX_COORD <= cz <= MAX_COORD,
{
    let n = leds.len();
    let mut cnt: u64 = 0;
    let mut sum_shift: u64 = 0;
    let mut k: usize = 0;
    while k < n
        invariant
            n == leds@.len(),
            n <= MAX_LEDS,
            forall|i: int| 0 <= i < n ==> led_wf(#[trigger] leds@[i]),
            k <= n,
            cnt == enabled_count(leds@.take(k as int)),
            cnt <= k,
            sum_shift == enabled_z_sum(leds@.take(k as int)) + 1_000_000 * (cnt as int),
            sum_shift <= 2_000_000 * (cnt as int),
        decreases n - k,
    {
        proof {
            assert(leds@.take(k + 1).drop_last() =~= leds@.take(k as int));
            assert(leds@.take(k + 1).last() == leds@[k as int]);
            assert(led_wf(leds@[k as int]));
        }
        if leds[k].enabled {
            let z = leds[k].actual_position.z;
            cnt = cnt + 1;
            sum_shift = sum_shift + ((z + MAX_COORD) as u64);
        }
        k = k + 1;
    }
    proof {
        assert(leds@.take(n as int) =~= leds@);
    }
    if cnt == 0 {
        return 0;
    }
    let q = sum_shift / cnt;
    proof {
        let s = enabled_z_sum(leds@);
        let c = cnt as int;
        lemma_mul_is_commutative(1_000_000, c);
        lemma_hoist_over_denominator(s, 1_000_000, cnt as nat);
        assert(q == s / c + 1_000_000);
        lemma_mul_is_commutative(2_000_000, c);
        lemma_div_is_ordered(sum_shift as int, c * 2_000_000, c);
        lemma_div_multiples_vanish(2_000_000, c);
        assert(q <= 2_000_000);
    }
    (q as i64) - MAX_COORD
}

/// One tick of the concentric expanding sphere.
fn concentric_color(state: &mut AppState, now_ms: u64)
    requires
        old(state).wf(),
        old(state).effect_start_ms <= now_ms,
        old(state).effect is ConcentricColor,
    ensures
        final(state).wf(),
        final(state).ticks == old(state).ticks,
        concentric_post(*old(state), *final(state), now_ms as int),
{
    let cz = center_z(&state.leds);
    let elapsed = now_ms - state.effect_start_ms;
    let radius: i64 = if elapsed >= 4_000_000 {
        RADIUS_CAP
    } else {
        elapsed as i64
    };
    proof {
        assert(radius * radius <= 16_000_000_000_000) by (nonlinear_arith)
            requires 0 <= radius <= 4_000_000;
    }
    let rsq: i64 = radius * radius;
    let color = hue_to_rgb(state.concentric_color_hue);
    let n = state.leds.len();
    let mut maxsq: i64 = 0;
    let mut k: usize = 0;
    while k < n
        invariant
            old(state).wf(),
            state.base_color == old(state).base_color,
            state.effect == old(state).effect,
            state.ticks == old(state).ticks,
            scratch_keeps(*old(state), *state),
            n == state.leds@.len(),
            n == old(state).leds@.len(),
            k <= n,
            cz == spec_center_z(old(state).leds@),
            -MAX_COORD <= cz <= MAX_COORD,
            0 <= rsq <= 16_000_000_000_000,
            rsq == spec_radius_milli(now_ms - old(state).effect_start_ms) * spec_radius_milli(
                now_ms - old(state).effect_start_ms,
            ),
            color == spec_hue_color(old(state).concentric_color_hue as int),
            maxsq == max_enabled_dist_sq(old(state).leds@.take(k as int), cz as int),
            0 <= maxsq <= 6_000_000_000_000,
            forall|j: int| k <= j < n ==> #[trigger] state.leds@[j] == old(state).leds@[j],
            forall|j: int|
                0 <= j < k ==> #[trigger] state.leds@[j] == (Led {
                    color: if old(state).leds@[j].enabled && dist_sq(
                        old(state).leds@[j].actual_position,
                        cz as int,
                    ) < rsq {
                        spec_hue_color(old(state).concentric_color_hue as int)
                    } else {
                        old(state).leds@[j].color
                    },
                    ..old(state).leds@[j]
                }),
        decreases n - k,
    {
        proof {
            assert(old(state).leds@.take(k + 1).drop_last() =~= old(state).leds@.take(k as int));
            assert(old(state).leds@.take(k + 1).last() == old(state).leds@[k as int]);
            assert(led_wf(old(state).leds@[k as int]));
        }
        if state.leds[k].enabled {
            let p = state.leds[k].actual_position;
            proof {
                assert(0 <= p.x * p.x <= 1_000_000_000_000 && 0 <= p.y * p.y
                    <= 1_000_000_000_000) by (nonlinear_arith)
                    requires -1_000_000 <= p.x <= 1_000_000 && -1_000_000 <= p.y <= 1_000_000;
                assert(0 <= (p.z - cz) * (p.z - cz) <= 4_000_000_000_000) by (nonlinear_arith)
                    requires -2_000_000 <= p.z - cz <= 2_000_000;
            }
            let dz: i64 = p.z - cz;
            let d2: i64 = p.x * p.x + p.y * p.y + dz * dz;
            if d2 < rsq {
                state.leds[k].color = color;
            }
            if d2 > maxsq {
                maxsq = d2;
            }
        }
        k = k + 1;
    }
    proof {
        assert(old(state).leds@.take(n as int) =~= old(state).leds@);
    }
    if rsq > maxsq {
        let h = random_in(0, 360);
        state.concentric_color_hue = h as u16;
        state.effect_start_ms = now_ms;
    }
}

/// One tick of the effect engine: dispatch on the active effect and compute
/// every LED's color from the elapsed time, the geometry and the scratch
/// state.  After any tick of a sweep effect the scratch cache agrees with
/// the LED count again (lazy self-healing).
pub fn update_effects(state: &mut AppState, now_ms: u64)
    requires
        old(state).wf(),
        old(state).effect_start_ms <= now_ms,
    ensures
        final(state).wf(),
        final(state).ticks == old(state).ticks,
        old(state).effect is NoEffect ==> none_post(*old(state), *final(state)),
        old(state).effect is Blink ==> blink_post(*old(state), *final(state), now_ms as int),
        old(state).effect is AllOn ==> allon_post(*old(state), *final(state)),
        old(state).effect is SweepingPlane ==> sweep_rand_post(
            *old(state),
            *final(state),
            now_ms as int,
        ),
        old(state).effect is SweepingPlaneX || old(state).effect is SweepingPlaneY || old(
            state,
        ).effect is SweepingPlaneZ ==> sweep_axis_post(*old(state), *final(state), now_ms as int),
        old(state).effect is ConcentricColor ==> concentric_post(
            *old(state),
            *final(state),
            now_ms as int,
        ),
        (old(state).effect is SweepingPlane || old(state).effect is SweepingPlaneX
            || old(state).effect is SweepingPlaneY || old(state).effect is SweepingPlaneZ)
            ==> final(state).sweeping_plane_z@.len() == final(state).leds@.len(),
{
    match state.effect {
        Effect::Blink => blink(state, now_ms),
        Effect::AllOn => all_on(state),
        Effect::SweepingPlane => sweeping_plane(state, now_ms),
        Effect::SweepingPlaneX | Effect::SweepingPlaneY | Effect::SweepingPlaneZ => {
            sweeping_plane_xyz(state, now_ms)
        },
        Effect::ConcentricColor => concentric_color(state, now_ms),
        Effect::NoEffect => {},
    }
}

impl AppState {
    /// One render tick: run the effect engine once against the shared state
    /// and publish the completed tick on the counter the confirmation
    /// barrier polls.
    pub fn tick(&mut self, now_ms: u64)
        requires
            old(self).wf(),
            old(self).effect_start_ms <= now_ms,
        ensures
            final(self).wf(),
            old(self).effect is NoEffect ==> none_post(*old(self), *final(self)),
            old(self).effect is Blink ==> blink_post(*old(self), *final(self), now_ms as int),
            old(self).effect is AllOn ==> allon_post(*old(self), *final(self)),
            old(self).effect is SweepingPlane ==> sweep_rand_post(
                *old(self),
                *final(self),
                now_ms as int,
            ),
            old(self).effect is SweepingPlaneX || old(self).effect is SweepingPlaneY || old(
                self,
            ).effect is SweepingPlaneZ ==> sweep_axis_post(*old(self), *final(self), now_ms as int),
            old(self).effect is ConcentricColor ==> concentric_post(
                *old(self),
                *final(self),
                now_ms as int,
            ),
            (old(self).effect is SweepingPlane || old(self).effect is SweepingPlaneX
                || old(self).effect is SweepingPlaneY || old(self).effect is SweepingPlaneZ)
                ==> final(self).sweeping_plane_z@.len() == final(self).leds@.len(),
            final(self).ticks == (if old(self).ticks == u64::MAX {
                u64::MAX as int
            } else {
                old(self).ticks + 1
            }),
    {
        update_effects(self, now_ms);
        let ghost mid = *self;
        if self.ticks < u64::MAX {
            self.ticks = self.ticks + 1;
        }
        proof {
            if old(self).effect is SweepingPlane {
                let (d1, s1, h1) = choose|d1: Seq<i64>, s1: int, h1: int|
                    sweep_rand_seed(*old(self), now_ms as int, d1, s1, h1)
                        && #[trigger] sweep_rand_step(*old(self), mid, now_ms as int, d1, s1, h1);
                assert(sweep_rand_step(*old(self), *self, now_ms as int, d1, s1, h1));
            }
        }
    }
}

/// Law: after a sweep (re-)initialization the depths have minimum exactly
/// zero across all LEDs: none is negative and one is exactly zero.
pub proof fn lemma_reseed_min_zero(leds: Seq<Led>, e: Effect)
    requires
        leds.len() > 0,
        forall|i: int| 0 <= i < leds.len() ==> led_wf(#[trigger] leds[i]),
    ensures
        forall|i: int| 0 <= i < leds.len() ==> #[trigger] spec_axis_depths(leds, e)[i] >= 0,
        exists|i: int| 0 <= i < leds.len() && #[trigger] spec_axis_depths(leds, e)[i] == 0,
{
    let vals = axis_seq(leds, e);
    assert forall|i: int| 0 <= i < leds.len() implies -1_000_000_000_000 <= #[trigger] vals[i]
        <= 1_000_000_000_000 by {
        assert(led_wf(leds[i]));
    }
    lemma_seq_min_props(vals);
    let m = seq_min(vals);
    let ghost j = choose|i: int| 0 <= i < vals.len() && #[trigger] vals[i] == m;
    assert(spec_axis_depths(leds, e)[j] == 0);
    assert forall|i: int| 0 <= i < leds.len() implies #[trigger] spec_axis_depths(leds, e)[i]
        >= 0 by {
        assert(m <= vals[i]);
    }
}

/// Law: when the plane advances one full band width (two hundred
/// milliseconds at the sweep speed) per tick, every depth off the band
/// boundary is lit on exactly one tick of the cycle: plane positions are
/// `k` band widths and the depth falls in exactly one open band.
pub proof fn lemma_sweep_covers_once(d: int)
    requires
        0 <= d,
        d % 200_000_000 != 100_000_000,
    ensures
        forall|k: int| 0 <= k < 50_000 ==> #[trigger] spec_plane_depth(200 * k) == k * 200_000_000,
        exists|k: int| 0 <= k && #[trigger] band_lit(d, k * 200_000_000),
        forall|k1: int, k2: int|
            #[trigger] band_lit(d, k1 * 200_000_000) && #[trigger] band_lit(d, k2 * 200_000_000)
                ==> k1 == k2,
{
    let c = 200_000_000;
    let k0 = (d + 100_000_000) / c;
    lemma_fundamental_div_mod(d + 100_000_000, c);
    lemma_mod_bound(d + 100_000_000, c);
    let r = (d + 100_000_000) % c;
    lemma_div_pos_is_pos(d + 100_000_000, c);
    if r == 0 {
        assert(d == c * (k0 - 1) + 100_000_000) by {
            assert(d + 100_000_000 == c * k0);
        }
        lemma_fundamental_div_mod_converse(d, c, k0 - 1, 100_000_000);
        assert(false);
    }
    assert(c * k0 == d + 100_000_000 - r);
    assert(band_lit(d, k0 * c));
    assert forall|k1: int, k2: int|
        #[trigger] band_lit(d, k1 * c) && #[trigger] band_lit(d, k2 * c) implies k1 == k2 by {
        assert(-c < c * (k1 - k2) < c) by (nonlinear_arith)
            requires
                d - 100_000_000 < c * k1 < d + 100_000_000,
                d - 100_000_000 < c * k2 < d + 100_000_000,
                c == 200_000_000,
        ;
        assert(k1 == k2) by (nonlinear_arith)
            requires -c < c * (k1 - k2) < c && c == 200_000_000;
    }
}

/// Law: within one concentric cycle the lit threshold is monotonically
/// non-decreasing in the elapsed time, so a LED once lit stays lit until
/// the next hue reset.
pub proof fn lemma_concentric_never_unlights(dsq: int, t1: int, t2: int)
    requires
        0 <= t1 <= t2,
    ensures
        spec_radius_milli(t1) <= spec_radius_milli(t2),
        dsq < spec_radius_milli(t1) * spec_radius_milli(t1) ==> dsq < spec_radius_milli(t2)
            * spec_radius_milli(t2),
{
    let r1 = spec_radius_milli(t1);
    let r2 = spec_radius_milli(t2);
    assert(0 <= r1 <= r2);
    assert(r1 * r1 <= r2 * r2) by (nonlinear_arith)
        requires 0 <= r1 <= r2;
}

} // verus!
