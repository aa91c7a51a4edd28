//! The shared animation state and the atomic control-plane mutations on it.
//!
//! One `AppState` value is the whole shared record: the LED array, the
//! active effect, its timer and the per-effect scratch data.  The render
//! loop and the control plane both mutate it while holding one lock around
//! the value; every operation here is synchronous work on `&mut AppState`.

use crate::color::{black, Rgb};
use crate::geometry::{generate_cone_leds, in_cone, origin, pos_ok, Vec3};
use vstd::prelude::*;

verus! {

/// Largest LED count the engine accepts; keeps the centroid sums of the
/// concentric effect inside `i64`.
pub const MAX_LEDS: usize = 1_000_000;

/// Largest sweep depth, in billionths of a unit: the widest projection
/// spread two in-range positions can have.
pub const DEPTH_CAP: i64 = 6_000_000_000_000;

/// The closed set of animation effects; exactly one is active at a time.
#[derive(Clone, Copy, Debug, PartialEq, Eq, Structural)]
pub enum Effect {
    NoEffect,
    Blink,
    AllOn,
    SweepingPlane,
    SweepingPlaneX,
    SweepingPlaneY,
    SweepingPlaneZ,
    ConcentricColor,
}

/// One LED: its mask bit, displayed color and two placements.
/// `actual_position` is the ground-truth geometric placement the spatial
/// effects read; `determined_position` is the externally calibrated one.
#[derive(Clone, Copy, Debug, PartialEq, Eq, Structural)]
pub struct Led {
    pub enabled: bool,
    pub color: Rgb,
    pub determined_position: Vec3,
    pub actual_position: Vec3,
}

/// Both placements of the LED are in-range coordinate triples.
pub open spec fn led_wf(l: Led) -> bool {
    pos_ok(l.determined_position) && pos_ok(l.actual_position)
}

/// The error a control call returns when it refers to a LED the array does
/// not have.  The call leaves the state untouched.
#[derive(Clone, Copy, Debug, PartialEq, Eq, Structural)]
pub enum ControlError {
    InvalidIndex,
}

/// The shared animation state.
///
/// `sweeping_plane_z` is a derived cache of per-LED sweep depths (billionths
/// of a unit); it is stale whenever its length disagrees with the LED count,
/// and the effect engine re-seeds it lazily on the next tick.
#[derive(Clone, Debug)]
pub struct AppState {
    pub leds: Vec<Led>,
    pub base_color: Rgb,
    pub effect: Effect,
    /// Clock reading (milliseconds) at which the active effect, or its
    /// current internal cycle, started.
    pub effect_start_ms: u64,
    pub sweeping_plane_z: Vec<i64>,
    pub sweeping_plane_hue: u16,
    pub concentric_color_hue: u16,
    /// Count of completed render ticks, published for the confirmation
    /// barrier of the control plane.
    pub ticks: u64,
}

impl AppState {
    /// Structural invariant: bounded LED count, in-range positions, sweep
    /// depths in range with minimum zero when present, hues below a turn.
    pub open spec fn wf(self) -> bool {
        &&& self.leds@.len() <= MAX_LEDS
        &&& forall|i: int| 0 <= i < self.leds@.len() ==> led_wf(#[trigger] self.leds@[i])
        &&& forall|i: int|
            0 <= i < self.sweeping_plane_z@.len() ==> 0 <= #[trigger] self.sweeping_plane_z@[i]
                <= DEPTH_CAP
        &&& self.sweeping_plane_z@.len() > 0 ==> exists|i: int|
            0 <= i < self.sweeping_plane_z@.len() && self.sweeping_plane_z@[i] == 0
        &&& self.sweeping_plane_hue < 360
        &&& self.concentric_color_hue < 360
    }

    /// Everything but the LED array is unchanged.
    pub open spec fn same_but_leds(pre: AppState, post: AppState) -> bool {
        &&& post.base_color == pre.base_color
        &&& post.effect == pre.effect
        &&& post.effect_start_ms == pre.effect_start_ms
        &&& post.sweeping_plane_z@ == pre.sweeping_plane_z@
        &&& post.sweeping_plane_hue == pre.sweeping_plane_hue
        &&& post.concentric_color_hue == pre.concentric_color_hue
        &&& post.ticks == pre.ticks
    }

    /// A fresh state sized to `num` LEDs: every LED enabled, black, with a
    /// zero calibrated position and a random cone placement; no effect, no
    /// scratch, all timers and counters at zero.
    ///
    /// Changing the LED count always goes through this constructor: the old
    /// per-LED state is discarded wholesale, never partially resized.
    pub fn new(num: usize) -> (s: AppState)
        requires
            num <= MAX_LEDS,
        ensures
            s.wf(),
            s.leds@.len() == num,
            forall|i: int| 0 <= i < num ==> (#[trigger] s.leds@[i]).enabled,
            forall|i: int| 0 <= i < num ==> (#[trigger] s.leds@[i]).color == black(),
            forall|i: int|
                0 <= i < num ==> (#[trigger] s.leds@[i]).determined_position == origin(),
            forall|i: int| 0 <= i < num ==> in_cone((#[trigger] s.leds@[i]).actual_position),
            s.base_color == (Rgb { r: 150, g: 150, b: 150 }),
            s.effect == Effect::NoEffect,
            s.effect_start_ms == 0,
            s.sweeping_plane_z@.len() == 0,
            s.sweeping_plane_hue == 0,
            s.concentric_color_hue == 0,
            s.ticks == 0,
    {
        let pts = generate_cone_leds(num);
        let mut leds: Vec<Led> = Vec::new();
        let mut i: usize = 0;
        while i < num
            invariant
                i <= num,
                pts@.len() == num,
                forall|k: int| 0 <= k < pts@.len() ==> in_cone(#[trigger] pts@[k]),
                leds@.len() == i,
                forall|k: int| 0 <= k < i ==> (#[trigger] leds@[k]).enabled,
                forall|k: int| 0 <= k < i ==> (#[trigger] leds@[k]).color == black(),
                forall|k: int|
                    0 <= k < i ==> (#[trigger] leds@[k]).determined_position == origin(),
                forall|k: int| 0 <= k < i ==> (#[trigger] leds@[k]).actual_position == pts@[k],
            decreases num - i,
        {
            leds.push(
                Led {
                    enabled: true,
                    color: Rgb { r: 0, g: 0, b: 0 },
                    determined_position: Vec3 { x: 0, y: 0, z: 0 },
                    actual_position: pts[i],
                },
            );
            i = i + 1;
        }
        AppState {
            leds,
            base_color: Rgb { r: 150, g: 150, b: 150 },
            effect: Effect::NoEffect,
            effect_start_ms: 0,
            sweeping_plane_z: Vec::new(),
            sweeping_plane_hue: 0,
            concentric_color_hue: 0,
            ticks: 0,
        }
    }

    /// The current LED count.
    pub fn get_num_leds(&self) -> (n: usize)
        ensures
            n == self.leds@.len(),
    {
        self.leds.len()
    }

    /// Blacken every LED, then give each LED named with `true` the base
    /// color.  Rejected without mutation when any index is out of range.
    pub fn configure_leds(&mut self, settings: &Vec<(usize, bool)>) -> (r: Result<
        (),
        ControlError,
    >)
        requires
            old(self).wf(),
        ensures
            final(self).wf(),
            r is Ok <==> (forall|k: int|
                0 <= k < settings@.len() ==> (#[trigger] settings@[k]).0 < old(self).leds@.len()),
            r is Err ==> *final(self) == *old(self),
            r is Ok ==> {
                &&& AppState::same_but_leds(*old(self), *final(self))
                &&& final(self).leds@.len() == old(self).leds@.len()
                &&& forall|i: int|
                    0 <= i < old(self).leds@.len() ==> (#[trigger] final(self).leds@[i])
                        == (Led {
                        color: if (exists|k: int|
                            0 <= k < settings@.len() && (#[trigger] settings@[k])
                                == (i as usize, true)) {
                            old(self).base_color
                        } else {
                            black()
                        },
                        ..old(self).leds@[i]
                    })
            },
    {
        let n = self.leds.len();
        let mut k: usize = 0;
        while k < settings.len()
            invariant
                old(self).wf(),
                *self == *old(self),
                k <= settings@.len(),
                n == self.leds@.len(),
                forall|j: int| 0 <= j < k ==> (#[trigger] settings@[j]).0 < n,
            decreases settings@.len() - k,
        {
            if settings[k].0 >= n {
                return Err(ControlError::InvalidIndex);
            }
            k = k + 1;
        }
        let mut i: usize = 0;
        while i < n
            invariant
                old(self).wf(),
                i <= n,
                n == self.leds@.len(),
                AppState::same_but_leds(*old(self), *self),
                forall|j: int|
                    0 <= j < n ==> (#[trigger] self.leds@[j]) == (Led {
                        color: if j < i {
                            black()
                        } else {
                            old(self).leds@[j].color
                        },
                        ..old(self).leds@[j]
                    }),
            decreases n - i,
        {
            self.leds[i].color = Rgb { r: 0, g: 0, b: 0 };
            i = i + 1;
        }
        let mut k: usize = 0;
        while k < settings.len()
            invariant
                old(self).wf(),
                k <= settings@.len(),
                n == self.leds@.len(),
                forall|j: int| 0 <= j < settings@.len() ==> (#[trigger] settings@[j]).0 < n,
                AppState::same_but_leds(*old(self), *self),
                forall|i: int|
                    0 <= i < n ==> (#[trigger] self.leds@[i]) == (Led {
                        color: if (exists|j: int|
                            0 <= j < k && (#[trigger] settings@[j]) == (i as usize, true)) {
                            old(self).base_color
                        } else {
                            black()
                        },
                        ..old(self).leds@[i]
                    }),
            decreases settings@.len() - k,
        {
            let (idx, val) = settings[k];
            if val {
                let c = self.base_color;
                self.leds[idx].color = c;
                proof {
                    assert forall|i: int| 0 <= i < n implies (#[trigger] self.leds@[i]) == (Led {
                        color: if (exists|j: int|
                            0 <= j < k + 1 && (#[trigger] settings@[j]) == (i as usize, true)) {
                            old(self).base_color
                        } else {
                            black()
                        },
                        ..old(self).leds@[i]
                    }) by {
                        if i == idx {
                            assert(settings@[k as int] == (i as usize, true));
                        }
                    }
                }
            } else {
                proof {
                    assert forall|i: int| 0 <= i < n implies (#[trigger] self.leds@[i]) == (Led {
                        color: if (exists|j: int|
                            0 <= j < k + 1 && (#[trigger] settings@[j]) == (i as usize, true)) {
                            old(self).base_color
                        } else {
                            black()
                        },
                        ..old(self).leds@[i]
                    }) by {
                        assert(!((settings@[k as int]) == (i as usize, true)));
                    }
                }
            }
            k = k + 1;
        }
        Ok(())
    }

    /// Disable one LED; it keeps its color but the effects leave it dark.
    pub fn mask_led(&mut self, idx: usize) -> (r: Result<(), ControlError>)
        requires
            old(self).wf(),
        ensures
            final(self).wf(),
            r is Ok <==> idx < old(self).leds@.len(),
            r is Err ==> *final(self) == *old(self),
            r is Ok ==> {
                &&& AppState::same_but_leds(*old(self), *final(self))
                &&& final(self).leds@ == old(self).leds@.update(
                    idx as int,
                    (Led { enabled: false, ..old(self).leds@[idx as int] }),
                )
            },
    {
        if idx >= self.leds.len() {
            return Err(ControlError::InvalidIndex);
        }
        self.leds[idx].enabled = false;
        Ok(())
    }

    /// Enable one LED again.
    pub fn unmask_led(&mut self, idx: usize) -> (r: Result<(), ControlError>)
        requires
            old(self).wf(),
        ensures
            final(self).wf(),
            r is Ok <==> idx < old(self).leds@.len(),
            r is Err ==> *final(self) == *old(self),
            r is Ok ==> {
                &&& AppState::same_but_leds(*old(self), *final(self))
                &&& final(self).leds@ == old(self).leds@.update(
                    idx as int,
                    (Led { enabled: true, ..old(self).leds@[idx as int] }),
                )
            },
    {
        if idx >= self.leds.len() {
            return Err(ControlError::InvalidIndex);
        }
        self.leds[idx].enabled = true;
        Ok(())
    }

    /// Enable every LED.
    pub fn unmask_all(&mut self)
        requires
            old(self).wf(),
        ensures
            final(self).wf(),
            AppState::same_but_leds(*old(self), *final(self)),
            final(self).leds@.len() == old(self).leds@.len(),
            forall|i: int|
                0 <= i < old(self).leds@.len() ==> (#[trigger] final(self).leds@[i]) == (Led {
                    enabled: true,
                    ..old(self).leds@[i]
                }),
    {
        let n = self.leds.len();
        let mut i: usize = 0;
        while i < n
            invariant
                old(self).wf(),
                i <= n,
                n == self.leds@.len(),
                AppState::same_but_leds(*old(self), *self),
                forall|j: int|
                    0 <= j < n ==> (#[trigger] self.leds@[j]) == (Led {
                        enabled: j < i || old(self).leds@[j].enabled,
                        ..old(self).leds@[j]
                    }),
            decreases n - i,
        {
            self.leds[i].enabled = true;
            i = i + 1;
        }
    }

    /// Replace the base color with three channel values.
    pub fn set_basecolor(&mut self, r: u8, g: u8, b: u8)
        requires
            old(self).wf(),
        ensures
            final(self).wf(),
            final(self).base_color == (Rgb { r, g, b }),
            final(self).leds@ == old(self).leds@,
            final(self).effect == old(self).effect,
            final(self).effect_start_ms == old(self).effect_start_ms,
            final(self).sweeping_plane_z@ == old(self).sweeping_plane_z@,
            final(self).sweeping_plane_hue == old(self).sweeping_plane_hue,
            final(self).concentric_color_hue == old(self).concentric_color_hue,
            final(self).ticks == old(self).ticks,
    {
        self.base_color = Rgb { r, g, b };
    }

    /// Replace the calibrated position of each listed LED.  Rejected without
    /// mutation when any index is out of range.
    pub fn set_led_positions(&mut self, entries: &Vec<(usize, Vec3)>) -> (r: Result<
        (),
        ControlError,
    >)
        requires
            old(self).wf(),
            forall|k: int| 0 <= k < entries@.len() ==> pos_ok((#[trigger] entries@[k]).1),
        ensures
            final(self).wf(),
            r is Ok <==> (forall|k: int|
                0 <= k < entries@.len() ==> (#[trigger] entries@[k]).0 < old(self).leds@.len()),
            r is Err ==> *final(self) == *old(self),
            r is Ok ==> {
                &&& AppState::same_but_leds(*old(self), *final(self))
                &&& final(self).leds@.len() == old(self).leds@.len()
                &&& forall|i: int|
                    0 <= i < old(self).leds@.len() ==> ((#[trigger] final(self).leds@[i]).enabled
                        == old(self).leds@[i].enabled && final(self).leds@[i].color == old(
                        self,
                    ).leds@[i].color && final(self).leds@[i].actual_position == old(
                        self,
                    ).leds@[i].actual_position)
                &&& forall|i: int|
                    0 <= i < old(self).leds@.len() && (forall|k: int|
                        0 <= k < entries@.len() ==> (#[trigger] entries@[k]).0 != i) ==> (
                    #[trigger] final(self).leds@[i]).determined_position == old(
                        self,
                    ).leds@[i].determined_position
                &&& forall|k: int|
                    0 <= k < entries@.len() && (forall|j: int|
                        k < j < entries@.len() ==> (#[trigger] entries@[j]).0
                            != entries@[k].0) ==> (#[trigger] final(self).leds@[entries@[k].0
                        as int]).determined_position == entries@[k].1
            },
    {
        let n = self.leds.len();
        let mut k: usize = 0;
        while k < entries.len()
            invariant
                old(self).wf(),
                *self == *old(self),
                k <= entries@.len(),
                n == self.leds@.len(),
                forall|j: int| 0 <= j < k ==> (#[trigger] entries@[j]).0 < n,
            decreases entries@.len() - k,
        {
            if entries[k].0 >= n {
                return Err(ControlError::InvalidIndex);
            }
            k = k + 1;
        }
        let ghost pre = *self;
        let mut k: usize = 0;
        while k < entries.len()
            invariant
                old(self).wf(),
                pre == *old(self),
                k <= entries@.len(),
                n == self.leds@.len(),
                forall|j: int| 0 <= j < entries@.len() ==> (#[trigger] entries@[j]).0 < n,
                forall|j: int| 0 <= j < entries@.len() ==> pos_ok((#[trigger] entries@[j]).1),
                AppState::same_but_leds(*old(self), *self),
                forall|i: int|
                    0 <= i < n ==> ((#[trigger] self.leds@[i]).enabled == pre.leds@[i].enabled
                        && self.leds@[i].color == pre.leds@[i].color
                        && self.leds@[i].actual_position == pre.leds@[i].actual_position),
                forall|i: int| 0 <= i < n ==> pos_ok((#[trigger] self.leds@[i]).determined_position),
                forall|i: int|
                    0 <= i < n && (forall|j: int| 0 <= j < k ==> (#[trigger] entries@[j]).0 != i)
                        ==> (#[trigger] self.leds@[i]).determined_position
                        == pre.leds@[i].determined_position,
                forall|j: int|
                    0 <= j < k && (forall|j2: int|
                        j < j2 < k ==> (#[trigger] entries@[j2]).0 != entries@[j].0) ==> (
                    #[trigger] self.leds@[entries@[j].0 as int]).determined_position
                        == entries@[j].1,
            decreases entries@.len() - k,
        {
            let (idx, p) = entries[k];
            self.leds[idx].determined_position = p;
            k = k + 1;
        }
        Ok(())
    }

    /// The calibrated position table, by LED index.
    pub fn get_led_positions(&self) -> (out: Vec<Vec3>)
        ensures
            out@.len() == self.leds@.len(),
            forall|i: int|
                0 <= i < out@.len() ==> #[trigger] out@[i] == self.leds@[i].determined_position,
    {
        let mut out: Vec<Vec3> = Vec::new();
        let mut i: usize = 0;
        while i < self.leds.len()
            invariant
                i <= self.leds@.len(),
                out@.len() == i,
                forall|j: int|
                    0 <= j < i ==> #[trigger] out@[j] == self.leds@[j].determined_position,
            decreases self.leds@.len() - i,
        {
            out.push(self.leds[i].determined_position);
            i = i + 1;
        }
        out
    }

    /// Switch the active effect.  Switching always resets the effect timer
    /// to the given clock reading and invalidates the sweep scratch cache.
    pub fn start_effect(&mut self, e: Effect, now_ms: u64)
        requires
            old(self).wf(),
        ensures
            final(self).wf(),
            final(self).effect == e,
            final(self).effect_start_ms == now_ms,
            final(self).sweeping_plane_z@.len() == 0,
            final(self).leds@ == old(self).leds@,
            final(self).base_color == old(self).base_color,
            final(self).sweeping_plane_hue == old(self).sweeping_plane_hue,
            final(self).concentric_color_hue == old(self).concentric_color_hue,
            final(self).ticks == old(self).ticks,
    {
        self.effect = e;
        self.effect_start_ms = now_ms;
        self.sweeping_plane_z = Vec::new();
    }

    /// Stop all animation: no effect, every LED black.
    pub fn stop_effects(&mut self)
        requires
            old(self).wf(),
        ensures
            final(self).wf(),
            final(self).effect == Effect::NoEffect,
            final(self).leds@.len() == old(self).leds@.len(),
            forall|i: int|
                0 <= i < old(self).leds@.len() ==> (#[trigger] final(self).leds@[i]) == (Led {
                    color: black(),
                    ..old(self).leds@[i]
                }),
            final(self).base_color == old(self).base_color,
            final(self).effect_start_ms == old(self).effect_start_ms,
            final(self).sweeping_plane_z@ == old(self).sweeping_plane_z@,
            final(self).sweeping_plane_hue == old(self).sweeping_plane_hue,
            final(self).concentric_color_hue == old(self).concentric_color_hue,
            final(self).ticks == old(self).ticks,
    {
        self.effect = Effect::NoEffect;
        let n = self.leds.len();
        let mut i: usize = 0;
        while i < n
            invariant
                old(self).wf(),
                i <= n,
                n == self.leds@.len(),
                self.effect == Effect::NoEffect,
                self.base_color == old(self).base_color,
                self.effect_start_ms == old(self).effect_start_ms,
                self.sweeping_plane_z@ == old(self).sweeping_plane_z@,
                self.sweeping_plane_hue == old(self).sweeping_plane_hue,
                self.concentric_color_hue == old(self).concentric_color_hue,
                self.ticks == old(self).ticks,
                forall|j: int|
                    0 <= j < n ==> (#[trigger] self.leds@[j]) == (Led {
                        color: if j < i {
                            black()
                        } else {
                            old(self).leds@[j].color
                        },
                        ..old(self).leds@[j]
                    }),
            decreases n - i,
        {
            self.leds[i].color = Rgb { r: 0, g: 0, b: 0 };
            i = i + 1;
        }
    }
}

} // verus!
