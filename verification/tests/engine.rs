use led_sim::color::{hue_to_rgb, Rgb};
use led_sim::effects::update_effects;
use led_sim::geometry::{generate_cone_leds, Vec3};
use led_sim::state::{AppState, ControlError, Effect};
use led_sim::sync::confirmation_done;
use led_sim::trig::{cos_milli, sin_milli};

fn black() -> Rgb {
    Rgb { r: 0, g: 0, b: 0 }
}

#[test]
fn all_on_end_to_end() {
    // Start with ten LEDs, select AllOn with base color (10, 20, 30): after
    // one tick every enabled LED shows exactly that color; stop forces every
    // LED black and the effect off.
    let mut s = AppState::new(10);
    s.start_effect(Effect::AllOn, 0);
    s.set_basecolor(10, 20, 30);
    s.tick(5);
    for led in &s.leds {
        assert!(led.enabled);
        assert_eq!(led.color, Rgb { r: 10, g: 20, b: 30 });
    }
    s.stop_effects();
    assert_eq!(s.effect, Effect::NoEffect);
    for led in &s.leds {
        assert_eq!(led.color, black());
    }
}

#[test]
fn blink_parity() {
    let mut s = AppState::new(4);
    s.set_basecolor(9, 8, 7);
    s.start_effect(Effect::Blink, 1_000);
    let base = Rgb { r: 9, g: 8, b: 7 };

    s.tick(1_000); // elapsed 0 s: even, on
    for led in &s.leds {
        assert_eq!(led.color, base);
    }
    s.tick(2_500); // elapsed 1 s: odd, off
    for led in &s.leds {
        assert_eq!(led.color, black());
    }
    s.tick(3_000); // elapsed 2 s: even, on again
    for led in &s.leds {
        assert_eq!(led.color, base);
    }
}

#[test]
fn blink_never_touches_disabled() {
    let mut s = AppState::new(3);
    s.set_basecolor(50, 60, 70);
    s.mask_led(1).unwrap();
    // Give the disabled LED a recognizable color first.
    let wanted: Vec<(usize, bool)> = vec![(0, true), (1, true), (2, true)];
    s.configure_leds(&wanted).unwrap();
    let base = Rgb { r: 50, g: 60, b: 70 };
    assert_eq!(s.leds[1].color, base);

    s.start_effect(Effect::Blink, 0);
    s.tick(0); // on phase
    assert_eq!(s.leds[0].color, base);
    assert_eq!(s.leds[1].color, base); // disabled: untouched
    s.tick(1_500); // off phase
    assert_eq!(s.leds[0].color, black());
    assert_eq!(s.leds[1].color, base); // disabled: still untouched
}

#[test]
fn resize_discards_and_regenerates() {
    let s = AppState::new(50);
    assert_eq!(s.get_num_leds(), 50);
    let bigger = AppState::new(500);
    assert_eq!(bigger.get_num_leds(), 500);
    assert_eq!(bigger.sweeping_plane_z.len(), 0);
    assert_eq!(bigger.effect, Effect::NoEffect);
    for led in &bigger.leds {
        assert!(led.enabled);
        assert_eq!(led.color, black());
        let p = led.actual_position;
        // Cone containment in coordinate ticks (thousandths of a unit):
        // the integer form of sqrt(x^2 + y^2) < 1 - z / 2.5.
        assert!(0 <= p.z && p.z < 2_500);
        assert!(25 * (p.x * p.x + p.y * p.y) < (5_000 - 2 * p.z) * (5_000 - 2 * p.z));
    }
}

#[test]
fn cone_points_are_not_all_equal() {
    // A degenerate randomness source would produce one repeated point.
    let pts = generate_cone_leds(200);
    assert_eq!(pts.len(), 200);
    let first = pts[0];
    assert!(pts.iter().any(|p| *p != first));
}

#[test]
fn sweep_depths_have_min_zero() {
    let mut s = AppState::new(6);
    s.start_effect(Effect::SweepingPlaneZ, 0);
    s.tick(0);
    assert_eq!(s.sweeping_plane_z.len(), 6);
    assert!(s.sweeping_plane_z.iter().all(|d| *d >= 0));
    assert!(s.sweeping_plane_z.iter().any(|d| *d == 0));

    let mut r = AppState::new(6);
    r.start_effect(Effect::SweepingPlane, 0);
    r.tick(0);
    assert_eq!(r.sweeping_plane_z.len(), 6);
    assert!(r.sweeping_plane_z.iter().all(|d| *d >= 0));
    assert!(r.sweeping_plane_z.iter().any(|d| *d == 0));
}

#[test]
fn sweep_cycle_lights_each_led_exactly_once() {
    // Three LEDs whose heights are whole multiples of the band width
    // (200 coordinate ticks = one full band of 0.2 units); ticks advance the
    // plane one band width (200 ms) at a time.  Across one full cycle every
    // enabled LED lights exactly once.
    let mut s = AppState::new(3);
    s.leds[0].actual_position = Vec3 { x: 0, y: 0, z: 0 };
    s.leds[1].actual_position = Vec3 { x: 0, y: 0, z: 200 };
    s.leds[2].actual_position = Vec3 { x: 0, y: 0, z: 400 };
    s.set_basecolor(1, 2, 3);
    let base = Rgb { r: 1, g: 2, b: 3 };
    s.start_effect(Effect::SweepingPlaneZ, 1_000);

    let mut lit_count = [0u32; 3];
    let mut k: u64 = 0;
    loop {
        let now = 1_000 + 200 * k;
        s.tick(now);
        for i in 0..3 {
            if s.leds[i].color == base {
                lit_count[i] += 1;
            }
        }
        if s.effect_start_ms != 1_000 {
            break; // the cycle re-seeded: sweep complete
        }
        k += 1;
        assert!(k < 100, "sweep cycle did not finish");
    }
    assert_eq!(lit_count, [1, 1, 1]);
}

#[test]
fn sweep_skips_disabled_leds() {
    let mut s = AppState::new(2);
    s.leds[0].actual_position = Vec3 { x: 0, y: 0, z: 0 };
    s.leds[1].actual_position = Vec3 { x: 0, y: 0, z: 200 };
    s.mask_led(0).unwrap();
    s.set_basecolor(1, 2, 3);
    let base = Rgb { r: 1, g: 2, b: 3 };
    s.start_effect(Effect::SweepingPlaneZ, 0);
    s.tick(0);
    assert_ne!(s.leds[0].color, base); // disabled: painted black, never lit
    s.tick(200);
    assert_eq!(s.leds[1].color, base);
    assert_eq!(s.leds[0].color, black());
}

#[test]
fn concentric_once_lit_stays_lit() {
    let mut s = AppState::new(2);
    s.leds[0].actual_position = Vec3 { x: 0, y: 0, z: 0 };
    s.leds[1].actual_position = Vec3 { x: 600, y: 0, z: 0 };
    s.start_effect(Effect::ConcentricColor, 0);
    let lit = hue_to_rgb(0); // initial hue is zero

    s.tick(10); // radius 10: only the center LED is inside
    assert_eq!(s.leds[0].color, lit);
    assert_eq!(s.leds[1].color, black());

    s.tick(300); // radius 300: the center LED must stay lit
    assert_eq!(s.leds[0].color, lit);
    assert_eq!(s.leds[1].color, black());

    s.tick(601); // radius 601 covers the far LED (600), and the cycle resets
    assert_eq!(s.leds[0].color, lit);
    assert_eq!(s.leds[1].color, lit);
    assert_eq!(s.effect_start_ms, 601);
    assert!(s.concentric_color_hue < 360);
}

#[test]
fn hue_ramp_exact_values() {
    assert_eq!(hue_to_rgb(0), Rgb { r: 76, g: 0, b: 0 });
    assert_eq!(hue_to_rgb(59), Rgb { r: 76, g: 0, b: 74 });
    assert_eq!(hue_to_rgb(90), Rgb { r: 76, g: 38, b: 0 });
    assert_eq!(hue_to_rgb(150), Rgb { r: 38, g: 76, b: 0 });
    assert_eq!(hue_to_rgb(210), Rgb { r: 0, g: 76, b: 38 });
    assert_eq!(hue_to_rgb(270), Rgb { r: 0, g: 38, b: 76 });
    assert_eq!(hue_to_rgb(300), Rgb { r: 0, g: 0, b: 76 });
}

#[test]
fn trig_exact_points() {
    assert_eq!(sin_milli(0), 0);
    assert_eq!(sin_milli(30), 500);
    assert_eq!(sin_milli(90), 1000);
    assert_eq!(sin_milli(150), 500);
    assert_eq!(sin_milli(180), 0);
    assert_eq!(sin_milli(270), -1000);
    assert_eq!(cos_milli(0), 1000);
    assert_eq!(cos_milli(180), -1000);
}

#[test]
fn invalid_index_is_rejected_without_mutation() {
    let mut s = AppState::new(3);
    assert_eq!(s.mask_led(3), Err(ControlError::InvalidIndex));
    assert_eq!(s.unmask_led(7), Err(ControlError::InvalidIndex));
    assert!(s.leds.iter().all(|l| l.enabled));

    let settings: Vec<(usize, bool)> = vec![(0, true), (5, true)];
    s.set_basecolor(10, 10, 10);
    let before: Vec<Rgb> = s.leds.iter().map(|l| l.color).collect();
    assert_eq!(s.configure_leds(&settings), Err(ControlError::InvalidIndex));
    let after: Vec<Rgb> = s.leds.iter().map(|l| l.color).collect();
    assert_eq!(before, after);

    let entries: Vec<(usize, Vec3)> = vec![(9, Vec3 { x: 1, y: 2, z: 3 })];
    assert_eq!(s.set_led_positions(&entries), Err(ControlError::InvalidIndex));
}

#[test]
fn configure_leds_sets_named_and_blackens_rest() {
    let mut s = AppState::new(4);
    s.set_basecolor(100, 100, 100);
    s.start_effect(Effect::AllOn, 0);
    s.tick(0); // everything base-colored
    let settings: Vec<(usize, bool)> = vec![(1, true), (2, false)];
    s.configure_leds(&settings).unwrap();
    let base = Rgb { r: 100, g: 100, b: 100 };
    assert_eq!(s.leds[0].color, black());
    assert_eq!(s.leds[1].color, base);
    assert_eq!(s.leds[2].color, black());
    assert_eq!(s.leds[3].color, black());
}

#[test]
fn mask_and_unmask() {
    let mut s = AppState::new(3);
    s.mask_led(1).unwrap();
    assert!(!s.leds[1].enabled);
    s.unmask_led(1).unwrap();
    assert!(s.leds[1].enabled);
    s.mask_led(0).unwrap();
    s.mask_led(2).unwrap();
    s.unmask_all();
    assert!(s.leds.iter().all(|l| l.enabled));
}

#[test]
fn position_table_roundtrip() {
    let mut s = AppState::new(3);
    let entries: Vec<(usize, Vec3)> = vec![
        (0, Vec3 { x: 10, y: -20, z: 30 }),
        (2, Vec3 { x: -1_000, y: 0, z: 2_000 }),
    ];
    s.set_led_positions(&entries).unwrap();
    let table = s.get_led_positions();
    assert_eq!(table.len(), 3);
    assert_eq!(table[0], Vec3 { x: 10, y: -20, z: 30 });
    assert_eq!(table[1], Vec3 { x: 0, y: 0, z: 0 });
    assert_eq!(table[2], Vec3 { x: -1_000, y: 0, z: 2_000 });
}

#[test]
fn stale_scratch_self_heals_in_one_tick() {
    let mut s = AppState::new(3);
    s.start_effect(Effect::SweepingPlaneZ, 0);
    s.tick(0);
    assert_eq!(s.sweeping_plane_z.len(), 3);
    // A destructive resize replaces the state wholesale; the fresh scratch
    // is empty (stale) and heals on the next tick.
    let mut s = AppState::new(5);
    s.start_effect(Effect::SweepingPlane, 0);
    assert_eq!(s.sweeping_plane_z.len(), 0);
    s.tick(0);
    assert_eq!(s.sweeping_plane_z.len(), 5);
}

#[test]
fn update_effects_none_keeps_colors() {
    let mut s = AppState::new(3);
    s.set_basecolor(5, 6, 7);
    s.start_effect(Effect::AllOn, 0);
    s.tick(0);
    let colored: Vec<Rgb> = s.leds.iter().map(|l| l.color).collect();
    s.start_effect(Effect::NoEffect, 50);
    update_effects(&mut s, 100);
    let after: Vec<Rgb> = s.leds.iter().map(|l| l.color).collect();
    assert_eq!(colored, after);
}

#[test]
fn confirmation_barrier_counts_two_ticks() {
    assert!(!confirmation_done(5, 5));
    assert!(!confirmation_done(5, 6));
    assert!(confirmation_done(5, 7));
    assert!(confirmation_done(5, 1_000));
    // Near the counter's top the comparison must not wrap around.
    assert!(!confirmation_done(u64::MAX - 1, u64::MAX));
    assert!(!confirmation_done(u64::MAX, 0));
}

#[test]
fn ticks_counter_advances() {
    let mut s = AppState::new(1);
    assert_eq!(s.ticks, 0);
    s.tick(0);
    s.tick(1);
    assert_eq!(s.ticks, 2);
}
