use badge_scenes::color::{green, red, rgb};
use badge_scenes::font::{glyph, glyph_pixel_set, is_text_pixel};
use badge_scenes::framebuffer::{Framebuffer, HEIGHT, PIXELS, WIDTH};
use badge_scenes::handoff::{blitter_may_send, renderer_may_draw, FREE, READY, SENDING};
use badge_scenes::laser_font::{is_laser_text_pixel, laser_glyph};
use badge_scenes::laser_leds::{LedFlash, MAX_LEDS};
use badge_scenes::laser_line::draw_laser_line;
use badge_scenes::lasers::{random_edge_point, render_lasers, Beam, LaserState, NAME, NUM_BEAMS};
use badge_scenes::rng::prng;
use badge_scenes::synthwave::{render_synthwave, SynthwaveState};
use badge_scenes::synthwave_leds::{hue_color, next_led_phase, synthwave_leds};
use badge_scenes::trig::isin;

const W: usize = WIDTH as usize;

fn sum(fb: &Framebuffer) -> u64 {
    fb.pixels().iter().map(|&p| p as u64).sum()
}

fn px(fb: &Framebuffer, x: usize, y: usize) -> u16 {
    fb.pixels()[y * W + x]
}

#[test]
fn rgb_packs_and_unpacks_channels() {
    assert_eq!(rgb(31, 0, 28), 0xF81C);
    assert_eq!(rgb(4, 55, 3), 0x26E3);
    assert_eq!(rgb(31, 63, 31), 0xFFFF);
    assert_eq!(rgb(0, 0, 0), 0);
    // Channels too wide for their field lose their high bits.
    assert_eq!(rgb(32, 64, 32), 0);
    assert_eq!(red(0xF81C), 31);
    assert_eq!(green(0xF81C), 0);
    assert_eq!(green(rgb(4, 55, 3)), 55);
    assert_eq!(red(rgb(4, 55, 3)), 4);
}

#[test]
fn isin_reads_the_quarter_wave() {
    assert_eq!(isin(0), 0);
    assert_eq!(isin(64), 49);
    assert_eq!(isin(256), 120);
    assert_eq!(isin(512), 0);
    assert_eq!(isin(768), -120);
    assert_eq!(isin(-256), -120);
    assert_eq!(isin(-1), -3);
    assert_eq!(isin(100), 72);
}

#[test]
fn isin_is_periodic_and_antisymmetric_over_half_a_turn() {
    for a in -3000..3000 {
        assert_eq!(isin(a + 1024), isin(a));
        assert_eq!(isin(a + 512), -isin(a));
        assert!(isin(a) >= -120 && isin(a) <= 120);
    }
}

#[test]
fn glyphs_ignore_case_and_unknown_characters_are_blank() {
    assert_eq!(glyph('A'), Some([0b01110, 0b10001, 0b10001, 0b11111, 0b10001, 0b10001, 0b10001]));
    for c in 'a'..='z' {
        assert_eq!(glyph(c), glyph(c.to_ascii_uppercase()));
    }
    assert_eq!(glyph('?'), None);
    assert_eq!(glyph('7'), Some([0b11111, 0b00001, 0b00010, 0b00100, 0b00100, 0b00100, 0b00100]));
    // The laser scene's D differs from the main font's.
    assert_ne!(laser_glyph('D'), glyph('D'));
    assert_eq!(laser_glyph('k'), laser_glyph('K'));
    assert_eq!(laser_glyph('B'), None);
}

#[test]
fn glyph_pixel_set_reads_bits_left_to_right() {
    let text = b"T?";
    // T's top row is 0b11111, its second row only the middle column.
    for c in 0..5 {
        assert!(glyph_pixel_set(text, 0, c, 0));
    }
    assert!(!glyph_pixel_set(text, 0, 0, 1));
    assert!(glyph_pixel_set(text, 0, 2, 1));
    // Out of range and unknown characters are dark.
    assert!(!glyph_pixel_set(text, 0, 5, 0));
    assert!(!glyph_pixel_set(text, 0, 0, 7));
    assert!(!glyph_pixel_set(text, 1, 0, 0));
    assert!(!glyph_pixel_set(text, 2, 0, 0));
}

#[test]
fn text_layout_scales_and_spaces_glyphs() {
    let text = b"Disobey2026";
    // D's top row is 0b11110 at scale 5, drawn from (7, 40).
    assert!(is_text_pixel(7, 40, 7, 40, 5, 3, text));
    assert!(is_text_pixel(7 + 19, 44, 7, 40, 5, 3, text));
    assert!(!is_text_pixel(7 + 20, 40, 7, 40, 5, 3, text));
    // The gap after the first glyph, and points before or below the line.
    assert!(!is_text_pixel(7 + 26, 45, 7, 40, 5, 3, text));
    assert!(!is_text_pixel(6, 40, 7, 40, 5, 3, text));
    assert!(!is_text_pixel(7, 75, 7, 40, 5, 3, text));
    // Beyond the last glyph.
    assert!(!is_text_pixel(7 + 11 * 28, 40, 7, 40, 5, 3, text));
    // Scale zero draws nothing.
    assert!(!is_text_pixel(7, 40, 7, 40, 0, 3, text));
}

#[test]
fn laser_text_layout() {
    // K's top row is 0b10001 at scale 10, drawn from (45, 50).
    assert!(is_laser_text_pixel(45, 50, 45, 50, 10, &NAME));
    assert!(!is_laser_text_pixel(55, 50, 45, 50, 10, &NAME));
    assert!(is_laser_text_pixel(85, 59, 45, 50, 10, &NAME));
    // The gap of one font pixel between K and A.
    assert!(!is_laser_text_pixel(97, 80, 45, 50, 10, &NAME));
    assert!(!is_laser_text_pixel(45, 120, 45, 50, 10, &NAME));
}

#[test]
fn framebuffer_clips_and_orders_writes() {
    let mut fb = Framebuffer::new();
    assert_eq!(fb.pixels().len(), PIXELS);
    assert_eq!(fb.size(), (320, 170));
    assert_eq!(sum(&fb), 0);
    fb.set(-1, 0, 7);
    fb.set(0, HEIGHT, 7);
    fb.set(WIDTH, 3, 7);
    assert_eq!(sum(&fb), 0);
    fb.set(319, 169, 5);
    assert_eq!(px(&fb, 319, 169), 5);
    fb.draw_pixels(&[(1, 2, 10), (500, 2, 11), (1, 2, 12), (3, 4, 13)]);
    assert_eq!(px(&fb, 1, 2), 12);
    assert_eq!(px(&fb, 3, 4), 13);
    assert_eq!(sum(&fb), 5 + 12 + 13);
    fb.fill(9);
    assert!(fb.pixels().iter().all(|&p| p == 9));
}

#[test]
fn synthwave_first_frame() {
    let mut fb = Framebuffer::new();
    let mut state = SynthwaveState::new();
    assert_eq!(state.scroll(), 0);
    render_synthwave(&mut fb, 0, &mut state);
    assert_eq!(state.scroll(), 6);
    // Top of the sky, the horizon, the dashed centre line, the title.
    assert_eq!(px(&fb, 0, 0), 0x0803);
    assert_eq!(px(&fb, 0, 75), 0xF81C);
    assert_eq!(px(&fb, 319, 75), 0xF81C);
    assert_eq!(px(&fb, 160, 76), 0xFFFF);
    assert_eq!(px(&fb, 7, 40), 0xF81C);
    assert_eq!(px(&fb, 160, 60), 0xF42B);
    // A stripe of the sun, where the sky shows through.
    assert_eq!(px(&fb, 160, 62), px(&fb, 0, 62));
    assert_eq!(px(&fb, 160, 62), 0xA031);
    assert_eq!(px(&fb, 100, 100), 0x0842);
    assert_eq!(sum(&fb), 996805798);
}

#[test]
fn synthwave_second_frame_scrolls() {
    let mut fb = Framebuffer::new();
    let mut state = SynthwaveState::new();
    render_synthwave(&mut fb, 0, &mut state);
    render_synthwave(&mut fb, 1, &mut state);
    assert_eq!(state.scroll(), 12);
    assert_eq!(sum(&fb), 994680585);
}

#[test]
fn synthwave_leds_pulse_from_the_middle() {
    let c = synthwave_leds(10, 0);
    assert_eq!(c.len(), 10);
    assert_eq!(c[4], (0, 32, 8));
    assert_eq!(c[5], (0, 19, 20));
    for i in [0, 1, 2, 3, 6, 7, 8, 9] {
        assert_eq!(c[i], (0, 0, 0));
    }
    assert_eq!(next_led_phase(0), 248);
    assert_eq!(next_led_phase(248), 240);
    // Mirror-image LEDs of an even strip light up together.
    for phase in 0..256 {
        let c = synthwave_leds(12, phase);
        for i in 0..6 {
            assert_eq!(c[i] == (0, 0, 0), c[11 - i] == (0, 0, 0));
        }
    }
    assert!(synthwave_leds(0, 5).is_empty());
}

#[test]
fn prng_is_xorshift_and_treats_zero_as_one() {
    assert_eq!(prng(0), 270369);
    assert_eq!(prng(1), 270369);
    assert_eq!(prng(54321), 1247401778);
    let mut x = 0u32;
    for _ in 0..10000 {
        x = prng(x);
        assert_ne!(x, 0);
    }
}

#[test]
fn random_edge_points_lie_just_off_the_screen() {
    let mut rng = 54321u32;
    assert_eq!(random_edge_point(&mut rng), (-5, 23));
    assert_eq!(rng, 1732920013);
    for _ in 0..1000 {
        let (x, y) = random_edge_point(&mut rng);
        let horizontal = (0..WIDTH).contains(&x) && (y == -5 || y == HEIGHT + 5);
        let vertical = (0..HEIGHT).contains(&y) && (x == -5 || x == WIDTH + 5);
        assert!(horizontal || vertical);
    }
}

#[test]
fn laser_line_adds_green_with_glow() {
    let mut fb = Framebuffer::new();
    draw_laser_line(&mut fb, 10, 10, 20, 10, 255);
    assert_eq!(px(&fb, 15, 10), rgb(8, 63, 0));
    assert_eq!(px(&fb, 15, 11), rgb(2, 21, 0));
    assert_eq!(px(&fb, 15, 9), rgb(2, 21, 0));
    assert_eq!(px(&fb, 20, 10), rgb(8, 63, 0));
    assert_eq!(px(&fb, 21, 10), 0);
    assert_eq!(px(&fb, 9, 10), 0);
    assert_eq!(sum(&fb), 307296);

    let mut fb = Framebuffer::new();
    draw_laser_line(&mut fb, -5, 13, 325, 136, 180);
    assert_eq!(sum(&fb), 5324800);

    // Light adds up and saturates; blue is cleared where a line passes.
    let mut fb = Framebuffer::new();
    fb.fill(rgb(30, 60, 31));
    draw_laser_line(&mut fb, 0, 0, 0, 0, 255);
    assert_eq!(px(&fb, 0, 0), rgb(31, 63, 0));
    assert_eq!(px(&fb, 1, 0), rgb(31, 63, 0));
    assert_eq!(px(&fb, 2, 0), rgb(30, 60, 31));
}

#[test]
fn laser_scene_first_frames() {
    let mut fb = Framebuffer::new();
    let mut state = LaserState::new();
    assert_eq!(state.rng(), 54321);
    let fires = render_lasers(&mut fb, 0, &mut state);
    assert_eq!(fires, 3);
    assert_eq!(state.rng(), 650705143);
    let b: Beam = state.beam(3);
    assert!(b.active);
    assert_eq!((b.x0, b.y0, b.x1, b.y1, b.birth), (206, 175, 10, -5, 0));
    let active: Vec<usize> = (0..NUM_BEAMS).filter(|&i| state.beam(i).active).collect();
    assert_eq!(active, vec![3, 5, 10]);
    assert_eq!(sum(&fb), 79776644);
    // The title is bright green and opaque.
    assert_eq!(px(&fb, 45, 50), rgb(4, 55, 3));

    let fires = render_lasers(&mut fb, 1, &mut state);
    assert_eq!(fires, 1);
    assert_eq!(state.rng(), 1434823761);
    assert_eq!(sum(&fb), 83819844);

    let fires = render_lasers(&mut fb, 2, &mut state);
    assert_eq!(fires, 0);
    assert_eq!(state.rng(), 1454257190);
    assert_eq!(sum(&fb), 83820420);
}

#[test]
fn laser_beams_retire_after_their_life() {
    let mut fb = Framebuffer::new();
    let mut state = LaserState::new();
    for frame in 0..100u32 {
        let fires = render_lasers(&mut fb, frame, &mut state);
        assert!(fires as usize <= NUM_BEAMS);
        for i in 0..NUM_BEAMS {
            let b = state.beam(i);
            if b.active {
                assert!(frame.wrapping_sub(b.birth) <= 15);
                let d = (b.x1 - b.x0) * (b.x1 - b.x0) + (b.y1 - b.y0) * (b.y1 - b.y0);
                assert!(d > 10000);
                assert!(edge(b.x0, b.y0) != edge(b.x1, b.y1));
            }
        }
        assert_eq!(px(&fb, 45, 50), rgb(4, 55, 3));
    }
}

#[test]
fn led_flashes_start_and_fade() {
    let mut leds = LedFlash::new();
    let dark = leds.tick(10, 0);
    assert_eq!(dark, vec![(0, 0, 0); 10]);
    let c = leds.tick(10, 1);
    let mut expected = vec![(0, 0, 0); 10];
    expected[5] = (8, 105, 0);
    assert_eq!(c, expected);
    let c = leds.tick(10, 0);
    expected[5] = (5, 70, 0);
    assert_eq!(c, expected);
    let c = leds.tick(10, 0);
    expected[5] = (2, 35, 0);
    assert_eq!(c, expected);
    let c = leds.tick(10, 0);
    expected[5] = (0, 0, 0);
    assert_eq!(c, expected);
    let c = leds.tick(MAX_LEDS, 0);
    assert_eq!(c.len(), MAX_LEDS);
}

#[test]
fn title_lies_within_its_line() {
    let text = b"Disobey2026";
    for y in 0..HEIGHT {
        for x in 0..WIDTH {
            if is_text_pixel(x, y, 7, 40, 5, 3, text) {
                assert!(x >= 7 && x < 7 + 11 * 28);
                assert!(y >= 40 && y < 75);
            }
        }
    }
}

#[test]
fn sky_brightens_toward_the_horizon_and_neon_rows_hold() {
    let mut fb = Framebuffer::new();
    let mut state = SynthwaveState::new();
    render_synthwave(&mut fb, 7, &mut state);
    // Column 0 shows only sky above the horizon.
    let mut last = (0, 0);
    for y in 0..75 {
        let c = px(&fb, 0, y);
        let now = (red(c), c & 0x1f);
        assert!(now.0 >= last.0 && now.1 >= last.1);
        last = now;
    }
    assert_eq!(px(&fb, 0, 0), rgb(1, 0, 3));
    assert_eq!(px(&fb, 0, 74), rgb(24, 1, 19));
    for x in 0..W {
        assert_eq!(px(&fb, x, 75), rgb(31, 0, 28));
    }
    // The centre line is dashed white and near-black.
    for y in 76..170 {
        for x in 159..162 {
            let c = px(&fb, x, y);
            assert!(c == rgb(31, 63, 31) || c == rgb(1, 3, 3));
        }
    }
}

#[test]
fn laser_line_stays_near_its_box() {
    let mut fb = Framebuffer::new();
    draw_laser_line(&mut fb, 40, 30, 90, 100, 200);
    for y in 0..HEIGHT as usize {
        for x in 0..W {
            let inside = (39..=91).contains(&x) && (29..=101).contains(&y);
            if !inside {
                assert_eq!(px(&fb, x, y), 0);
            }
        }
    }
    // Both ends are lit.
    assert_ne!(px(&fb, 40, 30), 0);
    assert_ne!(px(&fb, 90, 100), 0);
}

#[test]
fn led_flashes_last_three_to_seven_ticks() {
    let mut leds = LedFlash::new();
    for round in 0..200 {
        let c = leds.tick(10, 1);
        for &(r, g, b) in &c {
            assert_eq!(b, 0);
            if g > 0 {
                assert!(g <= 245 && g >= 35);
                assert_eq!(r, g / 12);
            }
        }
        // Without new fires every flash has ended within seven ticks.
        if round % 20 == 19 {
            for _ in 0..7 {
                leds.tick(10, 0);
            }
            assert_eq!(leds.tick(10, 0), vec![(0, 0, 0); 10]);
        }
    }
}

#[test]
fn sun_is_striped_above_the_horizon() {
    let mut fb = Framebuffer::new();
    let mut state = SynthwaveState::new();
    render_synthwave(&mut fb, 3, &mut state);
    let text = b"Disobey2026";
    let mut through = 0;
    for y in 25..75i32 {
        let sky = px(&fb, 0, y as usize);
        for x in 115..206i32 {
            let inside = (x - 160) * (x - 160) + (y - 70) * (y - 70) <= 45 * 45;
            if inside && !is_text_pixel(x, y, 7, 40, 5, 3, text) && px(&fb, x as usize, y as usize) == sky {
                through += 1;
                // Stripes only cut the lower third of the visible disc.
                assert!(y > 25 + 33);
            }
        }
    }
    assert_eq!(through, 393);
    // Peach at the top of the sun.
    assert_eq!(px(&fb, 160, 25), rgb(31, 50, 16));
}

#[test]
fn led_rainbow_wheel_and_cycle() {
    assert_eq!(hue_color(0), (255, 0, 0));
    assert_eq!(hue_color(85), (0, 255, 0));
    assert_eq!(hue_color(170), (0, 0, 255));
    assert_eq!(hue_color(255), (255, 0, 0));
    assert_eq!(hue_color(102), (0, 204, 51));
    for h in 0..256 {
        let (r, g, b) = hue_color(h);
        assert_eq!(r + g + b, 255);
    }
    assert_eq!(
        synthwave_leds(10, 16),
        vec![(32, 7, 0), (0, 0, 0), (0, 0, 0), (0, 0, 0), (0, 14, 9), (0, 7, 16), (0, 0, 0), (0, 0, 0), (0, 0, 0), (35, 0, 4)]
    );
    assert_eq!(synthwave_leds(4, 0), vec![(0, 0, 0), (9, 30, 0), (0, 19, 20), (0, 0, 0)]);
    // Over a cycle of 32 frames the strip shows many different colours.
    let mut seen: Vec<(u8, u8, u8)> = Vec::new();
    let mut phase = 0u32;
    for _ in 0..32 {
        for c in synthwave_leds(10, phase) {
            if c != (0, 0, 0) && !seen.contains(&c) {
                seen.push(c);
            }
        }
        phase = next_led_phase(phase);
    }
    assert_eq!(seen.len(), 48);
}

#[test]
fn frame_handoff_codes() {
    assert!(renderer_may_draw(FREE));
    assert!(!renderer_may_draw(READY));
    assert!(!renderer_may_draw(SENDING));
    assert!(blitter_may_send(READY));
    assert!(!blitter_may_send(FREE));
    assert!(!blitter_may_send(SENDING));
}

fn edge(x: i32, y: i32) -> u8 {
    if y == -5 {
        0
    } else if y == HEIGHT + 5 {
        1
    } else if x == -5 {
        2
    } else {
        assert_eq!(x, WIDTH + 5);
        3
    }
}

#[test]
fn beams_never_run_along_one_edge() {
    let mut fb = Framebuffer::new();
    let mut state = LaserState::new();
    let mut total = 0;
    for frame in 0..200u32 {
        total += render_lasers(&mut fb, frame, &mut state);
        if frame == 9 {
            // Slot 8 rolled two bottom-edge points here, far apart: rejected.
            let b = state.beam(8);
            assert!(!(b.active && b.birth == 9));
        }
    }
    assert_eq!(total, 70);
    assert_eq!(state.rng(), 3183509753);
}

#[test]
fn laser_line_with_far_ends() {
    // Ends far off the screen: the line never reaches it within its steps.
    let mut fb = Framebuffer::new();
    draw_laser_line(&mut fb, -(1 << 28), 50, 1 << 28, 50, 255);
    assert_eq!(sum(&fb), 0);
    // Starting on the screen, the first 981 points cross it.
    let mut fb = Framebuffer::new();
    draw_laser_line(&mut fb, 0, 85, 1 << 28, 85, 255);
    for x in 0..W {
        assert_eq!(px(&fb, x, 85), rgb(8, 63, 0));
        assert_eq!(px(&fb, x, 84), rgb(2, 21, 0));
    }
    // The widest ends the arithmetic allows.
    let mut fb = Framebuffer::new();
    draw_laser_line(&mut fb, -(1 << 28), -(1 << 28), 1 << 28, 1 << 28, 255);
    assert_eq!(sum(&fb), 0);
}

#[test]
fn synthwave_led_phase_repeats_every_32_frames() {
    let mut phase = 0u32;
    for k in 0..100u32 {
        assert_eq!(phase, (256 - (8 * k) % 256) % 256);
        for c in synthwave_leds(10, phase) {
            assert!(c.0 <= 40 && c.1 <= 40 && c.2 <= 40);
        }
        phase = next_led_phase(phase);
    }
}

#[test]
fn text_depends_only_on_offset() {
    let text = b"Disobey2026";
    for (px, py) in [(7, 40), (30, 44), (100, 60), (8, 41)] {
        for (dx, dy) in [(-7, -40), (100, 3), (-50, 90)] {
            assert_eq!(
                is_text_pixel(px + dx, py + dy, 7 + dx, 40 + dy, 5, 3, text),
                is_text_pixel(px, py, 7, 40, 5, 3, text)
            );
        }
    }
}

#[test]
fn ground_is_mirrored_about_the_road() {
    let mut fb = Framebuffer::new();
    let mut state = SynthwaveState::new();
    render_synthwave(&mut fb, 7, &mut state);
    for y in 76..HEIGHT as usize {
        for dx in 1..160 {
            assert_eq!(px(&fb, 160 + dx, y), px(&fb, 160 - dx, y));
        }
    }
}

#[test]
fn isin_rises_over_the_first_quarter() {
    assert_eq!(isin(0), 0);
    assert_eq!(isin(256), 120);
    for a in 0..256 {
        assert!(isin(a) <= isin(a + 1));
    }
}

#[test]
fn prng_keeps_nonzero_seeds_apart() {
    let mut next: Vec<u32> = (1..3000u32).map(prng).collect();
    next.sort();
    next.dedup();
    assert_eq!(next.len(), 2999);
}
