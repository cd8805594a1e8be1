use gradblame::color::{palette, Rgb, PALETTE_LEN};
use gradblame::gradient::{get_grad, Gradient};

fn rgb(r: u8, g: u8, b: u8) -> Rgb {
    Rgb::new(r, g, b)
}

#[test]
fn gradient_has_one_color_per_step() {
    let grad = get_grad(&rgb(0x70, 0xc0, 0xb1), &rgb(0xc5, 0xc8, 0xc6), 3);
    assert_eq!(grad.len(), 3);
}

#[test]
fn gradient_three_steps_exact_values() {
    let grad = get_grad(&rgb(0x70, 0xc0, 0xb1), &rgb(0xc5, 0xc8, 0xc6), 3);
    assert_eq!(grad[0], rgb(140, 194, 184));
    assert_eq!(grad[1], rgb(168, 197, 191));
    assert_eq!(grad[2], rgb(197, 200, 198));
}

#[test]
fn gradient_last_step_is_end_color() {
    let start = rgb(10, 250, 128);
    let end = rgb(240, 3, 77);
    for steps in [1u32, 2, 5, 41] {
        let grad = get_grad(&start, &end, steps);
        assert_eq!(grad[steps as usize - 1], end);
    }
}

#[test]
fn gradient_channels_move_monotonically_toward_end() {
    let start = rgb(10, 250, 128);
    let end = rgb(240, 3, 128);
    let grad = get_grad(&start, &end, 17);
    for w in grad.windows(2) {
        assert!(w[0].r <= w[1].r && w[1].r <= end.r);
        assert!(w[0].g >= w[1].g && w[1].g >= end.g);
        assert_eq!(w[0].b, 128);
    }
    assert!(start.r <= grad[0].r);
    assert!(start.g >= grad[0].g);
}

#[test]
fn gradient_zero_steps_is_empty() {
    let start = rgb(1, 2, 3);
    let end = rgb(4, 5, 6);
    assert_eq!(get_grad(&start, &end, 0).len(), 0);
    let g = Gradient::build(start, end, 0);
    assert_eq!(g.len(), 0);
    assert_eq!(g.at(0), end);
    assert_eq!(g.at(7), end);
}

#[test]
fn gradient_at_falls_back_to_end_when_out_of_range() {
    let start = rgb(0, 0, 0);
    let end = rgb(200, 100, 50);
    let g = Gradient::build(start, end, 4);
    assert_eq!(g.at(3), end);
    assert_eq!(g.at(4), end);
    assert_eq!(g.at(usize::MAX), end);
}

#[test]
fn gradient_at_returns_element_in_range() {
    let start = rgb(0x70, 0xc0, 0xb1);
    let end = rgb(0xc5, 0xc8, 0xc6);
    let g = Gradient::build(start, end, 3);
    assert_eq!(g.at(0), rgb(140, 194, 184));
    assert_eq!(g.at(1), rgb(168, 197, 191));
}

#[test]
fn palette_wraps_out_of_range_to_first_entry() {
    let first = palette(0);
    assert_eq!(palette(PALETTE_LEN), first);
    assert_eq!(palette(usize::MAX), first);
    assert_ne!(palette(1), first);
}

#[test]
fn palette_first_entry_matches_table() {
    let e = palette(0);
    assert_eq!(e.back_start, rgb(0x70, 0xc0, 0xb1));
    assert_eq!(e.back_end, rgb(0xc5, 0xc8, 0xc6));
    assert_eq!(e.fore, rgb(0x3c, 0x3e, 0x3f));
}
