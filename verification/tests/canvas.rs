use cornice::canvas::Canvas;
use cornice::geom::{Color, Rect};

fn canvas(w: i32, h: i32) -> Vec<u8> {
    vec![0u8; (w * h * 4) as usize]
}

fn px(data: &[u8], w: i32, x: i32, y: i32) -> [u8; 4] {
    let i = ((y * w + x) * 4) as usize;
    [data[i], data[i + 1], data[i + 2], data[i + 3]]
}

#[test]
fn fill_rect_writes_and_clamps() {
    let mut buf = canvas(4, 4);
    {
        let mut c = Canvas::new(&mut buf, 4, 4);
        c.fill_rect(Rect::new(1, 1, 2, 2), Color::rgba(255, 0, 0, 255));
    }
    assert_eq!(px(&buf, 4, 1, 1), [0, 0, 255, 255]);
    assert_eq!(px(&buf, 4, 0, 0), [0, 0, 0, 0]);
    {
        let mut c = Canvas::new(&mut buf, 4, 4);
        c.fill_rect(Rect::new(-5, -5, 100, 100), Color::rgba(0, 255, 0, 255));
    }
    assert_eq!(px(&buf, 4, 3, 3), [0, 255, 0, 255]);
}

#[test]
fn rounded_rect_leaves_corners_transparent() {
    let mut buf = canvas(8, 8);
    let mut c = Canvas::new(&mut buf, 8, 8);
    c.fill_rounded_rect(Rect::new(0, 0, 8, 8), 4, Color::rgba(255, 255, 255, 255));
    assert_eq!(px(&buf, 8, 0, 0), [0, 0, 0, 0], "the top-left corner should be empty");
    assert_eq!(px(&buf, 8, 7, 7), [0, 0, 0, 0], "the bottom-right corner should be empty");
    assert_eq!(px(&buf, 8, 4, 4), [255, 255, 255, 255], "the centre should be solid");
    assert_eq!(px(&buf, 8, 0, 4), [255, 255, 255, 255], "the left edge midpoint should be solid");
}

#[test]
fn corners_are_continuous_not_circular() {
    let mut buf = canvas(8, 8);
    {
        let mut c = Canvas::new(&mut buf, 8, 8);
        c.fill_rounded_rect(Rect::new(0, 0, 8, 8), 4, Color::rgba(255, 255, 255, 255));
    }
    assert_eq!(px(&buf, 8, 1, 0), [255, 255, 255, 255], "the shoulder must follow the superellipse, not the arc");
    assert_eq!(px(&buf, 8, 0, 0), [0, 0, 0, 0], "the corner tip stays empty");
    assert_eq!(px(&buf, 8, 4, 0), [255, 255, 255, 255], "the edge keeps its full extent");
}

#[test]
fn blend_accumulates_alpha() {
    let mut buf = canvas(2, 2);
    let mut c = Canvas::new(&mut buf, 2, 2);
    c.fill_rect(Rect::new(0, 0, 1, 1), Color::rgba(255, 255, 255, 255));
    c.fill_rect(Rect::new(0, 0, 1, 1), Color::rgba(0, 0, 0, 128));
    let [b, g, r, a] = px(&buf, 2, 0, 0);
    assert_eq!(a, 255);
    for (name, c) in [("r", r), ("g", g), ("b", b)] {
        assert!((c as i32 - 127).abs() <= 1, "{name} should be about 127, got {c}");
    }
}

#[test]
fn src_over_blend_is_exact() {
    // 255 + ... capped: white over white stays white; black at 128 over white: 0 + 255 * 127 / 255 = 127.
    let mut buf = canvas(1, 1);
    {
        let mut c = Canvas::new(&mut buf, 1, 1);
        c.fill_rect(Rect::new(0, 0, 1, 1), Color::rgba(255, 255, 255, 255));
        c.fill_rect(Rect::new(0, 0, 1, 1), Color::rgba(0, 0, 0, 128));
    }
    assert_eq!(px(&buf, 1, 0, 0), [127, 127, 127, 255]);
}

#[test]
fn transparent_colour_changes_nothing() {
    let mut buf = vec![9u8; 16];
    {
        let mut c = Canvas::new(&mut buf, 2, 2);
        c.fill_rect(Rect::new(0, 0, 2, 2), Color::rgba(255, 0, 0, 0));
    }
    assert!(buf.iter().all(|b| *b == 9));
}

#[test]
fn clear_zeroes_the_buffer() {
    let mut buf = vec![7u8; 16];
    {
        let mut c = Canvas::new(&mut buf, 2, 2);
        c.clear();
    }
    assert!(buf.iter().all(|b| *b == 0));
}

#[test]
fn clip_limits_writes() {
    let mut buf = canvas(4, 4);
    {
        let mut c = Canvas::new(&mut buf, 4, 4);
        c.set_clip(Some(Rect::new(0, 0, 2, 4)));
        c.fill_rect(Rect::new(0, 0, 4, 4), Color::rgba(0, 0, 255, 255));
        c.set_clip(None);
        c.fill_rect(Rect::new(3, 3, 1, 1), Color::rgba(0, 255, 0, 255));
    }
    assert_eq!(px(&buf, 4, 1, 2), [255, 0, 0, 255]);
    assert_eq!(px(&buf, 4, 2, 2), [0, 0, 0, 0]);
    assert_eq!(px(&buf, 4, 3, 3), [0, 255, 0, 255]);
}

#[test]
fn zero_radius_is_a_plain_rect_and_radius_is_capped() {
    let mut a = canvas(6, 6);
    let mut b = canvas(6, 6);
    {
        let mut c = Canvas::new(&mut a, 6, 6);
        c.fill_rounded_rect(Rect::new(1, 1, 4, 4), 0, Color::rgba(255, 255, 255, 255));
    }
    {
        let mut c = Canvas::new(&mut b, 6, 6);
        c.fill_rect(Rect::new(1, 1, 4, 4), Color::rgba(255, 255, 255, 255));
    }
    assert_eq!(a, b);
    let mut d = canvas(8, 8);
    let mut e = canvas(8, 8);
    {
        let mut c = Canvas::new(&mut d, 8, 8);
        c.fill_rounded_rect(Rect::new(0, 0, 8, 8), 100, Color::rgba(255, 255, 255, 255));
    }
    {
        let mut c = Canvas::new(&mut e, 8, 8);
        c.fill_rounded_rect(Rect::new(0, 0, 8, 8), 4, Color::rgba(255, 255, 255, 255));
    }
    assert_eq!(d, e, "a radius past half the short side is capped");
}

#[test]
fn empty_rounded_rect_draws_nothing() {
    let mut buf = canvas(4, 4);
    {
        let mut c = Canvas::new(&mut buf, 4, 4);
        c.fill_rounded_rect(Rect::new(0, 0, 0, 4), 2, Color::rgba(255, 255, 255, 255));
    }
    assert!(buf.iter().all(|b| *b == 0));
}

#[test]
fn empty_rects_and_far_clips_draw_nothing() {
    let mut buf = canvas(4, 4);
    {
        let mut c = Canvas::new(&mut buf, 4, 4);
        c.fill_rect(Rect::new(i32::MAX - 1, 0, 10, 0), Color::rgba(255, 0, 0, 255));
        c.fill_rounded_rect(Rect::new(i32::MAX - 1, 0, 10, -3), 2, Color::rgba(255, 0, 0, 255));
        c.set_clip(Some(Rect::new(10, 0, i32::MAX, 10)));
        c.fill_rect(Rect::new(0, 0, 4, 4), Color::rgba(255, 0, 0, 255));
    }
    assert!(buf.iter().all(|b| *b == 0));
}

#[test]
fn a_canvas_of_negative_size_draws_nothing() {
    let mut buf = canvas(2, 2);
    {
        let mut c = Canvas::new(&mut buf, -3, 2);
        c.fill_rect(Rect::new(0, 0, 2, 2), Color::rgba(255, 0, 0, 255));
    }
    assert!(buf.iter().all(|b| *b == 0));
}
