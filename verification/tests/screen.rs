use digital_rain::draw::{render, wrapping_row_div, Draw};
use digital_rain::number_streak::NumberStreak;
use digital_rain::palette::{background, color_ramp, head, tail, Rgb};
use digital_rain::win_size::WinSize;

#[test]
fn wrapping_row_div_without_wrap() {
    assert_eq!(wrapping_row_div(24, 10, 3), 7);
    assert_eq!(wrapping_row_div(24, 10, 10), 0);
    assert_eq!(wrapping_row_div(24, 23, 0), 23);
}

#[test]
fn wrapping_row_div_wraps_to_the_bottom() {
    assert_eq!(wrapping_row_div(24, 0, 1), 23);
    assert_eq!(wrapping_row_div(24, 2, 6), 20);
    assert_eq!(wrapping_row_div(24, 0, 24), 0);
    assert_eq!(wrapping_row_div(5, 3, 4), 4);
}

#[test]
fn wrapping_row_div_stays_inside_the_terminal() {
    for rows in 1..40u16 {
        for lhs in 0..rows {
            for rhs in 0..=rows {
                assert!(wrapping_row_div(rows, lhs, rhs) < rows);
            }
        }
    }
}

#[test]
fn wrapping_row_div_at_the_largest_terminal() {
    assert_eq!(wrapping_row_div(u16::MAX, 65534, 65535), 65534);
    assert_eq!(wrapping_row_div(u16::MAX, 0, 65535), 0);
    assert_eq!(wrapping_row_div(u16::MAX, 60000, 16383), 43617);
}

#[test]
fn palette_constants() {
    assert_eq!(head(), Rgb { r: 5, g: 225, b: 19 });
    assert_eq!(tail(), Rgb { r: 52, g: 61, b: 49 });
    assert_eq!(background(), Rgb { r: 20, g: 20, b: 20 });
}

#[test]
fn color_ramp_has_one_colour_per_cell() {
    for count in 0..40u16 {
        assert_eq!(color_ramp(count).len(), count as usize);
    }
    assert_eq!(color_ramp(u16::MAX).len(), 65535);
}

#[test]
fn color_ramp_runs_from_head_to_tail() {
    assert_eq!(color_ramp(0), vec![]);
    assert_eq!(color_ramp(1), vec![head()]);
    assert_eq!(color_ramp(2), vec![head(), tail()]);
    assert_eq!(
        color_ramp(3),
        vec![head(), Rgb { r: 29, g: 143, b: 34 }, tail()]
    );
    assert_eq!(
        color_ramp(5),
        vec![
            head(),
            Rgb { r: 17, g: 184, b: 27 },
            Rgb { r: 29, g: 143, b: 34 },
            Rgb { r: 40, g: 102, b: 42 },
            tail(),
        ]
    );
}

#[test]
fn color_ramp_begins_with_the_head_and_ends_with_the_tail() {
    for count in 1..400u16 {
        let ramp = color_ramp(count);
        assert_eq!(ramp[0], head());
        if count >= 2 {
            assert_eq!(ramp[count as usize - 1], tail());
        }
    }
    let longest = color_ramp(u16::MAX);
    assert_eq!(longest[0], head());
    assert_eq!(longest[65534], tail());
}

#[test]
fn render_of_an_empty_streak_clears_the_head_cell() {
    let mut streak = NumberStreak::default();
    streak.init((7, 2), 3, 42);
    let colors = color_ramp(3);
    let mut out = Vec::new();
    render(&streak, 10, &colors, &mut out);
    assert_eq!(out, vec![Draw::Clear { row: 2, col: 7 }]);
}

#[test]
fn render_draws_the_trail_from_the_head_back() {
    let mut streak = NumberStreak::default();
    streak.init((7, 9), 3, 42);
    for _ in 0..3 {
        streak.extend(10);
    }
    assert_eq!(streak.row(), 2);
    let colors = color_ramp(3);
    let mut out = vec![Draw::Clear { row: 0, col: 0 }];
    render(&streak, 10, &colors, &mut out);
    assert_eq!(
        out,
        vec![
            Draw::Clear { row: 0, col: 0 },
            Draw::Clear { row: 9, col: 7 },
            Draw::Glyph { row: 2, col: 7, glyph: '9', color: head() },
            Draw::Glyph { row: 1, col: 7, glyph: '7', color: Rgb { r: 29, g: 143, b: 34 } },
            Draw::Glyph { row: 0, col: 7, glyph: 'e', color: tail() },
        ]
    );
}

#[test]
fn render_leaves_out_the_glyphs_that_have_faded() {
    let mut streak = NumberStreak::default();
    streak.init((1, 0), 2, 37);
    for _ in 0..7 {
        streak.extend(4);
    }
    assert_eq!((streak.row(), streak.faded(), streak.visible()), (3, 1, 1));
    let colors = color_ramp(2);
    let mut out = Vec::new();
    render(&streak, 4, &colors, &mut out);
    assert_eq!(
        out,
        vec![
            Draw::Clear { row: 2, col: 1 },
            Draw::Glyph { row: 3, col: 1, glyph: 'f', color: head() },
        ]
    );
}

#[test]
fn render_of_a_dead_streak_clears_the_head_cell() {
    let mut streak = NumberStreak::default();
    streak.init((1, 0), 2, 37);
    for _ in 0..8 {
        streak.extend(4);
    }
    assert!(streak.is_dead());
    let colors = color_ramp(2);
    let mut out = Vec::new();
    render(&streak, 4, &colors, &mut out);
    assert_eq!(out, vec![Draw::Clear { row: 0, col: 1 }]);
}

#[test]
fn render_of_a_fading_streak_of_three() {
    let mut streak = NumberStreak::default();
    streak.init((7, 2), 3, 42);
    for _ in 0..644 {
        streak.extend(10);
    }
    assert_eq!((streak.row(), streak.faded(), streak.visible()), (6, 1, 2));
    let colors = color_ramp(3);
    let mut out = Vec::new();
    render(&streak, 10, &colors, &mut out);
    assert_eq!(
        out,
        vec![
            Draw::Clear { row: 4, col: 7 },
            Draw::Glyph { row: 6, col: 7, glyph: '7', color: head() },
            Draw::Glyph { row: 5, col: 7, glyph: 'e', color: Rgb { r: 29, g: 143, b: 34 } },
        ]
    );
}

#[test]
fn win_size_compares_rows_and_columns_only() {
    let a = WinSize { rows: 24, cols: 80, __xpixel: 640, __ypixel: 480 };
    let b = WinSize { rows: 24, cols: 80, __xpixel: 0, __ypixel: 0 };
    let c = WinSize { rows: 25, cols: 80, __xpixel: 640, __ypixel: 480 };
    let d = WinSize { rows: 24, cols: 81, __xpixel: 640, __ypixel: 480 };
    assert!(a == b);
    assert!(a != c);
    assert!(a != d);
}

#[test]
fn win_size_default_is_empty() {
    let size = WinSize::default();
    assert_eq!((size.rows, size.cols, size.__xpixel, size.__ypixel), (0, 0, 0, 0));
}

#[test]
fn win_size_is_copied() {
    let a = WinSize { rows: 3, cols: 4, __xpixel: 5, __ypixel: 6 };
    let b = a;
    let c = a.clone();
    assert_eq!((b.rows, b.cols, b.__xpixel, b.__ypixel), (3, 4, 5, 6));
    assert_eq!((c.rows, c.cols, c.__xpixel, c.__ypixel), (3, 4, 5, 6));
}

#[test]
fn cursor_counts_from_one() {
    assert_eq!(Draw::Clear { row: 0, col: 1 }.cursor(), Some((2, 1)));
    assert_eq!(
        Draw::Glyph { row: 23, col: 79, glyph: 'a', color: head() }.cursor(),
        Some((80, 24))
    );
    assert_eq!(Draw::Fill { color: background(), cells: 1920 }.cursor(), Some((1, 1)));
    assert_eq!(Draw::Clear { row: 65534, col: 65534 }.cursor(), Some((65535, 65535)));
}

#[test]
fn cursor_has_no_place_past_the_last_coordinate() {
    assert_eq!(Draw::Clear { row: 65535, col: 1 }.cursor(), None);
    assert_eq!(Draw::Clear { row: 1, col: 65535 }.cursor(), None);
    assert_eq!(
        Draw::Glyph { row: 65535, col: 65535, glyph: 'a', color: tail() }.cursor(),
        None
    );
}
