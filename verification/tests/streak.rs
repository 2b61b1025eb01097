use digital_rain::number_streak::{NumberStreak, CHARS};

fn trail(streak: &NumberStreak) -> String {
    (0..streak.len() as usize).map(|j| streak.index(j)).collect()
}

#[test]
fn alphabet_is_sixteen_hex_digits() {
    let text: String = CHARS.iter().collect();
    assert_eq!(text, "0123456789abcdef");
}

#[test]
fn init_resets_the_streak() {
    let mut streak = NumberStreak::default();
    streak.init((7, 2), 3, 42);
    assert_eq!(streak.col(), 7);
    assert_eq!(streak.row(), 2);
    assert_eq!(streak.len(), 0);
    assert_eq!(streak.faded(), 0);
    assert_eq!(streak.visible(), 0);
    assert!(streak.is_dead());
    assert_eq!(streak.index(0), ' ');
    assert_eq!(streak.index(1), ' ');
    assert_eq!(streak.index(2), ' ');
}

#[test]
fn init_blanks_the_cells_of_an_earlier_life() {
    let mut streak = NumberStreak::default();
    streak.init((7, 2), 3, 42);
    for _ in 0..3 {
        streak.extend(10);
    }
    assert_eq!(trail(&streak), "97e");
    streak.init((1, 1), 3, 7);
    assert_eq!((streak.index(0), streak.index(1), streak.index(2)), (' ', ' ', ' '));
    streak.init((1, 1), 5, 7);
    for index in 0..5 {
        assert_eq!(streak.index(index), ' ');
    }
}

#[test]
fn the_first_step_moves_the_head_and_wraps() {
    let mut streak = NumberStreak::default();
    streak.init((3, 4), 2, 0);
    streak.extend(5);
    assert_eq!(streak.row(), 0);
    assert_eq!(streak.col(), 3);
    assert_eq!(streak.len(), 1);
    assert_eq!(streak.index(0), 'b');
    assert_eq!(streak.index(1), ' ');
}

#[test]
fn default_streak_is_empty_and_dead() {
    let streak = NumberStreak::default();
    assert_eq!(streak.col(), 0);
    assert_eq!(streak.row(), 0);
    assert_eq!(streak.len(), 0);
    assert!(streak.is_dead());
}

#[test]
fn first_step_grows_one_glyph() {
    let mut streak = NumberStreak::default();
    streak.init((7, 2), 3, 42);
    streak.extend(10);
    assert_eq!(streak.row(), 3);
    assert_eq!(streak.len(), 1);
    assert_eq!(streak.visible(), 1);
    assert_eq!(streak.index(0), '9');
    assert!(!streak.is_dead());
}

#[test]
fn growth_appends_one_glyph_per_step() {
    let mut streak = NumberStreak::default();
    streak.init((7, 2), 3, 42);
    let mut seen = Vec::new();
    for _ in 0..6 {
        streak.extend(10);
        seen.push((streak.row(), trail(&streak)));
    }
    assert_eq!(
        seen,
        vec![
            (3, "9".to_string()),
            (4, "97".to_string()),
            (5, "97e".to_string()),
            (6, "97e".to_string()),
            (7, "97e".to_string()),
            (8, "97e".to_string()),
        ]
    );
    assert_eq!(streak.col(), 7);
}

#[test]
fn the_head_moves_one_row_per_step() {
    let mut streak = NumberStreak::default();
    streak.init((7, 2), 3, 42);
    for step in 1..=646u32 {
        streak.extend(10);
        assert_eq!(streak.row() as u32, (2 + step) % 10);
    }
    assert!(streak.is_dead());
}

#[test]
fn fading_starts_on_a_roll_and_then_never_stops() {
    let mut streak = NumberStreak::default();
    streak.init((7, 2), 3, 42);
    for _ in 0..643 {
        streak.extend(10);
    }
    assert_eq!((streak.row(), trail(&streak), streak.faded()), (5, "97e".to_string(), 0));
    streak.extend(10);
    assert_eq!((streak.row(), trail(&streak), streak.faded()), (6, " 7e".to_string(), 1));
    assert_eq!(streak.visible(), 2);
    assert!(!streak.is_dead());
    streak.extend(10);
    assert_eq!((streak.row(), trail(&streak), streak.faded()), (7, "  e".to_string(), 2));
    assert!(!streak.is_dead());
    streak.extend(10);
    assert_eq!((streak.row(), trail(&streak), streak.faded()), (8, "   ".to_string(), 3));
    assert_eq!(streak.visible(), 0);
    assert!(streak.is_dead());
}

#[test]
fn a_spent_streak_stays_as_it_is() {
    let mut streak = NumberStreak::default();
    streak.init((7, 2), 3, 42);
    for _ in 0..646 {
        streak.extend(10);
    }
    assert!(streak.is_dead());
    for _ in 0..5 {
        streak.extend(10);
        assert_eq!((streak.row(), trail(&streak)), (8, "   ".to_string()));
        assert!(streak.is_dead());
    }
}

#[test]
fn head_wraps_at_the_row_limit() {
    let mut streak = NumberStreak::default();
    streak.init((1, 0), 2, 37);
    let mut rows = Vec::new();
    for _ in 0..8 {
        streak.extend(4);
        rows.push(streak.row());
    }
    assert_eq!(rows, vec![1, 2, 3, 0, 1, 2, 3, 0]);
    assert_eq!(trail(&streak), "  ");
    assert!(streak.is_dead());
}

#[test]
fn a_streak_of_length_zero_is_dead_and_never_moves() {
    let mut streak = NumberStreak::default();
    streak.init((9, 3), 0, 5);
    assert!(streak.is_dead());
    streak.extend(7);
    assert_eq!(streak.row(), 3);
    assert_eq!(streak.len(), 0);
    assert!(streak.is_dead());
}

#[test]
fn cells_are_blank_or_one_of_the_sixteen_glyphs() {
    for seed in 0..10u64 {
        let mut streak = NumberStreak::default();
        streak.init((3, 1), 6, seed);
        for _ in 0..1500 {
            streak.extend(9);
            let grown = streak.len() as usize;
            let gone = streak.faded();
            for index in 0..6 {
                let cell = streak.index(index);
                if index < gone || index >= grown {
                    assert_eq!(cell, ' ');
                } else {
                    assert!(CHARS.contains(&cell));
                }
                assert_eq!(streak.index(index), cell);
            }
        }
    }
}

#[test]
fn counters_stay_ordered_for_a_whole_life() {
    for seed in 0..20u64 {
        let max_len = 5usize;
        let mut streak = NumberStreak::default();
        streak.init((3, 1), max_len, seed);
        let mut last_faded = 0;
        let mut last_grown = 0;
        for _ in 0..3000 {
            streak.extend(9);
            let grown = streak.len() as usize;
            let gone = streak.faded();
            assert!(gone <= grown && grown <= max_len);
            assert_eq!(streak.visible(), grown - gone);
            assert!(gone >= last_faded);
            assert!(grown >= last_grown);
            assert_eq!(streak.is_dead(), gone == grown);
            assert!(streak.row() < 9);
            assert_eq!(streak.col(), 3);
            last_faded = gone;
            last_grown = grown;
        }
    }
}

#[test]
fn init_after_death_starts_a_new_life() {
    let mut streak = NumberStreak::default();
    streak.init((1, 0), 2, 37);
    for _ in 0..8 {
        streak.extend(4);
    }
    assert!(streak.is_dead());
    streak.init((5, 3), 4, 42);
    assert_eq!((streak.col(), streak.row(), streak.len()), (5, 3, 0));
    streak.extend(6);
    assert_eq!((streak.row(), trail(&streak)), (4, "9".to_string()));
    streak.extend(6);
    assert_eq!((streak.row(), trail(&streak)), (5, "97".to_string()));
}

#[test]
fn a_clone_lives_the_same_life() {
    let mut a = NumberStreak::default();
    a.init((7, 2), 3, 42);
    a.extend(10);
    let mut b = a.clone();
    for _ in 0..700 {
        a.extend(10);
        b.extend(10);
        assert_eq!((a.row(), trail(&a), a.is_dead()), (b.row(), trail(&b), b.is_dead()));
    }
}
