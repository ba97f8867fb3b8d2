use hn::{App, Story};

fn story(id: i64) -> Story {
    Story {
        id,
        by: String::from("someone"),
        descendants: 0,
        kids: None,
        score: 1,
        time: 1572737270,
        title: format!("story {}", id),
        kind: String::from("story"),
        url: if id % 2 == 0 { Some(format!("https://example.com/{}", id)) } else { None },
    }
}

fn app_with(len: i64, height: usize) -> App {
    let mut a = App::default();
    a.resize(height);
    a.loaded((0..len).map(story).collect());
    a
}

fn assert_valid(a: &App) {
    let len = a.stories.len();
    assert!(a.height >= 1);
    if len == 0 {
        assert_eq!((a.cur_index, a.offset), (0, 0));
    } else {
        assert!(a.cur_index < len);
        assert!(a.offset <= a.cur_index);
        assert!(a.cur_index < a.offset + a.height);
        assert!(a.offset <= len.saturating_sub(a.height));
    }
}

#[test]
fn default_state_is_empty_and_idle() {
    let a = App::default();
    assert!(a.stories.is_empty());
    assert!(!a.is_loading);
    assert_eq!((a.cur_index, a.offset, a.height), (0, 0, 1));
}

#[test]
fn moving_down_to_the_last_of_25_in_10_rows_scrolls_to_15() {
    let mut a = app_with(25, 10);
    for _ in 0..24 {
        a.cursor_down();
        assert_valid(&a);
    }
    assert_eq!(a.cur_index, 24);
    assert_eq!(a.offset, 15);
    a.cursor_down();
    assert_eq!((a.cur_index, a.offset), (24, 15));
}

#[test]
fn moving_up_scrolls_back() {
    let mut a = app_with(25, 10);
    a.cursor_jump_bottom();
    assert_eq!((a.cur_index, a.offset), (24, 15));
    for _ in 0..10 {
        a.cursor_up();
    }
    assert_eq!((a.cur_index, a.offset), (14, 14));
    a.cursor_jump_top();
    assert_eq!((a.cur_index, a.offset), (0, 0));
    a.cursor_up();
    assert_eq!((a.cur_index, a.offset), (0, 0));
}

#[test]
fn jump_down_moves_ten_while_ten_more_lie_below() {
    let mut a = app_with(25, 10);
    a.cursor_jump_down();
    assert_eq!((a.cur_index, a.offset), (10, 1));
    a.cursor_jump_down();
    assert_eq!((a.cur_index, a.offset), (20, 11));
    a.cursor_jump_down();
    assert_eq!((a.cur_index, a.offset), (24, 15));
    a.cursor_jump_down();
    assert_eq!((a.cur_index, a.offset), (24, 15));
}

#[test]
fn jump_down_at_exactly_ten_from_the_end_clamps() {
    // cursor + 10 == len: the jump lands on the last story.
    let mut a = app_with(20, 5);
    a.cursor_jump_down();
    assert_eq!(a.cur_index, 10);
    a.cursor_jump_down();
    assert_eq!(a.cur_index, 19);
    // cursor + 10 == len - 1 + 10 < len fails, so one below ten stays a full jump
    let mut b = app_with(21, 5);
    b.cursor_jump_down();
    b.cursor_jump_down();
    assert_eq!(b.cur_index, 20);
}

#[test]
fn jump_up_clamps_at_the_first_story() {
    let mut a = app_with(25, 10);
    for _ in 0..13 {
        a.cursor_down();
    }
    a.cursor_jump_up();
    assert_eq!(a.cur_index, 3);
    a.cursor_jump_up();
    assert_eq!((a.cur_index, a.offset), (0, 0));
    a.cursor_jump_up();
    assert_eq!((a.cur_index, a.offset), (0, 0));
}

#[test]
fn empty_list_keeps_cursor_and_offset_at_zero() {
    let mut a = app_with(0, 10);
    a.cursor_up();
    a.cursor_down();
    a.cursor_jump_up();
    a.cursor_jump_down();
    a.cursor_jump_top();
    a.cursor_jump_bottom();
    a.resize(3);
    assert_eq!((a.cur_index, a.offset), (0, 0));
    assert!(a.selected().is_none());
}

#[test]
fn growing_the_display_scrolls_back_to_fill_it() {
    let mut a = app_with(25, 10);
    a.cursor_jump_bottom();
    assert_eq!(a.offset, 15);
    a.resize(20);
    assert_eq!((a.cur_index, a.offset), (24, 5));
    a.resize(40);
    assert_eq!((a.cur_index, a.offset), (24, 0));
    assert_valid(&a);
}

#[test]
fn shrinking_the_display_keeps_the_cursor_in_view() {
    let mut a = app_with(25, 10);
    for _ in 0..9 {
        a.cursor_down();
    }
    assert_eq!(a.offset, 0);
    a.resize(4);
    assert_eq!((a.cur_index, a.offset), (9, 6));
    a.resize(1);
    assert_eq!((a.cur_index, a.offset), (9, 9));
    assert_valid(&a);
}

#[test]
fn any_sequence_of_commands_keeps_the_viewport_valid() {
    let mut a = app_with(37, 7);
    let mut seed: u64 = 12345;
    for _ in 0..2000 {
        seed = seed.wrapping_mul(6364136223846793005).wrapping_add(1442695040888963407);
        match (seed >> 33) % 8 {
            0 => a.cursor_up(),
            1 => a.cursor_down(),
            2 => a.cursor_jump_up(),
            3 => a.cursor_jump_down(),
            4 => a.cursor_jump_top(),
            5 => a.cursor_jump_bottom(),
            6 => a.resize(1 + ((seed >> 40) % 50) as usize),
            _ => a.loaded((0..((seed >> 45) % 40) as i64).map(story).collect()),
        }
        assert_valid(&a);
    }
}

#[test]
fn reload_in_flight_keeps_the_visible_cursor_and_offset() {
    let mut a = app_with(25, 10);
    for _ in 0..17 {
        a.cursor_down();
    }
    assert_eq!((a.cur_index, a.offset), (17, 8));
    a.start_loading();
    a.start_loading();
    assert!(a.is_loading);
    assert_eq!((a.cur_index, a.offset), (17, 8));
    assert_eq!(a.stories.len(), 25);
    a.loaded((100..105).map(story).collect());
    assert!(!a.is_loading);
    assert_eq!((a.cur_index, a.offset), (0, 0));
    assert_eq!(a.stories.len(), 5);
    assert_eq!(a.stories[0].id, 100);
}

#[test]
fn selected_is_the_story_under_the_cursor() {
    let mut a = app_with(5, 3);
    assert_eq!(a.selected().map(|s| s.id), Some(0));
    a.cursor_down();
    a.cursor_down();
    let s = a.selected().unwrap();
    assert_eq!(s.id, 2);
    assert_eq!(s.url.as_deref(), Some("https://example.com/2"));
}
