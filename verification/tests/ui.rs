use svnui::ui::{
    clamp_hscroll, clamp_index, clamp_scroll, popup_area, scroll_follow, spinner_frame,
    split_search_footer, truncate, Area,
};

#[test]
fn clamp_helpers() {
    assert_eq!(clamp_scroll(100, 5, 10), 0);
    assert_eq!(clamp_scroll(100, 50, 10), 40);
    assert_eq!(clamp_scroll(3, 50, 10), 3);
    assert_eq!(clamp_scroll(0, 50, 0), 0);
    assert_eq!(clamp_index(100, 0), 0);
    assert_eq!(clamp_index(100, 3), 2);
    assert_eq!(clamp_index(1, 3), 1);
}

#[test]
fn scroll_follow_keeps_selection_visible() {
    // selection above the window pulls the scroll up
    assert_eq!(scroll_follow(2, 5, 50, 10), 2);
    // selection below the window pulls the scroll down
    assert_eq!(scroll_follow(15, 5, 50, 10), 6);
    // selection inside the window: scroll unchanged
    assert_eq!(scroll_follow(7, 5, 50, 10), 5);
    // clamped against the content length
    assert_eq!(scroll_follow(49, 45, 50, 10), 40);
    // zero-height view: no follow, just the clamp
    assert_eq!(scroll_follow(3, 7, 50, 0), 0);
    // content shorter than the view: scroll resets to 0
    assert_eq!(scroll_follow(0, 3, 5, 10), 0);
}

#[test]
fn spinner_frames_cycle() {
    assert_eq!(spinner_frame(0), spinner_frame(10));
    assert_ne!(spinner_frame(0), spinner_frame(1));
    let mut seen = std::collections::HashSet::new();
    for i in 0..10 {
        seen.insert(spinner_frame(i));
    }
    assert_eq!(seen.len(), 10);
}

#[test]
fn clamp_hscroll_bounds_at_widest_line() {
    assert_eq!(clamp_hscroll(100, 50, 20), 30);
    assert_eq!(clamp_hscroll(10, 50, 20), 10);
    // content narrower than the view: no scrolling at all
    assert_eq!(clamp_hscroll(10, 10, 20), 0);
}

#[test]
fn truncate_keeps_ellipsis() {
    assert_eq!(truncate("short", 10), "short");
    assert_eq!(truncate("a very long string", 8), "a very …");
}

#[test]
fn truncate_edges() {
    assert_eq!(truncate("abc", 3), "abc");
    assert_eq!(truncate("abcd", 3), "ab…");
    assert_eq!(truncate("abc", 0), "");
    assert_eq!(truncate("", 0), "");
    assert_eq!(truncate("日本語テキスト", 4), "日本語…");
}

#[test]
fn spinner_first_frame_and_wrap() {
    assert_eq!(spinner_frame(0), "⠋");
    assert_eq!(spinner_frame(9), "⠏");
    assert_eq!(spinner_frame(23), spinner_frame(3));
}

#[test]
fn scroll_follow_large_offsets() {
    assert_eq!(scroll_follow(usize::MAX - 1, 0, usize::MAX, 10), usize::MAX - 10);
    assert_eq!(clamp_index(usize::MAX, usize::MAX), usize::MAX - 1);
}

#[test]
fn popup_area_centered_and_bounded() {
    let r = popup_area(Area::new(0, 0, 100, 40), 50, 50);
    assert_eq!(r.width, 50);
    assert_eq!(r.height, 20);
    assert_eq!(r.x, 25);
    assert_eq!(r.y, 10);
    // tiny screens still get usable popups
    let small = popup_area(Area::new(0, 0, 30, 8), 10, 10);
    assert!(small.width >= 20);
    assert!(small.height >= 5);
    // very wide terminals: u16 multiplication must not overflow
    let wide = popup_area(Area::new(0, 0, 1000, 300), 92, 92);
    assert_eq!(wide.width, 920);
    assert_eq!(wide.height, 276);
    assert!(wide.x + wide.width <= 1000);
    assert!(wide.y + wide.height <= 300);
    // popup larger than the area is clamped to it
    let clamped = popup_area(Area::new(0, 0, 10, 4), 50, 50);
    assert!(clamped.width <= 10);
    assert!(clamped.height <= 4);
}

#[test]
fn split_search_footer_carves_bottom_row() {
    let inner = Area::new(1, 2, 40, 10);
    let (content, footer) = split_search_footer(inner, true);
    assert_eq!(content, Area::new(1, 2, 40, 9));
    assert_eq!(footer, Some(Area::new(1, 11, 40, 1)));
    // inactive or too small: the area is returned untouched
    assert_eq!(split_search_footer(inner, false), (inner, None));
    let tiny = Area::new(1, 2, 40, 1);
    assert_eq!(split_search_footer(tiny, true), (tiny, None));
}
