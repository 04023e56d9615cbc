use autons_controller::picker::{labels_fit, ButtonEdges, InputStep, PickerSession};
use autons_controller::text::{
    center_string, controller_char_width, controller_str_width, is_displayable, underline_string,
    DISPLAY_WIDTH,
};

fn edges(left: bool, right: bool, confirm: bool, cancel: bool) -> ButtonEdges {
    ButtonEdges { left, right, confirm, cancel }
}

fn labels(names: &[&str]) -> Vec<String> {
    names.iter().map(|s| s.to_string()).collect()
}

#[test]
fn char_widths_from_font_table() {
    assert_eq!(controller_char_width('W'), 12);
    assert_eq!(controller_char_width(' '), 4);
    assert_eq!(controller_char_width('i'), 1);
    assert_eq!(controller_char_width('~'), 6);
    assert_eq!(controller_char_width('0'), 6);
}

#[test]
fn string_width_of_empty_is_zero() {
    assert_eq!(controller_str_width(""), 0);
}

#[test]
fn string_width_sums_glyphs_and_gaps() {
    assert_eq!(controller_str_width("a"), 6);
    assert_eq!(controller_str_width("ab"), 13);
    assert_eq!(controller_str_width("Hi!"), 11);
    assert_eq!(controller_str_width("Route 1"), 6 + 6 + 6 + 5 + 6 + 4 + 3 + 6);
}

#[test]
fn center_pads_both_sides_equally() {
    let s = center_string("Route");
    assert_eq!(s, format!("{}Route{}", " ".repeat(9), " ".repeat(9)));
    assert!(controller_str_width(&s) <= DISPLAY_WIDTH);
}

#[test]
fn center_of_empty_string() {
    let s = center_string("");
    assert_eq!(s, " ".repeat(24));
    assert!(controller_str_width(&s) <= DISPLAY_WIDTH);
}

#[test]
fn center_of_too_wide_string_adds_nothing() {
    let wide = "W".repeat(20);
    assert_eq!(center_string(&wide), wide);
}

#[test]
fn center_of_prompt_fits() {
    let s = center_string("- Pick category -");
    let left = s.len() - s.trim_start().len();
    let right = s.len() - s.trim_end().len();
    assert_eq!(left, right);
    assert!(controller_str_width(&s) <= DISPLAY_WIDTH);
}

#[test]
fn underline_marks_selected_columns() {
    assert_eq!(underline_string("ab cd", '^', 3..5), "    ^^");
}

#[test]
fn underline_covers_line_width() {
    let line = "A   B   C";
    let u = underline_string(line, '^', 4..5);
    assert!(controller_str_width(&u) >= controller_str_width(line) - 1);
    assert!(u.chars().all(|c| c == '^' || c == ' '));
    assert!(u.contains('^'));
}

#[test]
fn underline_of_empty_range_has_no_marker() {
    let u = underline_string("abc", '^', 0..0);
    assert!(u.chars().all(|c| c == ' '));
    assert!(!u.is_empty());
}

#[test]
fn picker_right_twice_reaches_last() {
    let mut p = PickerSession::new(labels(&["A", "B", "C"]));
    assert_eq!(p.cursor(), 0);
    assert_eq!(p.input_tick(true, edges(false, true, false, false)), InputStep::Continue);
    assert_eq!(p.input_tick(true, edges(false, true, false, false)), InputStep::Continue);
    assert_eq!(p.cursor(), 2);
    p.input_tick(true, edges(false, true, false, false));
    assert_eq!(p.cursor(), 0);
}

#[test]
fn picker_left_from_first_wraps_to_last() {
    let mut p = PickerSession::new(labels(&["A", "B", "C"]));
    p.input_tick(true, edges(true, false, false, false));
    assert_eq!(p.cursor(), 2);
}

#[test]
fn picker_single_option_wraps_in_place() {
    let mut p = PickerSession::new(labels(&["Only"]));
    p.input_tick(true, edges(true, false, false, false));
    assert_eq!(p.cursor(), 0);
    p.input_tick(true, edges(false, true, false, false));
    assert_eq!(p.cursor(), 0);
}

#[test]
fn picker_confirm_and_cancel() {
    let mut p = PickerSession::new(labels(&["A", "B", "C"]));
    p.input_tick(true, edges(false, true, false, false));
    let step = p.input_tick(true, edges(false, false, true, false));
    assert_eq!(step, InputStep::Confirmed(1));
    assert_eq!(step.result(), Some(Some(1)));
    let step = p.input_tick(true, edges(false, false, false, true));
    assert_eq!(step, InputStep::Cancelled);
    assert_eq!(step.result(), Some(None));
    assert_eq!(p.input_tick(true, edges(false, false, false, false)).result(), None);
}

#[test]
fn picker_left_takes_precedence_over_confirm() {
    let mut p = PickerSession::new(labels(&["A", "B", "C"]));
    let step = p.input_tick(true, edges(true, false, true, true));
    assert_eq!(step, InputStep::Continue);
    assert_eq!(p.cursor(), 2);
}

#[test]
fn picker_liveness_loss_aborts() {
    let mut p = PickerSession::new(labels(&["A", "B", "C"]));
    p.input_tick(true, edges(false, true, false, false));
    let step = p.input_tick(false, edges(false, false, true, false));
    assert_eq!(step, InputStep::Aborted);
    assert_eq!(step.result(), Some(None));
    assert_eq!(p.cursor(), 1);
    assert!(p.render_tick(false).is_none());
    assert!(p.render_tick(true).is_some());
}

#[test]
fn picker_frame_short_list_is_padded() {
    let p = PickerSession::new(labels(&["A", "B", "C"]));
    let f = p.frame();
    assert_eq!(f.line, format!("A   B   C{}", " ".repeat(15)));
    assert_eq!(controller_str_width(&f.line), DISPLAY_WIDTH);
    assert_eq!(f.underline, format!("^{}", " ".repeat(25)));
}

#[test]
fn picker_frame_long_list_scrolls_and_marks_more() {
    let mut p = PickerSession::new(labels(&[
        "Left side", "Right side", "Skills run", "Elims", "Quals safe", "Do nothing",
    ]));
    p.input_tick(true, edges(false, true, false, false));
    p.input_tick(true, edges(false, true, false, false));
    let f = p.frame();
    // Five characters of context before the selected label.
    assert!(f.line.starts_with("de   Skills run"));
    assert!(f.line.ends_with("> "));
    assert!(controller_str_width(&f.line) <= DISPLAY_WIDTH);
    let marker_at = f.underline.find('^').unwrap();
    assert!(f.underline[..marker_at].chars().all(|c| c == ' '));
    assert!(marker_at > 0);
}

#[test]
fn picker_frame_first_label_has_no_offset() {
    let p = PickerSession::new(labels(&["Left side", "Right side", "Skills run", "Elims"]));
    let f = p.frame();
    assert_eq!(f.line, "Left side   Right sid> ");
    assert!(f.underline.starts_with('^'));
}

#[test]
fn displayable_text_is_printable_ascii() {
    assert!(is_displayable("Route 1 (safe)!"));
    assert!(!is_displayable("Route\t1"));
    assert!(!is_displayable("é"));
}

#[test]
fn picker_labels_must_be_nonempty_and_drawable() {
    assert!(labels_fit(&labels(&["A", "B"])));
    assert!(!labels_fit(&labels(&[])));
    assert!(!labels_fit(&labels(&["A", "ü"])));
}

#[test]
fn picker_frame_exactly_full_row_has_no_more_marker() {
    let label = format!("m{}", "a".repeat(17));
    assert_eq!(controller_str_width(&label), DISPLAY_WIDTH);
    let p = PickerSession::new(vec![label.clone()]);
    let f = p.frame();
    assert_eq!(f.line, label);
    assert!(!f.line.ends_with("> "));
}

#[test]
fn picker_frame_one_pixel_too_wide_marks_more() {
    let label = format!("m{}b", "a".repeat(17));
    let p = PickerSession::new(vec![label]);
    let f = p.frame();
    assert!(f.line.ends_with("> "));
    assert_eq!(f.line, format!("m{}> ", "a".repeat(15)));
}

#[test]
fn underline_width_within_one_step_of_line() {
    let line = "Left side   Right sid> ";
    let w = controller_str_width(line) as i64;
    for (a, b) in [(0usize, 9usize), (12, 21), (3, 3), (0, 23)] {
        let u = underline_string(line, '^', a..b);
        let uw = controller_str_width(&u) as i64;
        assert!(uw >= w - 1 && uw < w - 1 + 7);
    }
}
