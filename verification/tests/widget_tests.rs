use clear_coat::attributes::{active, attr_equals, cursor, expand, get_attribute_handle,
    get_str_attribute, get_unique_attribute_name, hide_widget, image_cursor_name, min_size,
    orientation, reset_attribute, scrollbar, set_attribute_handle, set_cursor, set_expand,
    set_min_size, set_orientation, set_scrollbar, set_str_attribute, set_visible_columns, show,
    visible, visible_columns, ActiveAttribute, Control, Cursor, Expand, Orientations,
    TitleAttribute, VisibleAttribute};
use clear_coat::button::Button;
use clear_coat::list::List;
use clear_coat::toolkit::Toolkit;
use clear_coat::Orientation;

#[test]
fn set_then_get_round_trips_a_token() {
    let mut tk = Toolkit::new();
    let b = Button::new(&mut tk);
    let h = b.handle();
    set_str_attribute(&mut tk, h, "ALIGNMENT\0", "YES\0");
    assert_eq!(get_str_attribute(&tk, h, "ALIGNMENT\0"), "YES");
}

#[test]
fn set_then_get_round_trips_plain_text() {
    let mut tk = Toolkit::new();
    let b = Button::new(&mut tk);
    let h = b.handle();
    set_str_attribute(&mut tk, h, "TITLE\0", "Hello, world");
    assert_eq!(get_str_attribute(&tk, h, "TITLE\0"), "Hello, world");
}

#[test]
fn embedded_nul_is_sanitized_on_the_wire() {
    let mut tk = Toolkit::new();
    let b = Button::new(&mut tk);
    let h = b.handle();
    set_str_attribute(&mut tk, h, "TITLE\0", "a\0b");
    assert_eq!(get_str_attribute(&tk, h, "TITLE\0"), "a?b");
}

#[test]
fn absent_attribute_reads_as_empty_string() {
    let mut tk = Toolkit::new();
    let b = Button::new(&mut tk);
    assert_eq!(get_str_attribute(&tk, b.handle(), "TIP\0"), "");
}

#[test]
fn reset_restores_the_default() {
    let mut tk = Toolkit::new();
    let b = Button::new(&mut tk);
    let h = b.handle();
    set_str_attribute(&mut tk, h, "TIP\0", "hint\0");
    assert_eq!(get_str_attribute(&tk, h, "TIP\0"), "hint");
    reset_attribute(&mut tk, h, "TIP\0");
    assert_eq!(get_str_attribute(&tk, h, "TIP\0"), "");
}

#[test]
fn min_size_round_trips_through_the_pair_format() {
    let mut tk = Toolkit::new();
    let b = Button::new(&mut tk);
    let h = b.handle();
    set_min_size(&mut tk, h, 75, 0);
    assert_eq!(get_str_attribute(&tk, h, "MINSIZE\0"), "75x0");
    assert_eq!(min_size(&tk, h), (75, 0));
    set_min_size(&mut tk, h, -3, 42);
    assert_eq!(min_size(&tk, h), (-3, 42));
}

#[test]
fn numeric_attribute_round_trips() {
    let mut tk = Toolkit::new();
    let l = List::new(&mut tk);
    let h = l.handle();
    set_visible_columns(&mut tk, h, 20);
    assert_eq!(get_str_attribute(&tk, h, "VISIBLECOLUMNS\0"), "20");
    assert_eq!(visible_columns(&tk, h), 20);
}

#[test]
fn boolean_attribute_round_trips() {
    let mut tk = Toolkit::new();
    let b = Button::new(&mut tk);
    b.set_active(&mut tk, false);
    assert!(!b.active(&tk));
    b.set_active(&mut tk, true);
    assert!(b.active(&tk));
    assert!(attr_equals(&tk, b.handle(), "ACTIVE\0", "YES\0"));
}

#[test]
fn visibility_follows_show_and_hide() {
    let mut tk = Toolkit::new();
    let b = Button::new(&mut tk);
    let h = b.handle();
    assert!(!visible(&tk, h));
    assert_eq!(show(&mut tk, h), Ok(()));
    assert!(visible(&tk, h));
    assert_eq!(hide_widget(&mut tk, h), Ok(()));
    assert!(!visible(&tk, h));
    assert_eq!(b.set_visible(&mut tk, true), Ok(()));
    assert!(b.visible(&tk));
}

#[test]
fn cursor_tokens_round_trip() {
    let mut tk = Toolkit::new();
    let b = Button::new(&mut tk);
    let h = b.handle();
    set_cursor(&mut tk, h, Cursor::Hand);
    assert_eq!(get_str_attribute(&tk, h, "CURSOR\0"), "HAND");
    assert_eq!(cursor(&tk, h), Cursor::Hand);
    set_cursor(&mut tk, h, Cursor::ResizeNE);
    assert_eq!(cursor(&tk, h), Cursor::ResizeNE);
}

#[test]
fn expand_tokens_round_trip() {
    let mut tk = Toolkit::new();
    let b = Button::new(&mut tk);
    let h = b.handle();
    set_expand(&mut tk, h, Expand::HorizontalFree);
    assert_eq!(get_str_attribute(&tk, h, "EXPAND\0"), "HORIZONTALFREE");
    assert_eq!(expand(&tk, h), Expand::HorizontalFree);
}

#[test]
fn orientation_tokens_round_trip() {
    let mut tk = Toolkit::new();
    let l = List::new(&mut tk);
    let h = l.handle();
    set_orientation(&mut tk, h, Orientation::Horizontal);
    assert_eq!(get_str_attribute(&tk, h, "ORIENTATION\0"), "HORIZONTAL");
    assert_eq!(orientation(&tk, h), Orientation::Horizontal);
}

#[test]
fn scrollbar_spells_both_as_yes() {
    let mut tk = Toolkit::new();
    let l = List::new(&mut tk);
    let h = l.handle();
    set_scrollbar(&mut tk, h, Orientations::Both);
    assert_eq!(get_str_attribute(&tk, h, "SCROLLBAR\0"), "YES");
    assert_eq!(scrollbar(&tk, h), Orientations::Both);
    set_scrollbar(&mut tk, h, Orientations::Off);
    assert_eq!(scrollbar(&tk, h), Orientations::Off);
}

#[test]
fn handle_associations_store_the_raw_target()
{
    let mut tk = Toolkit::new();
    let dialog = Button::new(&mut tk);
    let icon = tk.create_widget();
    set_attribute_handle(&mut tk, dialog.handle(), "STARTFOCUS\0", icon);
    assert_eq!(get_attribute_handle(&tk, dialog.handle(), "STARTFOCUS\0"), Some(icon));
    assert_eq!(get_attribute_handle(&tk, dialog.handle(), "PARENTDIALOG\0"), None);
}

#[test]
fn unique_attribute_names_count_up() {
    let mut tk = Toolkit::new();
    assert_eq!(get_unique_attribute_name(&mut tk), b"CLEAR_COAT_UNIQUE_0\0".to_vec());
    assert_eq!(get_unique_attribute_name(&mut tk), b"CLEAR_COAT_UNIQUE_1\0".to_vec());
}

#[test]
fn image_cursor_names_are_coined_once() {
    let mut tk = Toolkit::new();
    let img = tk.create_widget();
    let first = image_cursor_name(&mut tk, img);
    assert_eq!(first, b"CLEAR_COAT_UNIQUE_0".to_vec());
    let again = image_cursor_name(&mut tk, img);
    assert_eq!(again, first);
}

#[test]
fn button_with_title_carries_it() {
    let mut tk = Toolkit::new();
    let b = Button::with_title(&mut tk, "Push me");
    assert_eq!(b.title(&tk), "Push me");
    assert_eq!(tk.rc_get(b.handle()), Some(1));
}

#[test]
fn button_clone_and_release_destroy_once() {
    let mut tk = Toolkit::new();
    let b = Button::new(&mut tk);
    let h = b.handle();
    let b2 = b.clone_ref(&mut tk);
    b.release(&mut tk);
    assert_eq!(tk.times_destroyed(h), 0);
    b2.release(&mut tk);
    assert_eq!(tk.times_destroyed(h), 1);
}

#[test]
fn list_flags_round_trip() {
    let mut tk = Toolkit::new();
    let l = List::new(&mut tk);
    assert!(!l.dropdown(&tk));
    l.set_dropdown(&mut tk, true);
    assert!(l.dropdown(&tk));
    l.set_edit_box(&mut tk, true);
    assert!(l.edit_box(&tk));
    l.set_multiple(&mut tk, true);
    assert!(l.multiple(&tk));
    l.set_multiple(&mut tk, false);
    assert!(!l.multiple(&tk));
}

#[test]
fn list_items_are_numbered_from_one() {
    let mut tk = Toolkit::new();
    let l = List::new(&mut tk);
    let h = l.handle();
    l.set_item(&mut tk, 0, "alpha");
    l.set_item(&mut tk, 1, "beta");
    assert_eq!(l.item(&tk, 0), "alpha");
    assert_eq!(l.item(&tk, 1), "beta");
    assert_eq!(get_str_attribute(&tk, h, "1\0"), "alpha");
    assert_eq!(get_str_attribute(&tk, h, "2\0"), "beta");
}

#[test]
fn list_edit_actions_transmit_their_attributes() {
    let mut tk = Toolkit::new();
    let l = List::new(&mut tk);
    let h = l.handle();
    l.append_item(&mut tk, "tail");
    assert_eq!(get_str_attribute(&tk, h, "APPENDITEM\0"), "tail");
    l.insert_item(&mut tk, 2, "middle");
    assert_eq!(get_str_attribute(&tk, h, "INSERTITEM3\0"), "middle");
    l.remove_item(&mut tk, 4);
    assert_eq!(get_str_attribute(&tk, h, "REMOVEITEM\0"), "5");
    l.clear(&mut tk);
    assert_eq!(get_str_attribute(&tk, h, "REMOVEITEM\0"), "ALL");
}

#[test]
fn list_count_parses_the_stored_number() {
    let mut tk = Toolkit::new();
    let l = List::new(&mut tk);
    set_str_attribute(&mut tk, l.handle(), "COUNT\0", "5\0");
    assert_eq!(l.count(&tk), 5);
}

#[test]
fn list_value_text_requires_an_edit_box() {
    let mut tk = Toolkit::new();
    let l = List::new(&mut tk);
    l.set_edit_box(&mut tk, true);
    set_str_attribute(&mut tk, l.handle(), "VALUE\0", "typed\0");
    assert_eq!(l.value_text(&tk), "typed");
}

#[test]
fn list_value_single_maps_to_zero_based() {
    let mut tk = Toolkit::new();
    let l = List::new(&mut tk);
    assert_eq!(l.value_single(&tk), None);
    set_str_attribute(&mut tk, l.handle(), "VALUE\0", "3\0");
    assert_eq!(l.value_single(&tk), Some(2));
    set_str_attribute(&mut tk, l.handle(), "VALUE\0", "0\0");
    assert_eq!(l.value_single(&tk), None);
}

#[test]
fn list_value_multiple_collects_marker_positions() {
    let mut tk = Toolkit::new();
    let l = List::new(&mut tk);
    l.set_multiple(&mut tk, true);
    set_str_attribute(&mut tk, l.handle(), "VALUE\0", "+--+\0");
    assert_eq!(l.value_multiple(&tk), vec![0, 3]);
    set_str_attribute(&mut tk, l.handle(), "VALUE\0", "----\0");
    assert_eq!(l.value_multiple(&tk), Vec::<usize>::new());
}
