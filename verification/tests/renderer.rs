use led_badge::font::Font;
use led_badge::renderer::{render_text, Bitmap};

fn heart_font() -> Font {
    let mut font = Font::new();
    font.add_icon("heart", &[[0x00, 0x66, 0xff, 0xff, 0xff, 0x7e, 0x3c, 0x18, 0x00, 0x00, 0x00]]);
    font.add_icon("wide", &[[1; 11], [2; 11]]);
    font.add_glyph('a', [0xa0; 11]);
    font.add_glyph(':', [0x18; 11]);
    font.add_glyph('b', [0xb0; 11]);
    font
}

#[test]
fn test_render_hello() {
    let font = Font::new();
    let bitmap = render_text(&font, "hello");
    assert_eq!(bitmap.width_columns, 5);
    assert_eq!(bitmap.data.len(), 5 * 11);
}

#[test]
fn test_render_with_icon() {
    let font = heart_font();
    let bitmap = render_text(&font, "I :heart: you");
    // "I " (2) + heart (1) + " you" (4) = 7
    assert_eq!(bitmap.width_columns, 7);
}

#[test]
fn test_escaped_colon() {
    let font = heart_font();
    let bitmap = render_text(&font, "a::b");
    // "a" (1) + ":" (1) + "b" (1) = 3
    assert_eq!(bitmap.width_columns, 3);
}

#[test]
fn escaped_colon_draws_colon_glyph() {
    let font = heart_font();
    let bitmap = render_text(&font, "a::b");
    let mut expected = vec![0xa0; 11];
    expected.extend_from_slice(&[0x18; 11]);
    expected.extend_from_slice(&[0xb0; 11]);
    assert_eq!(bitmap.data, expected);
}

#[test]
fn icon_data_is_copied() {
    let font = heart_font();
    let bitmap = render_text(&font, ":wide:a");
    assert_eq!(bitmap.width_columns, 3);
    let mut expected = vec![1; 11];
    expected.extend_from_slice(&[2; 11]);
    expected.extend_from_slice(&[0xa0; 11]);
    assert_eq!(bitmap.data, expected);
}

#[test]
fn unknown_icon_renders_as_text() {
    let font = heart_font();
    let bitmap = render_text(&font, ":nope:");
    assert_eq!(bitmap.width_columns, 6);
    let mut expected = vec![0x18; 11];
    expected.extend(std::iter::repeat(0u8).take(4 * 11));
    expected.extend_from_slice(&[0x18; 11]);
    assert_eq!(bitmap.data, expected);
}

#[test]
fn unclosed_colon_renders_literally() {
    let font = heart_font();
    let bitmap = render_text(&font, "a:heart");
    assert_eq!(bitmap.width_columns, 7);
    let bitmap = render_text(&font, ":");
    assert_eq!(bitmap.width_columns, 1);
    assert_eq!(bitmap.data, vec![0x18; 11]);
}

#[test]
fn empty_text_renders_nothing() {
    let font = heart_font();
    let bitmap = render_text(&font, "");
    assert_eq!(bitmap.width_columns, 0);
    assert!(bitmap.data.is_empty());
}

#[test]
fn unknown_character_is_blank() {
    let font = heart_font();
    let bitmap = render_text(&font, "ä");
    assert_eq!(bitmap.data, vec![0; 11]);
}

#[test]
fn later_glyph_replaces_earlier() {
    let mut font = Font::new();
    font.add_glyph('x', [1; 11]);
    font.add_glyph('x', [2; 11]);
    assert_eq!(font.get_char_bitmap('x'), Some([2; 11]));
    assert_eq!(font.get_char_bitmap('y'), None);
}

#[test]
fn icons_are_listed() {
    let font = heart_font();
    let names = font.list_icons();
    assert_eq!(names, vec!["heart".to_string(), "wide".to_string()]);
    let icon = font.get_icon("wide").unwrap();
    assert_eq!(icon.width_columns, 2);
    assert!(font.get_icon("heart2").is_none());
}

#[test]
fn replacing_an_icon_keeps_its_place() {
    let mut font = heart_font();
    font.add_icon("heart", &[[3; 11]]);
    font.add_icon("star", &[[4; 11]]);
    assert_eq!(font.list_icons(), vec!["heart".to_string(), "wide".to_string(), "star".to_string()]);
    assert_eq!(font.get_icon("heart").unwrap().data, vec![3; 11]);
}

#[test]
fn bitmap_appends() {
    let font = heart_font();
    let mut bitmap = Bitmap::new();
    bitmap.append_char(&font, 'a');
    bitmap.append_icon(&font, "heart");
    bitmap.append_icon(&font, "missing");
    bitmap.append_raw(&[9, 9], 1);
    assert_eq!(bitmap.width_columns, 3);
    assert_eq!(bitmap.data.len(), 11 + 11 + 2);
    assert_eq!(&bitmap.data[22..], &[9, 9]);
    let empty = Bitmap::default();
    assert_eq!(empty.width_columns, 0);
}
