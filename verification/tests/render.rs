use audeye::render::layout::{helper_layout, image_cell, image_size, lines_to_center};
use audeye::utils::bindings::{key_to_string, Key};
use audeye::render::{
    channel_layout_to_string, decimal_string, AsciiArtConverter, ChannelsTabs, GreyScaleCanva,
    HelperPopup, TransposedGreyScaleCanva,
};

#[test]
fn intensities_as_characters() {
    let converter = AsciiArtConverter::default();
    assert_eq!(converter.convert_u8_to_ascii(0), b' ');
    assert_eq!(converter.convert_u8_to_ascii(24), b' ');
    assert_eq!(converter.convert_u8_to_ascii(25), b'.');
    assert_eq!(converter.convert_u8_to_ascii(60), b':');
    assert_eq!(converter.convert_u8_to_ascii(99), b'-');
    assert_eq!(converter.convert_u8_to_ascii(100), b'=');
    assert_eq!(converter.convert_u8_to_ascii(149), b'+');
    assert_eq!(converter.convert_u8_to_ascii(150), b'*');
    assert_eq!(converter.convert_u8_to_ascii(175), b'#');
    assert_eq!(converter.convert_u8_to_ascii(200), b'%');
    assert_eq!(converter.convert_u8_to_ascii(249), b'@');
    assert_eq!(AsciiArtConverter::new().convert_u8_to_ascii(130), b'+');
}

#[test]
fn pixels_of_an_image() {
    let pixels = [1u8, 2, 3, 4, 5, 6];
    let canva = GreyScaleCanva::new(&pixels, 3, 2);
    assert_eq!((canva.width(), canva.height()), (3, 2));
    assert_eq!(canva.pixel(0, 0), 1);
    assert_eq!(canva.pixel(2, 0), 3);
    assert_eq!(canva.pixel(0, 1), 4);
    assert_eq!(canva.pixel(2, 1), 6);
}

#[test]
fn pixels_of_a_turned_image() {
    let pixels = [1u8, 2, 3, 4, 5, 6];
    let canva = TransposedGreyScaleCanva::new(&pixels, 3, 2);
    assert_eq!((canva.width(), canva.height()), (3, 2));
    assert_eq!(canva.pixel(0, 0), (1, 0, 2));
    assert_eq!(canva.pixel(2, 0), (3, 0, 0));
    assert_eq!(canva.pixel(1, 1), (5, 1, 1));
}

#[test]
fn numbers_in_decimal() {
    assert_eq!(decimal_string(0), "0");
    assert_eq!(decimal_string(7), "7");
    assert_eq!(decimal_string(10), "10");
    assert_eq!(decimal_string(1234567890), "1234567890");
    assert_eq!(decimal_string(usize::MAX), usize::MAX.to_string());
}

#[test]
fn titles_of_the_usual_layouts() {
    let titles = |count: usize| -> Vec<String> {
        ChannelsTabs::new(count).states().iter().map(|(_, title)| title.to_string()).collect()
    };
    assert_eq!(titles(1), ["Mono"]);
    assert_eq!(titles(2), ["L", "R"]);
    assert_eq!(titles(3), ["L", "R", "LFE"]);
    assert_eq!(titles(4), ["Channel 0", "Channel 1", "Channel 2", "Channel 3"]);
    assert_eq!(titles(5), ["FL", "FR", "C", "BL", "BR"]);
    assert_eq!(titles(6), ["FL", "FR", "C", "LFE", "BL", "BR"]);
    assert_eq!(titles(7), ["FL", "FR", "C", "LFE", "SL", "SR", "BC"]);
    assert_eq!(titles(8), ["FL", "FR", "C", "LFE", "SL", "SR", "BL", "BR"]);
    assert_eq!(titles(12)[11], "Channel 11");
}

#[test]
fn channels_are_shown_and_hidden() {
    let mut tabs = ChannelsTabs::new(3);
    assert_eq!(tabs.count(), 3);
    assert_eq!(tabs.activated(), vec![(0, "L"), (1, "R"), (2, "LFE")]);
    tabs.update(1);
    assert_eq!(tabs.activated(), vec![(0, "L"), (2, "LFE")]);
    assert_eq!(tabs.states(), vec![(true, "L"), (false, "R"), (true, "LFE")]);
    tabs.update(3);
    assert_eq!(tabs.activated(), vec![(0, "L"), (2, "LFE")]);
    tabs.update(0);
    assert_eq!(tabs.activated(), vec![(2, "LFE")]);
    // The last channel stays.
    tabs.update(2);
    assert_eq!(tabs.activated(), vec![(2, "LFE")]);
    tabs.update(1);
    assert_eq!(tabs.activated(), vec![(1, "R"), (2, "LFE")]);
    tabs.reset();
    assert_eq!(tabs.activated(), vec![(0, "L"), (1, "R"), (2, "LFE")]);
}

#[test]
fn popup_asks_for_a_drawing_when_it_changes() {
    let mut popup = HelperPopup::default();
    assert!(!popup.is_visible());
    assert!(popup.needs_redraw());
    popup.drawn();
    assert!(!popup.needs_redraw());
    popup.set_visible(false);
    assert!(!popup.needs_redraw());
    popup.set_visible(true);
    assert!(popup.is_visible());
    assert!(popup.needs_redraw());
    popup.drawn();
    popup.set_visible(true);
    assert!(!popup.needs_redraw());
}

#[test]
fn names_of_the_channel_layouts() {
    assert_eq!(channel_layout_to_string(1), "mono");
    assert_eq!(channel_layout_to_string(2), "stereo");
    assert_eq!(channel_layout_to_string(3), "ambinosic 2.1");
    assert_eq!(channel_layout_to_string(5), "ambisonic 5");
    assert_eq!(channel_layout_to_string(6), "ambisonic 5.1");
    assert_eq!(channel_layout_to_string(7), "ambisonic 7");
    assert_eq!(channel_layout_to_string(8), "ambisonic 7.1");
}

#[test]
fn text_is_centered() {
    assert_eq!(lines_to_center(3), 1);
    assert_eq!(lines_to_center(4), 1);
    assert_eq!(lines_to_center(5), 2);
    assert_eq!(lines_to_center(24), 11);
    assert_eq!(lines_to_center(u16::MAX), 32767);
}

#[test]
fn popup_takes_the_middle() {
    assert_eq!(helper_layout(0, 3, 80, 21), (20, 8, 40, 10));
    assert_eq!(helper_layout(10, 0, 3, 1), (10, 0, 1, 0));
    assert_eq!(helper_layout(u16::MAX - 4, 0, 16, 0), (u16::MAX, 0, 8, 0));
}

#[test]
fn image_fills_the_canvas() {
    assert_eq!(image_size(80, 24), (44, 78));
    assert_eq!(image_size(2, 2), (0, 0));
    assert_eq!(image_cell(0, 10), (0, 9));
    assert_eq!(image_cell(9, 10), (0, 0));
    assert_eq!(image_cell(10, 10), (1, 9));
    assert_eq!(image_cell(25, 10), (2, 4));
}

#[test]
fn names_of_the_keys() {
    assert_eq!(key_to_string(&Key::Left), "Left arrow");
    assert_eq!(key_to_string(&Key::Right), "Right arrow");
    assert_eq!(key_to_string(&Key::Up), "Up arrow");
    assert_eq!(key_to_string(&Key::Down), "Down arrow");
    assert_eq!(key_to_string(&Key::Home), "Home");
    assert_eq!(key_to_string(&Key::Esc), "Esc");
    assert_eq!(key_to_string(&Key::Char(' ')), "Space");
    assert_eq!(key_to_string(&Key::Char('q')), "q");
    assert_eq!(key_to_string(&Key::Char('é')), "é");
    assert_eq!(key_to_string(&Key::Alt('x')), "alt-x");
    assert_eq!(key_to_string(&Key::Ctrl('c')), "ctl-c");
    for number in 1..=12u8 {
        assert_eq!(key_to_string(&Key::F(number)), format!("F{}", number));
    }
}
