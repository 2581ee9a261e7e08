use amongus_timeline::{FeatureSet, Image, FRAME_BYTES};

fn paint(data: &mut [u8], xs: std::ops::Range<usize>, ys: std::ops::Range<usize>, rgb: u32) {
    for y in ys {
        for x in xs.clone() {
            let i = (y * 160 + x) * 4;
            data[i] = (rgb >> 16) as u8;
            data[i + 1] = (rgb >> 8) as u8;
            data[i + 2] = rgb as u8;
            data[i + 3] = 255;
        }
    }
}

fn black() -> Vec<u8> {
    vec![0u8; FRAME_BYTES]
}

fn no_features() -> FeatureSet {
    FeatureSet {
        council: false,
        bright_map: false,
        impostor_objective: false,
        open_map: false,
        game_settings: false,
        victory_screen: false,
        defeat_screen: false,
        alert: false,
        progress_bar: false,
    }
}

#[test]
fn black_frame_has_no_feature() {
    let img = Image::new(black());
    assert_eq!(img.features(), no_features());
    assert!(!img.is_game());
    assert!(img.is_blank());
}

#[test]
fn frame_keeps_its_png_in_base64() {
    let img = Image::new(black());
    let text = img.base64();
    // the PNG signature, in base64
    assert!(text.starts_with("iVBORw0KGgo"));
    assert_eq!(text.len() % 4, 0);
    assert!(text.len() > 20);
}

#[test]
fn pixel_and_window_mean() {
    let mut data = black();
    paint(&mut data, 0..1, 0..1, 0x0a141e);
    paint(&mut data, 1..2, 0..1, 0x0b151f);
    paint(&mut data, 5..6, 7..8, 0x010203);
    let img = Image::new(data);
    assert_eq!(img.get_pixel(0, 0), (10, 20, 30));
    assert_eq!(img.get_pixel(5, 7), (1, 2, 3));
    assert_eq!(img.get_pixels_mean(0..2, 0..1), (10, 20, 30));
    assert_eq!(img.get_pixels_mean(0..2, 0..2), (5, 10, 15));
    assert!(img.does_pixel_match(0, 0, 0x0a141e, 0));
    assert!(!img.does_pixel_match(0, 0, 0x0a1420, 1));
    assert!(img.does_pixels_mean_match(0..2, 0..2, 0x050a0f, 0));
}

#[test]
fn single_pixel_makes_a_frame_non_blank() {
    let mut data = black();
    data[(89 * 160 + 159) * 4 + 2] = 1;
    assert!(!Image::new(data).is_blank());
    let mut alpha_only = black();
    alpha_only[3] = 255;
    assert!(Image::new(alpha_only).is_blank());
}

#[test]
fn council_banner_is_seen() {
    let mut data = black();
    paint(&mut data, 28..74, 16..17, 0xadbfd4);
    paint(&mut data, 1..39, 12..13, 0x51252b);
    let img = Image::new(data);
    assert!(img.council);
    assert!(img.is_game());
    // the objective and the progress bar are not read under the banner
    assert!(!img.impostor_objective);
    assert!(!img.progress_bar);
}

#[test]
fn impostor_objective_is_seen() {
    let mut data = black();
    paint(&mut data, 1..39, 12..13, 0x51252b);
    let img = Image::new(data);
    assert!(img.impostor_objective);
    assert!(!img.is_game());
}

#[test]
fn bright_map_and_open_map() {
    let mut data = black();
    paint(&mut data, 152..156, 14..15, 0xc8cbcc);
    paint(&mut data, 153..155, 17..19, 0x54595a);
    let img = Image::new(data.clone());
    assert!(img.bright_map);
    assert!(!img.open_map);
    assert!(img.is_game());
    paint(&mut data, 24..29, 9..14, 0xbdc0c4);
    assert!(Image::new(data).open_map);
}

#[test]
fn open_map_needs_the_bright_map() {
    let mut data = black();
    paint(&mut data, 10..15, 9..15, 0xb9bfbe);
    assert!(!Image::new(data).open_map);
}

#[test]
fn progress_bar_either_form() {
    let mut data = black();
    paint(&mut data, 2..12, 3..6, 0x72a072);
    assert!(Image::new(data).progress_bar);
    let mut data = black();
    paint(&mut data, 64..71, 3..6, 0x353d38);
    paint(&mut data, 64..71, 2..3, 0x989ca5);
    assert!(Image::new(data.clone()).progress_bar);
    // the second form needs both of its windows
    paint(&mut data, 64..71, 2..3, 0x000000);
    assert!(!Image::new(data).progress_bar);
}

#[test]
fn red_frame_is_an_alert() {
    let mut data = black();
    paint(&mut data, 0..160, 0..90, 0xc81e1e);
    let img = Image::new(data.clone());
    assert!(img.alert);
    assert!(img.is_game());
    // the bottom third alone decides once the others pass
    paint(&mut data, 0..160, 60..90, 0x000000);
    assert!(!Image::new(data).alert);
}

#[test]
fn alert_band_needs_red_over_green_and_blue() {
    let mut data = black();
    // red 120 but green + blue 170: difference -50
    paint(&mut data, 0..160, 0..90, 0x785555);
    assert!(!Image::new(data).alert);
    let mut data = black();
    // red 120, green + blue 150: difference -30
    paint(&mut data, 0..160, 0..90, 0x784b4b);
    assert!(Image::new(data).alert);
}

#[test]
fn game_settings_panel() {
    let mut data = black();
    paint(&mut data, 1..17, 3..68, 0x484949);
    let img = Image::new(data.clone());
    assert!(img.game_settings);
    // not while a round is seen
    paint(&mut data, 28..74, 16..17, 0xadbfd4);
    assert!(!Image::new(data).game_settings);
}

#[test]
fn victory_and_defeat_screens() {
    let mut data = black();
    paint(&mut data, 49..111, 12..21, 0x163150);
    let img = Image::new(data);
    assert!(img.victory_screen);
    assert!(!img.defeat_screen);
    let mut data = black();
    paint(&mut data, 53..105, 9..23, 0x4f0d12);
    let img = Image::new(data);
    assert!(img.defeat_screen);
    assert!(!img.victory_screen);
}

#[test]
fn end_screen_needs_the_dark_backdrop() {
    let mut data = black();
    paint(&mut data, 49..111, 12..21, 0x163150);
    paint(&mut data, 40..120, 25..41, 0x404040);
    assert!(!Image::new(data).victory_screen);
}

#[test]
fn features_mirror_the_flags() {
    let mut data = black();
    paint(&mut data, 2..12, 3..6, 0x72a072);
    let img = Image::new(data);
    let f = img.features();
    assert!(f.progress_bar);
    assert_eq!(f.is_game(), img.is_game());
    assert_eq!(
        f,
        FeatureSet { progress_bar: true, ..no_features() }
    );
}
