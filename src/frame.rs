//! A decoded storyboard frame and the visual features read off it.

use std::ops::Range;
use vstd::prelude::*;

use crate::color::{colors_match, spec_colors_match};
use crate::encoding::{base64_of, encode_base64, encode_png_rgb8, png_rgb8_of};

verus! {

/// Width of a frame, in pixels.
pub const FRAME_WIDTH: usize = 160;

/// Height of a frame, in pixels.
pub const FRAME_HEIGHT: usize = 90;

/// Size of a frame's RGBA buffer: four bytes per pixel, row after row.
pub const FRAME_BYTES: usize = 57600;

/// Offset of the red byte of pixel `(x, y)` in an RGBA frame buffer.
pub open spec fn pixel_index(x: int, y: int) -> int {
    y * 640 + x * 4
}

/// The red, green and blue bytes of pixel `(x, y)`; alpha is ignored.
pub open spec fn pixel_of(p: Seq<u8>, x: int, y: int) -> (u8, u8, u8) {
    (p[pixel_index(x, y)], p[pixel_index(x, y) + 1], p[pixel_index(x, y) + 2])
}

/// Sum of channel `c` over the pixels `(x, y)` for `y` in `[y0, y1)`.
pub open spec fn column_sum(p: Seq<u8>, x: int, y0: int, y1: int, c: int) -> int
    decreases y1 - y0,
{
    if y1 <= y0 {
        0
    } else {
        column_sum(p, x, y0, y1 - 1, c) + p[pixel_index(x, y1 - 1) + c]
    }
}

/// Sum of channel `c` over the window `[x0, x1) x [y0, y1)`.
pub open spec fn window_sum(p: Seq<u8>, x0: int, x1: int, y0: int, y1: int, c: int) -> int
    decreases x1 - x0,
{
    if x1 <= x0 {
        0
    } else {
        window_sum(p, x0, x1 - 1, y0, y1, c) + column_sum(p, x1 - 1, y0, y1, c)
    }
}

/// Mean of each channel over the window `[x0, x1) x [y0, y1)`, each rounded
/// down.
pub open spec fn region_mean(p: Seq<u8>, x0: int, x1: int, y0: int, y1: int) -> (u8, u8, u8) {
    let area = (x1 - x0) * (y1 - y0);
    (
        (window_sum(p, x0, x1, y0, y1, 0) / area) as u8,
        (window_sum(p, x0, x1, y0, y1, 1) / area) as u8,
        (window_sum(p, x0, x1, y0, y1, 2) / area) as u8,
    )
}

/// The window lies inside the frame and holds at least one pixel.
pub open spec fn valid_window(x0: int, x1: int, y0: int, y1: int) -> bool {
    0 <= x0 < x1 <= FRAME_WIDTH && 0 <= y0 < y1 <= FRAME_HEIGHT
}

/// The mean colour of the window is within `tolerance` of `expected` on every
/// channel.
pub open spec fn mean_matches(
    p: Seq<u8>,
    x0: int,
    x1: int,
    y0: int,
    y1: int,
    expected: u32,
    tolerance: u8,
) -> bool {
    spec_colors_match(region_mean(p, x0, x1, y0, y1), expected, tolerance)
}

/// The RGB bytes of an RGBA buffer, pixel after pixel, without the alpha bytes.
pub open spec fn rgb_bytes(p: Seq<u8>) -> Seq<u8> {
    Seq::new(((p.len() / 4) * 3) as nat, |j: int| p[(j / 3) * 4 + j % 3])
}

/// The base64 text of the PNG file of a frame's RGB pixels.
pub open spec fn frame_png_base64(p: Seq<u8>) -> Seq<char> {
    base64_of(png_rgb8_of(rgb_bytes(p), 160, 90))
}

/// Every pixel of the frame is black (alpha is not looked at).
pub open spec fn is_blank(p: Seq<u8>) -> bool {
    forall|x: int, y: int|
        0 <= x < FRAME_WIDTH && 0 <= y < FRAME_HEIGHT ==> #[trigger] pixel_of(p, x, y) == (
            0u8,
            0u8,
            0u8,
        )
}

/// Reference colour of the title of the defeat screen.
pub const DEFEAT_TITLE: u32 = 0x4f0d12;

/// Reference colour of the backdrop below the title of the end screens.
pub const END_SCREEN_BACKDROP: u32 = 0x000000;

/// The discussion screen's banner.
pub open spec fn council_in(p: Seq<u8>) -> bool {
    mean_matches(p, 28, 74, 16, 17, 0xadbfd4, 20)
}

/// The map button of the in-game overlay, in its bright form.
pub open spec fn bright_map_in(p: Seq<u8>) -> bool {
    mean_matches(p, 152, 156, 14, 15, 0xc8cbcc, 20) && mean_matches(p, 153, 155, 17, 19, 0x54595a, 20)
}

/// The red task list that only an impostor sees.
pub open spec fn impostor_objective_in(p: Seq<u8>) -> bool {
    !council_in(p) && mean_matches(p, 1, 39, 12, 13, 0x51252b, 20)
}

/// The map is open over the game.
pub open spec fn open_map_in(p: Seq<u8>) -> bool {
    bright_map_in(p) && (mean_matches(p, 24, 29, 9, 14, 0xbdc0c4, 20) || mean_matches(
        p,
        10,
        15,
        9,
        15,
        0xb9bfbe,
        20,
    ))
}

/// One horizontal band of the frame, `[y0, y1)` over the full width, is red
/// enough to be part of an alert.
pub open spec fn alert_band(p: Seq<u8>, y0: int, y1: int) -> bool {
    let m = region_mean(p, 0, 160, y0, y1);
    m.0 >= 110 && m.0 - (m.1 + m.2) > -40
}

/// The whole frame is tinted red: all three thirds pass the band test.
pub open spec fn alert_in(p: Seq<u8>) -> bool {
    alert_band(p, 0, 30) && alert_band(p, 30, 60) && alert_band(p, 60, 90)
}

/// The task progress bar at the top of the screen.
pub open spec fn progress_bar_in(p: Seq<u8>) -> bool {
    !council_in(p) && (mean_matches(p, 2, 12, 3, 6, 0x72a072, 20) || (mean_matches(
        p,
        64,
        71,
        3,
        6,
        0x353d38,
        20,
    ) && mean_matches(p, 64, 71, 2, 3, 0x989ca5, 50)))
}

/// The frame shows a round in progress.
pub open spec fn game_in(p: Seq<u8>) -> bool {
    bright_map_in(p) || council_in(p) || alert_in(p) || progress_bar_in(p)
}

/// The lobby's game settings panel.
pub open spec fn game_settings_in(p: Seq<u8>) -> bool {
    !game_in(p) && mean_matches(p, 1, 17, 3, 68, 0x484949, 15)
}

/// The victory screen.
pub open spec fn victory_screen_in(p: Seq<u8>) -> bool {
    !game_in(p) && mean_matches(p, 49, 111, 12, 21, 0x163150, 10) && mean_matches(
        p,
        40,
        120,
        25,
        41,
        END_SCREEN_BACKDROP,
        10,
    )
}

/// The defeat screen.
pub open spec fn defeat_screen_in(p: Seq<u8>) -> bool {
    !game_in(p) && mean_matches(p, 53, 105, 9, 23, DEFEAT_TITLE, 10) && mean_matches(
        p,
        40,
        120,
        25,
        41,
        END_SCREEN_BACKDROP,
        10,
    )
}

/// The nine features of one frame.
#[derive(Clone, Copy, Debug, PartialEq, Eq, Structural)]
pub struct FeatureSet {
    pub council: bool,
    pub bright_map: bool,
    pub impostor_objective: bool,
    pub open_map: bool,
    pub game_settings: bool,
    pub victory_screen: bool,
    pub defeat_screen: bool,
    pub alert: bool,
    pub progress_bar: bool,
}

impl FeatureSet {
    pub open spec fn spec_is_game(&self) -> bool {
        self.bright_map || self.council || self.alert || self.progress_bar
    }

    /// The frame shows a round in progress: the bright map button, the
    /// discussion banner, an alert or the progress bar is seen.
    #[verifier::when_used_as_spec(spec_is_game)]
    pub fn is_game(&self) -> (r: bool)
        ensures
            r == (self.bright_map || self.council || self.alert || self.progress_bar),
    {
        self.bright_map || self.council || self.alert || self.progress_bar
    }

    pub open spec fn spec_ends_round(&self) -> bool {
        self.victory_screen || self.game_settings || self.defeat_screen
    }

    /// Whether the frame ends a round: an end screen or the lobby's settings.
    #[verifier::when_used_as_spec(spec_ends_round)]
    pub fn ends_round(&self) -> (r: bool)
        ensures
            r == (self.victory_screen || self.game_settings || self.defeat_screen),
    {
        self.victory_screen || self.game_settings || self.defeat_screen
    }
}

/// The features that an image's flags hold.
pub closed spec fn features_of(img: Image) -> FeatureSet {
    FeatureSet {
        council: img.council,
        bright_map: img.bright_map,
        impostor_objective: img.impostor_objective,
        open_map: img.open_map,
        game_settings: img.game_settings,
        victory_screen: img.victory_screen,
        defeat_screen: img.defeat_screen,
        alert: img.alert,
        progress_bar: img.progress_bar,
    }
}

/// The nine features that the pixels of a frame show.
pub open spec fn features_in(p: Seq<u8>) -> FeatureSet {
    FeatureSet {
        council: council_in(p),
        bright_map: bright_map_in(p),
        impostor_objective: impostor_objective_in(p),
        open_map: open_map_in(p),
        game_settings: game_settings_in(p),
        victory_screen: victory_screen_in(p),
        defeat_screen: defeat_screen_in(p),
        alert: alert_in(p),
        progress_bar: progress_bar_in(p),
    }
}

/// An RGBA frame of 160x90 pixels with the features computed from it.
pub struct Image {
    data: Vec<u8>,
    pub council: bool,
    pub bright_map: bool,
    pub impostor_objective: bool,
    pub open_map: bool,
    pub game_settings: bool,
    pub victory_screen: bool,
    pub defeat_screen: bool,
    pub alert: bool,
    pub progress_bar: bool,
    base64: String,
}

impl Image {
    /// The frame's RGBA bytes.
    pub closed spec fn pixels(&self) -> Seq<u8> {
        self.data@
    }

    /// The frame's PNG image in base64, as far as it could be encoded.
    pub closed spec fn base64_text(&self) -> Seq<char> {
        self.base64@
    }

    pub open spec fn wf(&self) -> bool {
        self.pixels().len() == FRAME_BYTES
    }

    /// Red, green and blue of the pixel at column `x`, row `y`.
    pub fn get_pixel(&self, x: u8, y: u8) -> (r: (u8, u8, u8))
        requires
            self.wf(),
            x < FRAME_WIDTH,
            y < FRAME_HEIGHT,
        ensures
            r == pixel_of(self.pixels(), x as int, y as int),
    {
        let i: usize = y as usize * 4 * 160 + x as usize * 4;
        (self.data[i], self.data[i + 1], self.data[i + 2])
    }

    /// Mean of each channel over the window `x_range` x `y_range`, rounded down.
    pub fn get_pixels_mean(&self, x_range: Range<u8>, y_range: Range<u8>) -> (r: (u8, u8, u8))
        requires
            self.wf(),
            valid_window(
                x_range.start as int,
                x_range.end as int,
                y_range.start as int,
                y_range.end as int,
            ),
        ensures
            r == region_mean(
                self.pixels(),
                x_range.start as int,
                x_range.end as int,
                y_range.start as int,
                y_range.end as int,
            ),
    {
        let ghost p = self.pixels();
        let x0 = x_range.start;
        let x1 = x_range.end;
        let y0 = y_range.start;
        let y1 = y_range.end;
        let mut r: u64 = 0;
        let mut g: u64 = 0;
        let mut b: u64 = 0;
        let mut n: u64 = 0;
        let mut x: u8 = x0;
        while x < x1
            invariant
                self.wf(),
                p == self.pixels(),
                valid_window(x0 as int, x1 as int, y0 as int, y1 as int),
                x0 <= x <= x1,
                r == window_sum(p, x0 as int, x as int, y0 as int, y1 as int, 0),
                g == window_sum(p, x0 as int, x as int, y0 as int, y1 as int, 1),
                b == window_sum(p, x0 as int, x as int, y0 as int, y1 as int, 2),
                r <= 255 * n,
                g <= 255 * n,
                b <= 255 * n,
                n <= x * 90,
            decreases x1 - x,
        {
            let mut y: u8 = y0;
            while y < y1
                invariant
                    self.wf(),
                    p == self.pixels(),
                    valid_window(x0 as int, x1 as int, y0 as int, y1 as int),
                    x0 <= x < x1,
                    y0 <= y <= y1,
                    r == window_sum(p, x0 as int, x as int, y0 as int, y1 as int, 0)
                        + column_sum(p, x as int, y0 as int, y as int, 0),
                    g == window_sum(p, x0 as int, x as int, y0 as int, y1 as int, 1)
                        + column_sum(p, x as int, y0 as int, y as int, 1),
                    b == window_sum(p, x0 as int, x as int, y0 as int, y1 as int, 2)
                        + column_sum(p, x as int, y0 as int, y as int, 2),
                    r <= 255 * n,
                    g <= 255 * n,
                    b <= 255 * n,
                    n <= x * 90 + y,
                decreases y1 - y,
            {
                let (r2, g2, b2) = self.get_pixel(x, y);
                r = r + r2 as u64;
                g = g + g2 as u64;
                b = b + b2 as u64;
                n = n + 1;
                y = y + 1;
            }
            x = x + 1;
        }
        let w: u64 = (x1 - x0) as u64;
        let h: u64 = (y1 - y0) as u64;
        assert(w * h <= 160 * 90) by (nonlinear_arith)
            requires
                w <= 160,
                h <= 90,
        ;
        assert(w * h > 0) by (nonlinear_arith)
            requires
                w > 0,
                h > 0,
        ;
        let number: u64 = w * h;
        ((r / number) as u8, (g / number) as u8, (b / number) as u8)
    }

    /// Whether the mean colour of the window is within `tolerance` of
    /// `expected` (`0xRRGGBB`) on every channel.
    pub fn does_pixels_mean_match(
        &self,
        x_range: Range<u8>,
        y_range: Range<u8>,
        expected: u32,
        tolerance: u8,
    ) -> (r: bool)
        requires
            self.wf(),
            valid_window(
                x_range.start as int,
                x_range.end as int,
                y_range.start as int,
                y_range.end as int,
            ),
        ensures
            r == mean_matches(
                self.pixels(),
                x_range.start as int,
                x_range.end as int,
                y_range.start as int,
                y_range.end as int,
                expected,
                tolerance,
            ),
    {
        let got = self.get_pixels_mean(x_range, y_range);
        colors_match(got, expected, tolerance)
    }

    /// Whether the pixel at `(x, y)` is within `tolerance` of `expected`
    /// (`0xRRGGBB`) on every channel.
    pub fn does_pixel_match(&self, x: u8, y: u8, expected: u32, tolerance: u8) -> (r: bool)
        requires
            self.wf(),
            x < FRAME_WIDTH,
            y < FRAME_HEIGHT,
        ensures
            r == spec_colors_match(pixel_of(self.pixels(), x as int, y as int), expected, tolerance),
    {
        let got = self.get_pixel(x, y);
        colors_match(got, expected, tolerance)
    }
}

impl Image {
    /// Reads the features off a 160x90 RGBA frame, and keeps its PNG image in
    /// base64 for display (left empty if the PNG encoder fails).
    pub fn new(data: Vec<u8>) -> (r: Image)
        requires
            data@.len() == FRAME_BYTES,
        ensures
            r.wf(),
            r.pixels() == data@,
            features_of(r) == features_in(data@),
            r.base64_text() == frame_png_base64(data@) || r.base64_text().len() == 0,
    {
        let ghost p = data@;
        let mut image = Image {
            data,
            council: false,
            bright_map: false,
            impostor_objective: false,
            open_map: false,
            game_settings: false,
            victory_screen: false,
            defeat_screen: false,
            alert: false,
            progress_bar: false,
            base64: String::new(),
        };
        image.council = image.does_pixels_mean_match(28..74, 16..17, 0xadbfd4, 20);
        image.bright_map = image.does_pixels_mean_match(152..156, 14..15, 0xc8cbcc, 20)
            && image.does_pixels_mean_match(153..155, 17..19, 0x54595a, 20);
        image.impostor_objective = !image.council && image.does_pixels_mean_match(
            1..39,
            12..13,
            0x51252b,
            20,
        );
        image.open_map = image.bright_map && (image.does_pixels_mean_match(
            24..29,
            9..14,
            0xbdc0c4,
            20,
        ) || image.does_pixels_mean_match(10..15, 9..15, 0xb9bfbe, 20));
        image.alert = image.band_is_alert(0, 30) && image.band_is_alert(30, 60)
            && image.band_is_alert(60, 90);
        image.progress_bar = !image.council && (image.does_pixels_mean_match(
            2..12,
            3..6,
            0x72a072,
            20,
        ) || (image.does_pixels_mean_match(64..71, 3..6, 0x353d38, 20)
            && image.does_pixels_mean_match(64..71, 2..3, 0x989ca5, 50)));
        image.game_settings = !image.is_game() && image.does_pixels_mean_match(
            1..17,
            3..68,
            0x484949,
            15,
        );
        image.victory_screen = !image.is_game() && image.does_pixels_mean_match(
            49..111,
            12..21,
            0x163150,
            10,
        ) && image.does_pixels_mean_match(40..120, 25..41, END_SCREEN_BACKDROP, 10);
        image.defeat_screen = !image.is_game() && image.does_pixels_mean_match(
            53..105,
            9..23,
            DEFEAT_TITLE,
            10,
        ) && image.does_pixels_mean_match(40..120, 25..41, END_SCREEN_BACKDROP, 10);
        let rgb = image.rgb_bytes();
        match encode_png_rgb8(&rgb, 160, 90) {
            Some(png) => {
                if png.len() <= usize::MAX / 2 {
                    image.base64 = encode_base64(&png);
                }
            },
            None => {},
        }
        image
    }

    /// Whether the band `[y0, y1)` over the full width is red enough for an
    /// alert: mean red at least 110, and red minus green and blue above -40.
    fn band_is_alert(&self, y0: u8, y1: u8) -> (r: bool)
        requires
            self.wf(),
            y0 < y1 <= FRAME_HEIGHT,
        ensures
            r == alert_band(self.pixels(), y0 as int, y1 as int),
    {
        let (r, g, b) = self.get_pixels_mean(0..160, y0..y1);
        let diff: i32 = r as i32 - (g as i32 + b as i32);
        r >= 110 && diff > -40
    }

    /// The frame's pixels as RGB bytes, row after row.
    fn rgb_bytes(&self) -> (r: Vec<u8>)
        requires
            self.wf(),
        ensures
            r@ == rgb_bytes(self.pixels()),
    {
        let mut out: Vec<u8> = Vec::new();
        let mut k: usize = 0;
        while k < FRAME_WIDTH * FRAME_HEIGHT
            invariant
                self.wf(),
                k <= FRAME_WIDTH * FRAME_HEIGHT,
                out@.len() == 3 * k,
                forall|j: int| 0 <= j < 3 * k ==> out@[j] == self.pixels()[(j / 3) * 4 + j % 3],
            decreases FRAME_WIDTH * FRAME_HEIGHT - k,
        {
            out.push(self.data[4 * k]);
            out.push(self.data[4 * k + 1]);
            out.push(self.data[4 * k + 2]);
            k = k + 1;
        }
        assert(out@ =~= rgb_bytes(self.pixels()));
        out
    }

    /// The frame's PNG image in base64, or an empty text if it could not be
    /// encoded.
    pub fn base64(&self) -> (r: &str)
        ensures
            r@ == self.base64_text(),
    {
        self.base64.as_str()
    }

    /// The frame shows a round in progress.
    pub fn is_game(&self) -> (r: bool)
        ensures
            r == features_of(*self).spec_is_game(),
    {
        self.bright_map || self.council || self.alert || self.progress_bar
    }

    /// The frame's flags, as one value.
    pub fn features(&self) -> (r: FeatureSet)
        ensures
            r == features_of(*self),
    {
        FeatureSet {
            council: self.council,
            bright_map: self.bright_map,
            impostor_objective: self.impostor_objective,
            open_map: self.open_map,
            game_settings: self.game_settings,
            victory_screen: self.victory_screen,
            defeat_screen: self.defeat_screen,
            alert: self.alert,
            progress_bar: self.progress_bar,
        }
    }

    /// Whether every pixel of the frame is black.
    pub fn is_blank(&self) -> (r: bool)
        requires
            self.wf(),
        ensures
            r == is_blank(self.pixels()),
    {
        let mut x: u8 = 0;
        while x < 160
            invariant
                self.wf(),
                x <= FRAME_WIDTH,
                forall|i: int, j: int|
                    0 <= i < x && 0 <= j < FRAME_HEIGHT ==> #[trigger] pixel_of(self.pixels(), i, j)
                        == (0u8, 0u8, 0u8),
            decreases 160 - x,
        {
            let mut y: u8 = 0;
            while y < 90
                invariant
                    self.wf(),
                    x < FRAME_WIDTH,
                    y <= FRAME_HEIGHT,
                    forall|i: int, j: int|
                        0 <= i < x && 0 <= j < FRAME_HEIGHT ==> #[trigger] pixel_of(
                            self.pixels(),
                            i,
                            j,
                        ) == (0u8, 0u8, 0u8),
                    forall|j: int|
                        0 <= j < y ==> #[trigger] pixel_of(self.pixels(), x as int, j) == (
                            0u8,
                            0u8,
                            0u8,
                        ),
                decreases 90 - y,
            {
                let (r, g, b) = self.get_pixel(x, y);
                if r != 0 || g != 0 || b != 0 {
                    return false;
                }
                y = y + 1;
            }
            x = x + 1;
        }
        true
    }
}

} // verus!
