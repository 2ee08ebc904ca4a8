//! Workplace settings of the user interface: the semantic colour palette,
//! the defaults that older settings files fall back to, and the rules that
//! bring a loaded file up to date. Reading and writing the file, and the
//! measured values (grid size, colour intensities), are the caller's.

use vstd::prelude::*;

use crate::datetime::{gen_id, id_spec};

verus! {

/// Current format version of the settings file.
pub const UI_FORMAT_VERSION: u32 = 2;

/// Bounds of the splash duration (ms): 0 means at once, at most 10 s.
pub const SPLASH_MS_MIN: u32 = 0;

pub const SPLASH_MS_MAX: u32 = 10_000;

/// Semantic surface colours, so that panels use no scattered RGB literals
/// and the visual hierarchy stays the same in every view.
#[derive(Debug, Clone, Copy)]
pub struct ThemePalette {
    pub background: [u8; 3],
    pub toolbar: [u8; 3],
    pub panel: [u8; 3],
    pub surface: [u8; 3],
    pub border: [u8; 3],
    pub text: [u8; 3],
    pub muted: [u8; 3],
    pub success: [u8; 3],
    pub danger: [u8; 3],
}

/// The dark workshop palette.
pub open spec fn workshop_palette() -> ThemePalette {
    ThemePalette {
        background: [0x11, 0x13, 0x18],
        toolbar: [0x18, 0x1b, 0x22],
        panel: [0x1e, 0x22, 0x2b],
        surface: [0x26, 0x2b, 0x35],
        border: [0x34, 0x3a, 0x46],
        text: [0xf2, 0xf3, 0xf5],
        muted: [0xa7, 0xaf, 0xbc],
        success: [0x4a, 0xde, 0x80],
        danger: [0xf8, 0x71, 0x71],
    }
}

impl Default for ThemePalette {
    fn default() -> (p: ThemePalette)
        ensures
            p == workshop_palette(),
    {
        ThemePalette {
            background: [0x11, 0x13, 0x18],
            toolbar: [0x18, 0x1b, 0x22],
            panel: [0x1e, 0x22, 0x2b],
            surface: [0x26, 0x2b, 0x35],
            border: [0x34, 0x3a, 0x46],
            text: [0xf2, 0xf3, 0xf5],
            muted: [0xa7, 0xaf, 0xbc],
            success: [0x4a, 0xde, 0x80],
            danger: [0xf8, 0x71, 0x71],
        }
    }
}

/// Default minimum splash duration (ms).
pub fn default_splash_ms() -> (r: u32)
    ensures
        r == 1500,
{
    1500
}

/// Default opacity of the dark area behind modal dialogs.
pub fn default_modal_backdrop_alpha() -> (r: u8)
    ensures
        r == 200,
{
    200
}

/// Default address of the Charon service.
pub fn default_charon_url() -> (r: String)
    ensures
        r@ == "http://127.0.0.1:3737"@,
{
    "http://127.0.0.1:3737".to_owned()
}

/// A fresh stable workplace id for settings that have none.
pub fn default_workplace_id() -> (r: String)
    ensures
        exists|nanos: u128, entropy: u128| r@ == id_spec(nanos, entropy),
{
    gen_id()
}

/// Switches that are on unless a settings file says otherwise.
pub fn default_true() -> (r: bool)
    ensures
        r,
{
    true
}

/// The splash duration kept within its bounds.
pub fn clamp_splash_ms(ms: u32) -> (r: u32)
    ensures
        r == if ms > SPLASH_MS_MAX {
            SPLASH_MS_MAX
        } else {
            ms
        },
{
    if ms > SPLASH_MS_MAX {
        SPLASH_MS_MAX
    } else if ms < SPLASH_MS_MIN {
        SPLASH_MS_MIN
    } else {
        ms
    }
}

/// Are these the accent and button hues of the unchanged former default
/// theme? Only those are replaced by the new defaults when an old file is
/// upgraded; colours a user chose stay.
pub fn is_former_default_theme(accent_hue: [u8; 3], button_hue: [u8; 3]) -> (r: bool)
    ensures
        r == (accent_hue == [0x3bu8, 0x82, 0xf6] && button_hue == [0x60u8, 0x66, 0x70]),
{
    let a = accent_hue[0] == 0x3b && accent_hue[1] == 0x82 && accent_hue[2] == 0xf6;
    let b = button_hue[0] == 0x60 && button_hue[1] == 0x66 && button_hue[2] == 0x70;
    assert(a == (accent_hue =~= [0x3bu8, 0x82, 0xf6]));
    assert(b == (button_hue =~= [0x60u8, 0x66, 0x70]));
    a && b
}

/// Must a settings file just loaded be written back: it lacked a workplace
/// id, or its format version is missing or older than the current one?
pub fn needs_rewrite(had_workplace_id: bool, version: Option<u64>) -> (r: bool)
    ensures
        r == (!had_workplace_id || match version {
            None => true,
            Some(v) => v < UI_FORMAT_VERSION,
        }),
{
    let outdated = match version {
        None => true,
        Some(v) => v < UI_FORMAT_VERSION as u64,
    };
    !had_workplace_id || outdated
}

} // verus!
