//! The window's two appearances, as the `#rrggbb` values the report's
//! stylesheet also carries: black on white, hairline rules, one red.

use vstd::prelude::*;

use crate::text::same_text;

verus! {

/// One appearance, each colour as `0xrrggbb`.
#[derive(Debug, Clone, Copy, PartialEq, Eq)]
pub struct Palette {
    /// The page itself, behind everything.
    pub bg: u32,
    /// Body text.
    pub fg: u32,
    /// Secondary text.
    pub muted: u32,
    /// The 1px rule that does all the dividing: pure ink in light, mid grey
    /// in dark, since a dark theme with black hairlines shows nothing at all.
    pub hairline: u32,
    /// The softer divider.
    pub rule: u32,
    /// A raised fill.
    pub surface: u32,
    /// The one red.
    pub accent: u32,
    /// Text on the accent.
    pub accent_fg: u32,
}

/// The light appearance.
pub open spec fn light_spec() -> Palette {
    Palette {
        bg: 0xffffff,
        fg: 0x0a0a0a,
        muted: 0x6b6b6b,
        hairline: 0x0a0a0a,
        rule: 0xe6e6e6,
        surface: 0xf4f4f4,
        accent: 0xe60023,
        accent_fg: 0xffffff,
    }
}

/// The dark appearance.
pub open spec fn dark_spec() -> Palette {
    Palette {
        bg: 0x0a0a0a,
        fg: 0xe8e8e8,
        muted: 0x888888,
        hairline: 0x333333,
        rule: 0x262626,
        surface: 0x141414,
        accent: 0xff3347,
        accent_fg: 0xffffff,
    }
}

impl Palette {
    /// Black on white.
    pub fn light() -> (p: Self)
        ensures
            p == light_spec(),
    {
        Palette {
            bg: 0xffffff,
            fg: 0x0a0a0a,
            muted: 0x6b6b6b,
            hairline: 0x0a0a0a,
            rule: 0xe6e6e6,
            surface: 0xf4f4f4,
            accent: 0xe60023,
            accent_fg: 0xffffff,
        }
    }

    /// Light on near-black.
    pub fn dark() -> (p: Self)
        ensures
            p == dark_spec(),
    {
        Palette {
            bg: 0x0a0a0a,
            fg: 0xe8e8e8,
            muted: 0x888888,
            hairline: 0x333333,
            rule: 0x262626,
            surface: 0x141414,
            accent: 0xff3347,
            accent_fg: 0xffffff,
        }
    }

    /// The appearance by name: anything but `light` falls back to dark, so a
    /// bad name cannot leave the window unreadable.
    pub fn named(name: &str) -> (p: Self)
        ensures
            p == (if name@ == "light"@ { light_spec() } else { dark_spec() }),
    {
        if same_text(name, "light") {
            Self::light()
        } else {
            Self::dark()
        }
    }
}

/// The two appearances differ in page, text and accent; a light hairline is
/// the ink colour; and the dark hairline is a grey lighter than the dark page
/// and darker than its text, since black hairlines on a dark page show nothing.
pub proof fn law_the_appearances_differ()
    ensures
        light_spec().bg != dark_spec().bg,
        light_spec().fg != dark_spec().fg,
        light_spec().accent != dark_spec().accent,
        light_spec().hairline == light_spec().fg,
        dark_spec().bg < dark_spec().hairline < dark_spec().fg,
{
}

} // verus!
