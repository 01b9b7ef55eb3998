//! Server-side decoration settings.

use vstd::prelude::*;

use crate::config::color::RgbColor;
use crate::config::error;
use crate::config::error::{ConfigError, Fault};
use crate::text;
use crate::text::{byte_size, is_blank, is_printable_ascii};

verus! {

/// Horizontal alignment of a window title within its usable titlebar area.
#[derive(Clone, Copy, Debug, PartialEq, Eq, Structural)]
pub enum TitleAlignment {
    /// Align titles to the leading edge.
    Left,
    /// Center titles between the leading edge and the window buttons.
    Center,
    /// Align titles immediately before the window buttons.
    Right,
}

impl Default for TitleAlignment {
    /// The leading edge.
    fn default() -> (alignment: Self)
        ensures
            alignment == TitleAlignment::Left,
    {
        TitleAlignment::Left
    }
}

impl TitleAlignment {
    /// The configuration spelling.
    pub open spec fn name(self) -> Seq<char> {
        match self {
            TitleAlignment::Left => "left"@,
            TitleAlignment::Center => "center"@,
            TitleAlignment::Right => "right"@,
        }
    }

    /// Returns the configuration spelling.
    #[must_use]
    pub fn as_str(self) -> (name: &'static str)
        ensures
            name@ == self.name(),
    {
        match self {
            TitleAlignment::Left => "left",
            TitleAlignment::Center => "center",
            TitleAlignment::Right => "right",
        }
    }
}

/// Server-side decoration settings.
#[derive(Clone, Debug, PartialEq, Eq)]
pub struct ThemeConfig {
    /// Border width in pixels.
    pub border_width: u32,
    /// Titlebar height in pixels; zero disables the titlebar.
    pub titlebar_height: u32,
    /// X11 core font name or XLFD used by titlebars, menus, and overlays.
    pub font: String,
    /// Horizontal title alignment within the space left by window buttons.
    pub title_alignment: TitleAlignment,
    /// Horizontal inset around title text in pixels.
    pub title_padding: u32,
    /// Focused-client border color.
    pub active_border: RgbColor,
    /// Unfocused-client border color.
    pub inactive_border: RgbColor,
    /// Urgent-client border color.
    pub urgent_border: RgbColor,
    /// Focused-client titlebar color.
    pub active_titlebar: RgbColor,
    /// Unfocused-client titlebar color.
    pub inactive_titlebar: RgbColor,
    /// Urgent-client titlebar color.
    pub urgent_titlebar: RgbColor,
    /// Title text color.
    pub title_text: RgbColor,
    /// Minimize-button color.
    pub minimize_button: RgbColor,
    /// Maximize-button color.
    pub maximize_button: RgbColor,
    /// Close-button color.
    pub close_button: RgbColor,
    /// Glyph and interaction-outline color shared by titlebar buttons.
    pub button_glyph: RgbColor,
    /// Color of the manager's agent-activity markers: the standing indicator
    /// while a session holds input or capture, and the frame highlight on a
    /// window receiving agent input. Deliberately unlike every other theme
    /// color so it cannot be mistaken for ordinary decoration.
    pub agent_marker: RgbColor,
}

/// What a theme looks like.
pub ghost struct ThemeModel {
    pub border_width: u32,
    pub titlebar_height: u32,
    pub font: Seq<char>,
    pub title_alignment: TitleAlignment,
    pub title_padding: u32,
    pub active_border: u32,
    pub inactive_border: u32,
    pub urgent_border: u32,
    pub active_titlebar: u32,
    pub inactive_titlebar: u32,
    pub urgent_titlebar: u32,
    pub title_text: u32,
    pub minimize_button: u32,
    pub maximize_button: u32,
    pub close_button: u32,
    pub button_glyph: u32,
    pub agent_marker: u32,
}

impl View for ThemeConfig {
    type V = ThemeModel;

    open spec fn view(&self) -> ThemeModel {
        ThemeModel {
            border_width: self.border_width,
            titlebar_height: self.titlebar_height,
            font: self.font@,
            title_alignment: self.title_alignment,
            title_padding: self.title_padding,
            active_border: self.active_border.packed(),
            inactive_border: self.inactive_border.packed(),
            urgent_border: self.urgent_border.packed(),
            active_titlebar: self.active_titlebar.packed(),
            inactive_titlebar: self.inactive_titlebar.packed(),
            urgent_titlebar: self.urgent_titlebar.packed(),
            title_text: self.title_text.packed(),
            minimize_button: self.minimize_button.packed(),
            maximize_button: self.maximize_button.packed(),
            close_button: self.close_button.packed(),
            button_glyph: self.button_glyph.packed(),
            agent_marker: self.agent_marker.packed(),
        }
    }
}

impl ThemeModel {
    /// The theme that nobox ships with.
    pub open spec fn standard() -> ThemeModel {
        ThemeModel {
            border_width: 2,
            titlebar_height: 24,
            font: "-*-helvetica-medium-r-normal--12-*-*-*-p-*-iso10646-1"@,
            title_alignment: TitleAlignment::Left,
            title_padding: 8,
            active_border: 0x5e81a2,
            inactive_border: 0x2e3238,
            urgent_border: 0xa84c44,
            active_titlebar: 0x2d323b,
            inactive_titlebar: 0x1f2228,
            urgent_titlebar: 0x533029,
            title_text: 0xe2e6ec,
            minimize_button: 0x383e48,
            maximize_button: 0x383e48,
            close_button: 0x7d3b3b,
            button_glyph: 0xdfe3ea,
            agent_marker: 0xd87f1e,
        }
    }

    /// The first thing wrong with the theme.
    pub open spec fn fault(self) -> Option<Fault> {
        if self.border_width > 64 {
            Some(Fault::BorderTooWide(self.border_width))
        } else if self.titlebar_height > 128 {
            Some(Fault::TitlebarTooTall(self.titlebar_height))
        } else if text::blank(self.font) || text::size(self.font) > 255 || !text::printable_ascii(
            self.font,
        ) {
            Some(Fault::InvalidThemeFont)
        } else if self.title_padding > 64 {
            Some(Fault::TitlePaddingTooWide(self.title_padding))
        } else {
            None
        }
    }
}

impl Default for ThemeConfig {
    /// The theme that nobox ships with.
    fn default() -> (theme: Self)
        ensures
            theme@ == ThemeModel::standard(),
    {
        ThemeConfig {
            border_width: 2,
            titlebar_height: 24,
            font: "-*-helvetica-medium-r-normal--12-*-*-*-p-*-iso10646-1".to_owned(),
            title_alignment: TitleAlignment::Left,
            title_padding: 8,
            active_border: RgbColor::new(0x5e, 0x81, 0xa2),
            inactive_border: RgbColor::new(0x2e, 0x32, 0x38),
            urgent_border: RgbColor::new(0xa8, 0x4c, 0x44),
            active_titlebar: RgbColor::new(0x2d, 0x32, 0x3b),
            inactive_titlebar: RgbColor::new(0x1f, 0x22, 0x28),
            urgent_titlebar: RgbColor::new(0x53, 0x30, 0x29),
            title_text: RgbColor::new(0xe2, 0xe6, 0xec),
            minimize_button: RgbColor::new(0x38, 0x3e, 0x48),
            maximize_button: RgbColor::new(0x38, 0x3e, 0x48),
            close_button: RgbColor::new(0x7d, 0x3b, 0x3b),
            button_glyph: RgbColor::new(0xdf, 0xe3, 0xea),
            agent_marker: RgbColor::new(0xd8, 0x7f, 0x1e),
        }
    }
}

impl ThemeConfig {
    /// Checks the theme's bounds.
    ///
    /// # Errors
    ///
    /// Returns the first problem found.
    pub fn validate(&self) -> (outcome: Result<(), ConfigError>)
        ensures
            error::fault_in(outcome) == self@.fault(),
    {
        if self.border_width > 64 {
            return Err(ConfigError::BorderTooWide(self.border_width));
        }
        if self.titlebar_height > 128 {
            return Err(ConfigError::TitlebarTooTall(self.titlebar_height));
        }
        let font = self.font.as_str();
        if is_blank(font) || byte_size(font) > 255 || !is_printable_ascii(font) {
            return Err(ConfigError::InvalidThemeFont);
        }
        if self.title_padding > 64 {
            return Err(ConfigError::TitlePaddingTooWide(self.title_padding));
        }
        Ok(())
    }
}

} // verus!
