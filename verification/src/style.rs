//! The style attribute model: colors, text modifiers, accumulated styles, and
//! the patch operation that merges a partial attribute set onto a style.

use vstd::prelude::*;

verus! {

/// A terminal color. `Unset` means the attribute is not specified (a patch
/// carrying it leaves the base color alone); `Reset` is an explicit request
/// for the terminal's default color.
#[derive(Clone, Copy, Debug, PartialEq, Eq, Structural)]
pub enum Color {
    Unset,
    Reset,
    Black,
    Red,
    Green,
    Yellow,
    Blue,
    Magenta,
    Cyan,
    Gray,
    DarkGray,
    LightRed,
    LightGreen,
    LightYellow,
    LightBlue,
    LightMagenta,
    LightCyan,
    White,
    Indexed(u8),
    Rgb(u8, u8, u8),
}

/// A set of text modifiers, one flag per attribute.
#[derive(Clone, Copy, Debug, PartialEq, Eq, Structural)]
pub struct Modifier {
    pub bold: bool,
    pub dim: bool,
    pub italic: bool,
    pub underlined: bool,
    pub slow_blink: bool,
    pub rapid_blink: bool,
    pub reversed: bool,
    pub hidden: bool,
    pub crossed_out: bool,
}

impl Modifier {
    /// The empty modifier set.
    pub open spec fn spec_empty() -> Modifier {
        Modifier {
            bold: false,
            dim: false,
            italic: false,
            underlined: false,
            slow_blink: false,
            rapid_blink: false,
            reversed: false,
            hidden: false,
            crossed_out: false,
        }
    }

    pub fn empty() -> (m: Modifier)
        ensures
            m == Modifier::spec_empty(),
    {
        Modifier {
            bold: false,
            dim: false,
            italic: false,
            underlined: false,
            slow_blink: false,
            rapid_blink: false,
            reversed: false,
            hidden: false,
            crossed_out: false,
        }
    }

    /// The union of two modifier sets.
    pub open spec fn spec_union(self, other: Modifier) -> Modifier {
        Modifier {
            bold: self.bold || other.bold,
            dim: self.dim || other.dim,
            italic: self.italic || other.italic,
            underlined: self.underlined || other.underlined,
            slow_blink: self.slow_blink || other.slow_blink,
            rapid_blink: self.rapid_blink || other.rapid_blink,
            reversed: self.reversed || other.reversed,
            hidden: self.hidden || other.hidden,
            crossed_out: self.crossed_out || other.crossed_out,
        }
    }

    pub fn union(self, other: Modifier) -> (m: Modifier)
        ensures
            m == self.spec_union(other),
    {
        Modifier {
            bold: self.bold || other.bold,
            dim: self.dim || other.dim,
            italic: self.italic || other.italic,
            underlined: self.underlined || other.underlined,
            slow_blink: self.slow_blink || other.slow_blink,
            rapid_blink: self.rapid_blink || other.rapid_blink,
            reversed: self.reversed || other.reversed,
            hidden: self.hidden || other.hidden,
            crossed_out: self.crossed_out || other.crossed_out,
        }
    }

    /// The difference of two modifier sets: every flag of `other` cleared.
    pub open spec fn spec_minus(self, other: Modifier) -> Modifier {
        Modifier {
            bold: self.bold && !other.bold,
            dim: self.dim && !other.dim,
            italic: self.italic && !other.italic,
            underlined: self.underlined && !other.underlined,
            slow_blink: self.slow_blink && !other.slow_blink,
            rapid_blink: self.rapid_blink && !other.rapid_blink,
            reversed: self.reversed && !other.reversed,
            hidden: self.hidden && !other.hidden,
            crossed_out: self.crossed_out && !other.crossed_out,
        }
    }

    pub fn minus(self, other: Modifier) -> (m: Modifier)
        ensures
            m == self.spec_minus(other),
    {
        Modifier {
            bold: self.bold && !other.bold,
            dim: self.dim && !other.dim,
            italic: self.italic && !other.italic,
            underlined: self.underlined && !other.underlined,
            slow_blink: self.slow_blink && !other.slow_blink,
            rapid_blink: self.rapid_blink && !other.rapid_blink,
            reversed: self.reversed && !other.reversed,
            hidden: self.hidden && !other.hidden,
            crossed_out: self.crossed_out && !other.crossed_out,
        }
    }
}

/// An accumulated style: foreground and background colors plus the set of
/// active modifiers. Styles compare by attribute content.
#[derive(Clone, Copy, Debug, PartialEq, Eq, Structural)]
pub struct Style {
    pub fg: Color,
    pub bg: Color,
    pub modifiers: Modifier,
}

impl Style {
    /// The default style: no colors set, no modifiers active.
    pub open spec fn spec_default() -> Style {
        Style { fg: Color::Unset, bg: Color::Unset, modifiers: Modifier::spec_empty() }
    }

    /// Merging a patch onto a style: a reset patch starts over from the
    /// default style; a color the patch sets overrides the base color; the
    /// patch's added modifiers are switched on and its removed modifiers
    /// switched off.
    pub open spec fn spec_patch(self, p: StylePatch) -> Style {
        let base = if p.reset {
            Style::spec_default()
        } else {
            self
        };
        Style {
            fg: if p.fg is Unset {
                base.fg
            } else {
                p.fg
            },
            bg: if p.bg is Unset {
                base.bg
            } else {
                p.bg
            },
            modifiers: base.modifiers.spec_union(p.added).spec_minus(p.removed),
        }
    }

    pub fn patch(self, p: StylePatch) -> (s: Style)
        ensures
            s == self.spec_patch(p),
    {
        let base = if p.reset {
            Style::default()
        } else {
            self
        };
        Style {
            fg: if p.fg == Color::Unset {
                base.fg
            } else {
                p.fg
            },
            bg: if p.bg == Color::Unset {
                base.bg
            } else {
                p.bg
            },
            modifiers: base.modifiers.union(p.added).minus(p.removed),
        }
    }
}

impl Default for Style {
    fn default() -> (s: Style)
        ensures
            s == Style::spec_default(),
    {
        Style { fg: Color::Unset, bg: Color::Unset, modifiers: Modifier::empty() }
    }
}

/// A partial attribute set produced by resolving one SGR parameter list.
/// `reset` records that the list contained a reset-all code; the remaining
/// fields record the attributes the list explicitly sets, adds or removes.
#[derive(Clone, Copy, Debug, PartialEq, Eq, Structural)]
pub struct StylePatch {
    pub reset: bool,
    pub fg: Color,
    pub bg: Color,
    pub added: Modifier,
    pub removed: Modifier,
}

impl StylePatch {
    /// The patch with no effect: no reset, no colors, no modifier changes.
    pub open spec fn spec_empty() -> StylePatch {
        StylePatch {
            reset: false,
            fg: Color::Unset,
            bg: Color::Unset,
            added: Modifier::spec_empty(),
            removed: Modifier::spec_empty(),
        }
    }

    pub fn empty() -> (p: StylePatch)
        ensures
            p == StylePatch::spec_empty(),
    {
        StylePatch {
            reset: false,
            fg: Color::Unset,
            bg: Color::Unset,
            added: Modifier::empty(),
            removed: Modifier::empty(),
        }
    }
}

} // verus!
