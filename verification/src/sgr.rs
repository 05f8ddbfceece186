//! Style resolution: mapping a completed list of SGR numeric parameters to a
//! single style patch, applying the codes left to right. Unknown codes are
//! ignored; an extended-color form missing its sub-parameters is a parse
//! error.

use vstd::prelude::*;

use crate::Error;
use crate::style::{Color, Modifier, Style, StylePatch};

verus! {

/// The basic foreground/background palette, for codes 30-37 and 40-47:
/// `n` is the code minus its base.
pub open spec fn spec_basic_color(n: nat) -> Color {
    if n == 0 {
        Color::Black
    } else if n == 1 {
        Color::Red
    } else if n == 2 {
        Color::Green
    } else if n == 3 {
        Color::Yellow
    } else if n == 4 {
        Color::Blue
    } else if n == 5 {
        Color::Magenta
    } else if n == 6 {
        Color::Cyan
    } else {
        Color::Gray
    }
}

/// The bright palette, for codes 90-97 and 100-107.
pub open spec fn spec_bright_color(n: nat) -> Color {
    if n == 0 {
        Color::DarkGray
    } else if n == 1 {
        Color::LightRed
    } else if n == 2 {
        Color::LightGreen
    } else if n == 3 {
        Color::LightYellow
    } else if n == 4 {
        Color::LightBlue
    } else if n == 5 {
        Color::LightMagenta
    } else if n == 6 {
        Color::LightCyan
    } else {
        Color::White
    }
}

/// One modifier flag by itself, used to build code effects.
pub open spec fn spec_one_modifier(
    bold: bool,
    dim: bool,
    italic: bool,
    underlined: bool,
    slow_blink: bool,
    rapid_blink: bool,
    reversed: bool,
    hidden: bool,
    crossed_out: bool,
) -> Modifier {
    Modifier {
        bold,
        dim,
        italic,
        underlined,
        slow_blink,
        rapid_blink,
        reversed,
        hidden,
        crossed_out,
    }
}

/// The effect of one simple (non-extended) SGR code on the patch built so
/// far. Code 0 restarts the patch as a full reset; color codes set the
/// patch's colors; modifier codes move flags between the added and removed
/// sets; every other code is ignored.
pub open spec fn spec_apply_code(p: StylePatch, code: nat) -> StylePatch {
    if code == 0 {
        StylePatch {
            reset: true,
            fg: Color::Unset,
            bg: Color::Unset,
            added: Modifier::spec_empty(),
            removed: Modifier::spec_empty(),
        }
    } else if 1 <= code <= 9 {
        let m = spec_modifier_of_code(code);
        StylePatch { added: p.added.spec_union(m), removed: p.removed.spec_minus(m), ..p }
    } else if 22 <= code <= 29 {
        let m = spec_disabled_of_code(code);
        StylePatch { added: p.added.spec_minus(m), removed: p.removed.spec_union(m), ..p }
    } else if 30 <= code <= 37 {
        StylePatch { fg: spec_basic_color((code - 30) as nat), ..p }
    } else if code == 39 {
        StylePatch { fg: Color::Reset, ..p }
    } else if 40 <= code <= 47 {
        StylePatch { bg: spec_basic_color((code - 40) as nat), ..p }
    } else if code == 49 {
        StylePatch { bg: Color::Reset, ..p }
    } else if 90 <= code <= 97 {
        StylePatch { fg: spec_bright_color((code - 90) as nat), ..p }
    } else if 100 <= code <= 107 {
        StylePatch { bg: spec_bright_color((code - 100) as nat), ..p }
    } else {
        p
    }
}

/// The modifier switched on by codes 1-9.
pub open spec fn spec_modifier_of_code(code: nat) -> Modifier {
    spec_one_modifier(
        code == 1,
        code == 2,
        code == 3,
        code == 4,
        code == 5,
        code == 6,
        code == 7,
        code == 8,
        code == 9,
    )
}

/// The modifiers switched off by codes 22-29: 22 ends bold and dim, 23
/// italic, 24 underline, 25 both blink speeds, 27 reverse video, 28 hidden,
/// 29 crossed-out. Codes 21 and 26 have no widely agreed meaning and are
/// ignored.
pub open spec fn spec_disabled_of_code(code: nat) -> Modifier {
    spec_one_modifier(
        code == 22,
        code == 22,
        code == 23,
        code == 24,
        code == 25,
        code == 25,
        code == 27,
        code == 28,
        code == 29,
    )
}

/// Resolution of a parameter list from position `i` onward, folding each
/// code's effect onto `p`. The extended forms `38;5;N`, `38;2;R;G;B` (and
/// `48;...` for the background) consume their sub-parameters; a `38` or `48`
/// without a complete sub-parameter list is a parse error. Color components
/// are taken modulo 256.
pub open spec fn spec_resolve_at(params: Seq<nat>, i: int, p: StylePatch) -> Result<
    StylePatch,
    Error,
>
    decreases params.len() - i,
{
    if i < 0 || i >= params.len() {
        Ok(p)
    } else {
        let code = params[i];
        if code == 38 || code == 48 {
            if params.len() - i > 1 && params[i + 1] == 5 {
                if params.len() - i > 2 {
                    let c = Color::Indexed((params[i + 2] % 256) as u8);
                    spec_resolve_at(params, i + 3, spec_set_extended(p, code, c))
                } else {
                    Err(Error::Parse)
                }
            } else if params.len() - i > 1 && params[i + 1] == 2 {
                if params.len() - i > 4 {
                    let c = Color::Rgb(
                        (params[i + 2] % 256) as u8,
                        (params[i + 3] % 256) as u8,
                        (params[i + 4] % 256) as u8,
                    );
                    spec_resolve_at(params, i + 5, spec_set_extended(p, code, c))
                } else {
                    Err(Error::Parse)
                }
            } else {
                Err(Error::Parse)
            }
        } else {
            spec_resolve_at(params, i + 1, spec_apply_code(p, code))
        }
    }
}

/// An extended color lands on the foreground for code 38 and on the
/// background for code 48.
pub open spec fn spec_set_extended(p: StylePatch, code: nat, c: Color) -> StylePatch {
    if code == 38 {
        StylePatch { fg: c, ..p }
    } else {
        StylePatch { bg: c, ..p }
    }
}

/// The patch a whole parameter list resolves to.
pub open spec fn spec_resolve(params: Seq<nat>) -> Result<StylePatch, Error> {
    spec_resolve_at(params, 0, StylePatch::spec_empty())
}

/// The exec counterpart of `spec_apply_code`.
pub fn apply_code(p: StylePatch, code: usize) -> (r: StylePatch)
    ensures
        r == spec_apply_code(p, code as nat),
{
    if code == 0 {
        StylePatch {
            reset: true,
            fg: Color::Unset,
            bg: Color::Unset,
            added: Modifier::empty(),
            removed: Modifier::empty(),
        }
    } else if 1 <= code && code <= 9 {
        let m = modifier_of_code(code);
        StylePatch { added: p.added.union(m), removed: p.removed.minus(m), ..p }
    } else if 22 <= code && code <= 29 {
        let m = disabled_of_code(code);
        StylePatch { added: p.added.minus(m), removed: p.removed.union(m), ..p }
    } else if 30 <= code && code <= 37 {
        StylePatch { fg: basic_color(code - 30), ..p }
    } else if code == 39 {
        StylePatch { fg: Color::Reset, ..p }
    } else if 40 <= code && code <= 47 {
        StylePatch { bg: basic_color(code - 40), ..p }
    } else if code == 49 {
        StylePatch { bg: Color::Reset, ..p }
    } else if 90 <= code && code <= 97 {
        StylePatch { fg: bright_color(code - 90), ..p }
    } else if 100 <= code && code <= 107 {
        StylePatch { bg: bright_color(code - 100), ..p }
    } else {
        p
    }
}

fn basic_color(n: usize) -> (c: Color)
    ensures
        c == spec_basic_color(n as nat),
{
    if n == 0 {
        Color::Black
    } else if n == 1 {
        Color::Red
    } else if n == 2 {
        Color::Green
    } else if n == 3 {
        Color::Yellow
    } else if n == 4 {
        Color::Blue
    } else if n == 5 {
        Color::Magenta
    } else if n == 6 {
        Color::Cyan
    } else {
        Color::Gray
    }
}

fn bright_color(n: usize) -> (c: Color)
    ensures
        c == spec_bright_color(n as nat),
{
    if n == 0 {
        Color::DarkGray
    } else if n == 1 {
        Color::LightRed
    } else if n == 2 {
        Color::LightGreen
    } else if n == 3 {
        Color::LightYellow
    } else if n == 4 {
        Color::LightBlue
    } else if n == 5 {
        Color::LightMagenta
    } else if n == 6 {
        Color::LightCyan
    } else {
        Color::White
    }
}

fn modifier_of_code(code: usize) -> (m: Modifier)
    ensures
        m == spec_modifier_of_code(code as nat),
{
    Modifier {
        bold: code == 1,
        dim: code == 2,
        italic: code == 3,
        underlined: code == 4,
        slow_blink: code == 5,
        rapid_blink: code == 6,
        reversed: code == 7,
        hidden: code == 8,
        crossed_out: code == 9,
    }
}

fn disabled_of_code(code: usize) -> (m: Modifier)
    ensures
        m == spec_disabled_of_code(code as nat),
{
    Modifier {
        bold: code == 22,
        dim: code == 22,
        italic: code == 23,
        underlined: code == 24,
        slow_blink: code == 25,
        rapid_blink: code == 25,
        reversed: code == 27,
        hidden: code == 28,
        crossed_out: code == 29,
    }
}

/// Resolves a whole parameter list into one style patch, left to right.
pub fn resolve(params: &Vec<usize>) -> (r: Result<StylePatch, Error>)
    ensures
        r == spec_resolve(params@.map_values(|v: usize| v as nat)),
{
    let ghost gp = params@.map_values(|v: usize| v as nat);
    proof {
        assert(gp.len() == params@.len());
    }
    let mut p = StylePatch::empty();
    let mut i: usize = 0;
    while i < params.len()
        invariant
            i <= params.len(),
            gp == params@.map_values(|v: usize| v as nat),
            gp.len() == params@.len(),
            spec_resolve_at(gp, i as int, p) == spec_resolve(gp),
        decreases params.len() - i,
    {
        let code = params[i];
        if code == 38 || code == 48 {
            if params.len() - i > 1 && params[i + 1] == 5 {
                if params.len() - i > 2 {
                    let c = Color::Indexed((params[i + 2] % 256) as u8);
                    p = if code == 38 {
                        StylePatch { fg: c, ..p }
                    } else {
                        StylePatch { bg: c, ..p }
                    };
                    i = i + 3;
                } else {
                    return Err(Error::Parse);
                }
            } else if params.len() - i > 1 && params[i + 1] == 2 {
                if params.len() - i > 4 {
                    let c = Color::Rgb(
                        (params[i + 2] % 256) as u8,
                        (params[i + 3] % 256) as u8,
                        (params[i + 4] % 256) as u8,
                    );
                    p = if code == 38 {
                        StylePatch { fg: c, ..p }
                    } else {
                        StylePatch { bg: c, ..p }
                    };
                    i = i + 5;
                } else {
                    return Err(Error::Parse);
                }
            } else {
                return Err(Error::Parse);
            }
        } else {
            p = apply_code(p, code);
            i = i + 1;
        }
    }
    Ok(p)
}

/// Resolves a parameter list and merges the resulting patch onto `style`.
pub fn resolve_onto(style: Style, params: &Vec<usize>) -> (r: Result<Style, Error>)
    ensures
        match spec_resolve(params@.map_values(|v: usize| v as nat)) {
            Ok(p) => r == Ok::<Style, Error>(style.spec_patch(p)),
            Err(e) => r == Err::<Style, Error>(e),
        },
{
    match resolve(params) {
        Ok(p) => Ok(style.patch(p)),
        Err(e) => Err(e),
    }
}

} // verus!
