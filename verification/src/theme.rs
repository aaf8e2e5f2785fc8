//! The palette.
use crate::style::{Color, Style, colored};
use vstd::prelude::*;

verus! {

#[derive(Clone, Copy, PartialEq, Eq, Structural, Debug)]
pub struct Theme {
    pub accent: Color,
    pub text: Color,
    pub muted: Color,
    pub faint: Color,
    pub success: Color,
    pub danger: Color,
    pub warn: Color,
    pub lane: Color,
    pub code: Color,
}

/// The one palette. The accent is a neutral tone that stands apart from the
/// greys around it, and lane activity shares it.
#[verifier::allow_in_spec]
pub fn theme() -> Theme
    returns
        (Theme {
            accent: Color::Rgb(180, 190, 205),
            text: Color::Rgb(229, 231, 235),
            muted: Color::Rgb(156, 163, 175),
            faint: Color::Rgb(107, 114, 128),
            success: Color::Rgb(52, 211, 153),
            danger: Color::Rgb(248, 113, 113),
            warn: Color::Rgb(251, 191, 36),
            lane: Color::Rgb(180, 190, 205),
            code: Color::Rgb(209, 213, 219),
        }),
{
    Theme {
        accent: Color::Rgb(180, 190, 205),
        text: Color::Rgb(229, 231, 235),
        muted: Color::Rgb(156, 163, 175),
        faint: Color::Rgb(107, 114, 128),
        success: Color::Rgb(52, 211, 153),
        danger: Color::Rgb(248, 113, 113),
        warn: Color::Rgb(251, 191, 36),
        lane: Color::Rgb(180, 190, 205),
        code: Color::Rgb(209, 213, 219),
    }
}

/// Every name that a configuration may hold stands for the one palette.
pub fn set_theme_by_name(_name: &str) -> (r: bool)
    ensures
        r,
{
    true
}

#[verifier::allow_in_spec]
pub fn accent() -> Color
    returns
        theme().accent,
{
    theme().accent
}

/// The colour of ordinary text.
#[verifier::allow_in_spec]
pub fn ink() -> Color
    returns
        theme().text,
{
    theme().text
}

#[verifier::allow_in_spec]
pub fn muted() -> Color
    returns
        theme().muted,
{
    theme().muted
}

#[verifier::allow_in_spec]
pub fn faint() -> Color
    returns
        theme().faint,
{
    theme().faint
}

#[verifier::allow_in_spec]
pub fn success() -> Color
    returns
        theme().success,
{
    theme().success
}

#[verifier::allow_in_spec]
pub fn danger() -> Color
    returns
        theme().danger,
{
    theme().danger
}

#[verifier::allow_in_spec]
pub fn warn() -> Color
    returns
        theme().warn,
{
    theme().warn
}

#[verifier::allow_in_spec]
pub fn lane() -> Color
    returns
        theme().lane,
{
    theme().lane
}

#[verifier::allow_in_spec]
pub fn code() -> Color
    returns
        theme().code,
{
    theme().code
}

#[verifier::allow_in_spec]
pub fn blue() -> Color
    returns
        accent(),
{
    accent()
}

/// Text that stands back.
#[verifier::allow_in_spec]
pub fn subtle() -> Style
    returns
        colored(muted()),
{
    colored(muted())
}

} // verus!
