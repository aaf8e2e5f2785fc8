//! The palette: its neutral ramp, and what must stay apart in it.
use snippet::style::Color;
use snippet::theme::{set_theme_by_name, theme};

/// Relative luminance. Every palette entry is `Color::Rgb`.
fn luminance(c: Color) -> f64 {
    let (r, g, b) = match c {
        Color::Rgb(r, g, b) => (r, g, b),
        other => panic!("palette entries must be Rgb, got {other:?}"),
    };
    fn ch(v: u8) -> f64 {
        let v = v as f64 / 255.0;
        if v <= 0.04045 {
            v / 12.92
        } else {
            ((v + 0.055) / 1.055).powf(2.4)
        }
    }
    0.2126 * ch(r) + 0.7152 * ch(g) + 0.0722 * ch(b)
}

fn contrast(a: Color, b: Color) -> f64 {
    let (la, lb) = (luminance(a), luminance(b));
    let (hi, lo) = if la > lb { (la, lb) } else { (lb, la) };
    (hi + 0.05) / (lo + 0.05)
}

/// How colourful a value is, 0.0 (grey) to 1.0.
fn saturation(c: Color) -> f64 {
    let (r, g, b) = match c {
        Color::Rgb(r, g, b) => (r, g, b),
        _ => return 0.0,
    };
    let mx = r.max(g).max(b);
    let mn = r.min(g).min(b);
    if mx == 0 {
        0.0
    } else {
        (mx - mn) as f64 / mx as f64
    }
}

/// The neutral ramp must descend in luminance, or the hierarchy inverts.
#[test]
fn the_neutral_ramp_descends() {
    let t = theme();
    let ramp = [
        ("text", t.text),
        ("accent", t.accent),
        ("muted", t.muted),
        ("faint", t.faint),
    ];
    for pair in ramp.windows(2) {
        let (hi_name, hi) = pair[0];
        let (lo_name, lo) = pair[1];
        assert!(
            luminance(hi) > luminance(lo),
            "{hi_name} must be lighter than {lo_name}, but {:.3} <= {:.3}",
            luminance(hi),
            luminance(lo),
        );
    }
}

/// Adjacent steps must actually separate, not merely be ordered.
#[test]
fn adjacent_ramp_steps_separate() {
    let t = theme();
    for (a, b, name) in [
        (t.text, t.accent, "text/accent"),
        (t.accent, t.muted, "accent/muted"),
        (t.muted, t.faint, "muted/faint"),
    ] {
        let c = contrast(a, b);
        assert!(c >= 1.25, "{name} separates by only {c:.2}");
    }
}

/// The dot of a running lane stands directly above that of a cancelled one.
#[test]
fn running_and_cancelled_lane_dots_separate() {
    let c = contrast(theme().lane, theme().muted);
    assert!(c >= 1.25, "running vs cancelled lane dots = {c:.2}");
}

/// The accent marks actions; success, danger and warn mark state.
#[test]
fn the_accent_stays_neutral_against_the_status_hues() {
    let t = theme();
    let a = saturation(t.accent);
    assert!(a < 0.25, "the accent is too vivid at {a:.2}");
    for (c, name) in [
        (t.success, "success"),
        (t.danger, "danger"),
        (t.warn, "warn"),
    ] {
        assert!(a < saturation(c), "the accent must be duller than {name}");
    }
}

#[test]
fn every_palette_name_is_accepted() {
    assert!(set_theme_by_name("midnight"));
    assert!(set_theme_by_name(""));
}
