use giter::context::Env;
use giter::drawer::theme::{rgb, Color, Role, Theme};
use giter::remote::{Failure, Unresolved, Verdict};

#[test]
fn hex_colours_are_taken_apart_into_channels() {
    assert_eq!(rgb(0xf2617a), Color::Rgb(0xf2, 0x61, 0x7a));
    assert_eq!(rgb(0x000000), Color::Rgb(0, 0, 0));
    assert_eq!(rgb(0xffffff), Color::Rgb(0xff, 0xff, 0xff));
}

#[test]
fn production_tints_the_header_red() {
    let theme = Theme::new(Some(Env::Prod), false, true);

    assert_eq!(theme.env, Color::Rgb(0xf2, 0x61, 0x7a));
    assert_eq!(theme.env_bg, Color::Rgb(0x24, 0x18, 0x20));
    assert_eq!(Theme::new(Some(Env::Prod), false, false).env, Color::Red);
}

#[test]
fn colour_blind_palette_trades_green_and_red() {
    let plain = Theme::new(None, false, false);
    let kind = Theme::new(None, true, false);

    assert_eq!((plain.ok, plain.bad), (Color::Green, Color::Red));
    assert_eq!((kind.ok, kind.bad), (Color::LightBlue, Color::LightYellow));
    assert_eq!(Theme::new(None, true, true).ok, Color::Rgb(0x5c, 0xb8, 0xf0));
}

#[test]
fn verdicts_take_the_colour_of_their_role() {
    let theme = Theme::new(Some(Env::Dev), false, true);

    assert_eq!(theme.verdict(Verdict::InSync), theme.ok);
    assert_eq!(theme.verdict(Verdict::Behind), theme.bad);
    assert_eq!(theme.verdict(Verdict::Failed(Failure::Git)), theme.warn);
    assert_eq!(theme.verdict(Verdict::Unknown(Unresolved::Digest)), theme.dim);
    assert_eq!(theme.color(Role::Cyan), theme.cyan);
    assert_eq!(theme.color(Role::KeysBar), Color::Rgb(0x12, 0x15, 0x1e));
}
