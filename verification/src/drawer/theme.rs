//! Every colour the interface uses, by role. Whether the terminal can do 24-bit colour is
//! the caller's to find out; the palette follows from that, the cluster and the
//! colour-blind switch.
use crate::context::Env;
use crate::remote::Verdict;
use vstd::prelude::*;

verus! {

/// A terminal colour: one of the sixteen every terminal has, the terminal's own default,
/// or a 24-bit one.
#[derive(Debug, Clone, Copy, PartialEq, Eq, Structural)]
pub enum Color {
    Reset,
    Black,
    Red,
    Green,
    Yellow,
    Blue,
    Cyan,
    Gray,
    DarkGray,
    LightBlue,
    LightYellow,
    White,
    Rgb(u8, u8, u8),
}

/// The 24-bit colour written `0xRRGGBB`.
pub open spec fn rgb_of(hex: u32) -> Color {
    Color::Rgb((hex / 0x10000 % 0x100) as u8, (hex / 0x100 % 0x100) as u8, (hex % 0x100) as u8)
}

/// The 24-bit colour written `0xRRGGBB`.
pub fn rgb(hex: u32) -> (r: Color)
    ensures
        r == rgb_of(hex),
{
    let red = (hex >> 16) & 0xff;
    let green = (hex >> 8) & 0xff;
    let blue = hex & 0xff;
    assert(((hex >> 16) & 0xff) == hex / 0x10000 % 0x100) by (bit_vector);
    assert(((hex >> 8) & 0xff) == hex / 0x100 % 0x100) by (bit_vector);
    assert((hex & 0xff) == hex % 0x100) by (bit_vector);
    Color::Rgb(red as u8, green as u8, blue as u8)
}

/// What a colour is used for.
#[derive(Debug, Clone, Copy, PartialEq, Eq, Structural)]
pub enum Role {
    Bg,
    Bar,
    KeysBar,
    Line,
    Selection,
    Fg,
    Fg2,
    Dim,
    Faint,
    Good,
    Bad,
    Warn,
    Cyan,
    Env,
    EnvFg,
    EnvBg,
}

/// Every colour the interface uses.
#[derive(Debug, Clone, Copy, PartialEq, Eq, Structural)]
pub struct Theme {
    pub bg: Color,
    /// Background of the bars that frame the table.
    pub bar: Color,
    /// Background of the key hint line, a shade below the bars.
    pub keys_bar: Color,
    pub line: Color,
    pub selection: Color,
    pub fg: Color,
    pub fg2: Color,
    pub dim: Color,
    pub faint: Color,
    pub ok: Color,
    pub bad: Color,
    pub warn: Color,
    pub cyan: Color,
    /// Colour of the environment badge and of the context name next to it.
    pub env: Color,
    pub env_fg: Color,
    /// Tint of the whole header, so the cluster is visible out of the corner of an eye.
    pub env_bg: Color,
}

/// The badge, its text and the header tint of each environment, as `0xRRGGBB`.
pub open spec fn env_hexes(env: Option<Env>) -> (u32, u32, u32) {
    match env {
        Some(Env::Prod) => (0xf2617a, 0x170d11, 0x241820),
        Some(Env::Stage) => (0xe5a95c, 0x191308, 0x231d13),
        Some(Env::Dev) => (0x7dcfff, 0x0d1620, 0x141d26),
        None => (0x98a1b8, 0x161923, 0x191d28),
    }
}

/// The 24-bit palette.
pub open spec fn rgb_theme(env: Option<Env>, colorblind: bool) -> Theme {
    let (badge, badge_fg, tint) = env_hexes(env);
    Theme {
        bg: rgb_of(0x161923),
        bar: rgb_of(0x191d28),
        keys_bar: rgb_of(0x12151e),
        line: rgb_of(0x272d3b),
        selection: rgb_of(0x232a38),
        fg: rgb_of(0xc8cedd),
        fg2: rgb_of(0x98a1b8),
        dim: rgb_of(0x69738c),
        faint: rgb_of(0x454e63),
        ok: rgb_of(
            if colorblind {
                0x5cb8f0
            } else {
                0xa3e05c
            },
        ),
        bad: rgb_of(
            if colorblind {
                0xf0883e
            } else {
                0xf2617a
            },
        ),
        warn: rgb_of(0xe5a95c),
        cyan: rgb_of(0x7dcfff),
        env: rgb_of(badge),
        env_fg: rgb_of(badge_fg),
        env_bg: rgb_of(tint),
    }
}

/// The sixteen-colour palette, for terminals that do not announce 24-bit colour: the same
/// roles, and no background tints to get wrong.
pub open spec fn ansi_theme(env: Option<Env>, colorblind: bool) -> Theme {
    Theme {
        bg: Color::Reset,
        bar: Color::Reset,
        keys_bar: Color::Reset,
        line: Color::DarkGray,
        selection: Color::Blue,
        fg: Color::White,
        fg2: Color::Gray,
        dim: Color::DarkGray,
        faint: Color::DarkGray,
        ok: if colorblind {
            Color::LightBlue
        } else {
            Color::Green
        },
        bad: if colorblind {
            Color::LightYellow
        } else {
            Color::Red
        },
        warn: Color::Yellow,
        cyan: Color::Cyan,
        env: match env {
            Some(Env::Prod) => Color::Red,
            Some(Env::Stage) => Color::Yellow,
            Some(Env::Dev) => Color::Cyan,
            None => Color::Gray,
        },
        env_fg: Color::Black,
        env_bg: Color::Reset,
    }
}

/// The colour of a verdict.
pub open spec fn verdict_role(v: Verdict) -> Role {
    match v {
        Verdict::InSync => Role::Good,
        Verdict::Behind => Role::Bad,
        Verdict::Failed(_) => Role::Warn,
        Verdict::Resolving | Verdict::Unknown(_) => Role::Dim,
    }
}

/// The colour of a role.
pub open spec fn color_of(t: Theme, role: Role) -> Color {
    match role {
        Role::Bg => t.bg,
        Role::Bar => t.bar,
        Role::KeysBar => t.keys_bar,
        Role::Line => t.line,
        Role::Selection => t.selection,
        Role::Fg => t.fg,
        Role::Fg2 => t.fg2,
        Role::Dim => t.dim,
        Role::Faint => t.faint,
        Role::Good => t.ok,
        Role::Bad => t.bad,
        Role::Warn => t.warn,
        Role::Cyan => t.cyan,
        Role::Env => t.env,
        Role::EnvFg => t.env_fg,
        Role::EnvBg => t.env_bg,
    }
}

impl Theme {
    /// The palette for a cluster in `env`, in 24-bit colour when the terminal can show it.
    pub fn new(env: Option<Env>, colorblind: bool, truecolor: bool) -> (r: Theme)
        ensures
            r == if truecolor {
                rgb_theme(env, colorblind)
            } else {
                ansi_theme(env, colorblind)
            },
    {
        if truecolor {
            Theme::rgb(env, colorblind)
        } else {
            Theme::ansi(env, colorblind)
        }
    }

    /// The 24-bit palette.
    pub fn rgb(env: Option<Env>, colorblind: bool) -> (r: Theme)
        ensures
            r == rgb_theme(env, colorblind),
    {
        let (badge, badge_fg, tint): (u32, u32, u32) = match env {
            Some(Env::Prod) => (0xf2617a, 0x170d11, 0x241820),
            Some(Env::Stage) => (0xe5a95c, 0x191308, 0x231d13),
            Some(Env::Dev) => (0x7dcfff, 0x0d1620, 0x141d26),
            None => (0x98a1b8, 0x161923, 0x191d28),
        };
        Theme {
            bg: rgb(0x161923),
            bar: rgb(0x191d28),
            keys_bar: rgb(0x12151e),
            line: rgb(0x272d3b),
            selection: rgb(0x232a38),
            fg: rgb(0xc8cedd),
            fg2: rgb(0x98a1b8),
            dim: rgb(0x69738c),
            faint: rgb(0x454e63),
            ok: rgb(
                if colorblind {
                    0x5cb8f0
                } else {
                    0xa3e05c
                },
            ),
            bad: rgb(
                if colorblind {
                    0xf0883e
                } else {
                    0xf2617a
                },
            ),
            warn: rgb(0xe5a95c),
            cyan: rgb(0x7dcfff),
            env: rgb(badge),
            env_fg: rgb(badge_fg),
            env_bg: rgb(tint),
        }
    }

    /// The sixteen-colour palette.
    pub fn ansi(env: Option<Env>, colorblind: bool) -> (r: Theme)
        ensures
            r == ansi_theme(env, colorblind),
    {
        let badge = match env {
            Some(Env::Prod) => Color::Red,
            Some(Env::Stage) => Color::Yellow,
            Some(Env::Dev) => Color::Cyan,
            None => Color::Gray,
        };
        Theme {
            bg: Color::Reset,
            bar: Color::Reset,
            keys_bar: Color::Reset,
            line: Color::DarkGray,
            // not DarkGray: dimmed text is DarkGray too, and would vanish on the cursor row
            selection: Color::Blue,
            fg: Color::White,
            fg2: Color::Gray,
            dim: Color::DarkGray,
            faint: Color::DarkGray,
            ok: if colorblind {
                Color::LightBlue
            } else {
                Color::Green
            },
            bad: if colorblind {
                Color::LightYellow
            } else {
                Color::Red
            },
            warn: Color::Yellow,
            cyan: Color::Cyan,
            env: badge,
            env_fg: Color::Black,
            env_bg: Color::Reset,
        }
    }

    /// The colour of `role`.
    pub fn color(&self, role: Role) -> (r: Color)
        ensures
            r == color_of(*self, role),
    {
        match role {
            Role::Bg => self.bg,
            Role::Bar => self.bar,
            Role::KeysBar => self.keys_bar,
            Role::Line => self.line,
            Role::Selection => self.selection,
            Role::Fg => self.fg,
            Role::Fg2 => self.fg2,
            Role::Dim => self.dim,
            Role::Faint => self.faint,
            Role::Good => self.ok,
            Role::Bad => self.bad,
            Role::Warn => self.warn,
            Role::Cyan => self.cyan,
            Role::Env => self.env,
            Role::EnvFg => self.env_fg,
            Role::EnvBg => self.env_bg,
        }
    }

    /// The colour of a verdict.
    pub fn verdict(&self, verdict: Verdict) -> (r: Color)
        ensures
            r == color_of(*self, verdict_role(verdict)),
    {
        match verdict {
            Verdict::InSync => self.ok,
            Verdict::Behind => self.bad,
            Verdict::Failed(_) => self.warn,
            Verdict::Resolving | Verdict::Unknown(_) => self.dim,
        }
    }
}

/// Whatever the terminal and the colour-blind switch, up to date and lagging rows never
/// share a colour, and neither do either of them and a failure.
pub proof fn ok_bad_and_warn_stay_apart(env: Option<Env>, colorblind: bool, truecolor: bool)
    ensures
        ({
            let t = if truecolor {
                rgb_theme(env, colorblind)
            } else {
                ansi_theme(env, colorblind)
            };
            t.ok != t.bad && t.ok != t.warn && t.bad != t.warn
        }),
{
    assert(rgb_of(0x5cb8f0) != rgb_of(0xf0883e));
    assert(rgb_of(0xa3e05c) != rgb_of(0xf2617a));
    assert(rgb_of(0x5cb8f0) != rgb_of(0xe5a95c));
    assert(rgb_of(0xa3e05c) != rgb_of(0xe5a95c));
    assert(rgb_of(0xf0883e) != rgb_of(0xe5a95c));
    assert(rgb_of(0xf2617a) != rgb_of(0xe5a95c));
}

/// The colour-blind palette trades green and red for other colours in either palette.
pub proof fn colorblind_palette_avoids_green_and_red(env: Option<Env>, truecolor: bool)
    ensures
        ({
            let plain = if truecolor {
                rgb_theme(env, false)
            } else {
                ansi_theme(env, false)
            };
            let kind = if truecolor {
                rgb_theme(env, true)
            } else {
                ansi_theme(env, true)
            };
            kind.ok != plain.ok && kind.bad != plain.bad && kind.ok != plain.bad && kind.bad
                != plain.ok
        }),
{
    assert(rgb_of(0x5cb8f0) != rgb_of(0xa3e05c));
    assert(rgb_of(0xf0883e) != rgb_of(0xf2617a));
    assert(rgb_of(0x5cb8f0) != rgb_of(0xf2617a));
    assert(rgb_of(0xf0883e) != rgb_of(0xa3e05c));
}

} // verus!
