//! Deterministic per-label coloring for merged output streams. A label's
//! color is chosen by hashing the label, so the same process or task name
//! is shown in the same color across runs and across files. Whether color
//! is emitted at all is a per-run configuration value created once at
//! startup and passed to the formatting calls.
use crate::hashing::{blake3_digest, blake3_digest_of};
use crate::strutil::lower_char;
use vstd::prelude::*;
use vstd::string::StringExecFns;
use vstd::string::StringSliceAdditionalSpecFns;

verus! {

#[derive(Clone, Copy, Debug, PartialEq, Eq, Structural)]
pub enum ColorMode {
    Auto,
    Always,
    Never,
}

/// The run-wide color configuration, created once by `init`.
#[derive(Clone, Copy, Debug)]
pub struct ColorConfig {
    pub mode: ColorMode,
}

/// The mode an environment override selects: an explicit request wins,
/// otherwise a set `NO_COLOR` forces color off.
pub open spec fn env_mode_of(value: Option<Seq<char>>, no_color: bool) -> Option<ColorMode> {
    match value {
        Some(s) => {
            let l = s.map_values(|c: char| lower_char(c));
            if l == "always"@ {
                Some(ColorMode::Always)
            } else if l == "never"@ {
                Some(ColorMode::Never)
            } else if l == "auto"@ {
                Some(ColorMode::Auto)
            } else if no_color {
                Some(ColorMode::Never)
            } else {
                None
            }
        },
        None => {
            if no_color {
                Some(ColorMode::Never)
            } else {
                None
            }
        },
    }
}

fn lower_string(s: &str) -> (r: String)
    ensures
        r@ == s@.map_values(|c: char| lower_char(c)),
{
    let cs = crate::strutil::str_chars(s);
    let mut v: Vec<char> = Vec::new();
    let mut i: usize = 0;
    while i < cs.len()
        invariant
            i <= cs@.len(),
            cs@ == s@,
            v@ == cs@.subrange(0, i as int).map_values(|c: char| lower_char(c)),
        decreases cs@.len() - i,
    {
        v.push(crate::strutil::lower_char_exec(cs[i]));
        i = i + 1;
        proof {
            assert(v@ =~= cs@.subrange(0, i as int).map_values(|c: char| lower_char(c)));
        }
    }
    proof {
        assert(cs@.subrange(0, cs@.len() as int) =~= cs@);
    }
    crate::strutil::chars_string(v.as_slice())
}

/// Interpret the environment's color request: the dedicated variable's
/// value (compared ASCII case-insensitively) wins over a bare `NO_COLOR`.
pub fn parse_env_mode(value: Option<&String>, no_color: bool) -> (r: Option<ColorMode>)
    ensures
        r == env_mode_of(
            match value {
                Some(v) => Some(v@),
                None => None,
            },
            no_color,
        ),
{
    match value {
        Some(v) => {
            let l = lower_string(v.as_str());
            if l.eq(&String::from_str("always")) {
                Some(ColorMode::Always)
            } else if l.eq(&String::from_str("never")) {
                Some(ColorMode::Never)
            } else if l.eq(&String::from_str("auto")) {
                Some(ColorMode::Auto)
            } else if no_color {
                Some(ColorMode::Never)
            } else {
                None
            }
        },
        None => {
            if no_color {
                Some(ColorMode::Never)
            } else {
                None
            }
        },
    }
}

/// Build the run's color configuration: an explicit command-line choice
/// wins, then the environment's, then automatic detection.
pub fn init(mode_from_cli: Option<ColorMode>, env_mode: Option<ColorMode>) -> (r: ColorConfig)
    ensures
        r.mode == (match mode_from_cli {
            Some(m) => m,
            None => match env_mode {
                Some(m) => m,
                None => ColorMode::Auto,
            },
        }),
{
    let mode = match mode_from_cli {
        Some(m) => m,
        None => match env_mode {
            Some(m) => m,
            None => ColorMode::Auto,
        },
    };
    ColorConfig { mode }
}

/// The mode a configuration holds.
pub fn current_mode(config: &ColorConfig) -> (r: ColorMode)
    ensures
        r == config.mode,
{
    config.mode
}

/// Whether color is emitted under a mode, given whether standard output is
/// a terminal.
pub open spec fn spec_color_enabled(mode: ColorMode, stdout_is_tty: bool) -> bool {
    match mode {
        ColorMode::Always => true,
        ColorMode::Never => false,
        ColorMode::Auto => stdout_is_tty,
    }
}

pub fn color_enabled(config: &ColorConfig, stdout_is_tty: bool) -> (r: bool)
    ensures
        r == spec_color_enabled(config.mode, stdout_is_tty),
{
    match config.mode {
        ColorMode::Always => true,
        ColorMode::Never => false,
        ColorMode::Auto => stdout_is_tty,
    }
}

/// The escape sequence that restores default terminal colors.
pub fn reset_code() -> (r: &'static str)
    ensures
        r@ == "\u{1b}[0m"@,
{
    "\u{1b}[0m"
}

/// The little-endian 64-bit value held in the first eight bytes of a
/// sequence.
pub open spec fn le64_of(b: Seq<u8>) -> int
    recommends
        b.len() >= 8,
{
    b[0] + 256 * b[1] + 65536 * b[2] + 16777216 * b[3] + 4294967296 * b[4] + 1099511627776 * b[5]
        + 281474976710656 * b[6] + 72057594037927936 * b[7]
}

/// The palette slot a label is assigned: its BLAKE3 digest's first eight
/// bytes, read little-endian, reduced modulo the palette size.
pub open spec fn color_index_of(label_bytes: Seq<u8>) -> int {
    le64_of(blake3_digest_of(label_bytes)) % 12
}

/// The escape sequence of each palette slot.
pub open spec fn palette(i: int) -> Seq<char> {
    if i == 0 {
        "\u{1b}[31m"@
    } else if i == 1 {
        "\u{1b}[32m"@
    } else if i == 2 {
        "\u{1b}[33m"@
    } else if i == 3 {
        "\u{1b}[34m"@
    } else if i == 4 {
        "\u{1b}[35m"@
    } else if i == 5 {
        "\u{1b}[36m"@
    } else if i == 6 {
        "\u{1b}[91m"@
    } else if i == 7 {
        "\u{1b}[92m"@
    } else if i == 8 {
        "\u{1b}[93m"@
    } else if i == 9 {
        "\u{1b}[94m"@
    } else if i == 10 {
        "\u{1b}[95m"@
    } else {
        "\u{1b}[96m"@
    }
}

fn color_index(label: &str) -> (r: usize)
    ensures
        r == color_index_of(label.spec_bytes()),
        r < 12,
{
    let digest = blake3_digest(label.as_bytes());
    let v: u64 = (digest[0] as u64) + 256 * (digest[1] as u64) + 65536 * (digest[2] as u64)
        + 16777216 * (digest[3] as u64) + 4294967296 * (digest[4] as u64) + 1099511627776 * (
    digest[5] as u64) + 281474976710656 * (digest[6] as u64) + 72057594037927936 * (
    digest[7] as u64);
    (v % 12) as usize
}

/// The escape sequence for a label's deterministic color.
pub fn color_esc_for(label: &str) -> (r: &'static str)
    ensures
        r@ == palette(color_index_of(label.spec_bytes())),
{
    let idx = color_index(label);
    if idx == 0 {
        "\u{1b}[31m"
    } else if idx == 1 {
        "\u{1b}[32m"
    } else if idx == 2 {
        "\u{1b}[33m"
    } else if idx == 3 {
        "\u{1b}[34m"
    } else if idx == 4 {
        "\u{1b}[35m"
    } else if idx == 5 {
        "\u{1b}[36m"
    } else if idx == 6 {
        "\u{1b}[91m"
    } else if idx == 7 {
        "\u{1b}[92m"
    } else if idx == 8 {
        "\u{1b}[93m"
    } else if idx == 9 {
        "\u{1b}[94m"
    } else if idx == 10 {
        "\u{1b}[95m"
    } else {
        "\u{1b}[96m"
    }
}

/// The bracketed label that precedes a line of merged output: colored when
/// the configuration and the terminal allow it.
pub open spec fn spec_prefix(label: Seq<char>, label_bytes: Seq<u8>, enabled: bool) -> Seq<char> {
    if enabled {
        "["@ + palette(color_index_of(label_bytes)) + label + "\u{1b}[0m"@ + "] "@
    } else {
        "["@ + label + "] "@
    }
}

pub fn prefix(label: &str, config: &ColorConfig, stdout_is_tty: bool) -> (r: String)
    ensures
        r@ == spec_prefix(
            label@,
            label.spec_bytes(),
            spec_color_enabled(config.mode, stdout_is_tty),
        ),
{
    let mut r = String::new();
    r.append("[");
    if color_enabled(config, stdout_is_tty) {
        r.append(color_esc_for(label));
        r.append(label);
        r.append(reset_code());
        r.append("] ");
        proof {
            assert(r@ =~= spec_prefix(label@, label.spec_bytes(), true));
        }
    } else {
        r.append(label);
        r.append("] ");
        proof {
            assert(r@ =~= spec_prefix(label@, label.spec_bytes(), false));
        }
    }
    r
}

} // verus!
