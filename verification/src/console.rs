//! What the program says on the console: its title and the lines of its log.
//!
//! A line is a one-letter prefix in the colour of its level, then the
//! message. Where the terminal takes no ANSI escape codes, title and lines
//! are handed out without them. Nothing here prints: the caller does.

use crate::text::{decimal, digits};
use vstd::prelude::*;
use vstd::string::{StrSliceExecFns, StringExecFns};

verus! {

/// The escape code that ends a colour.
pub open spec fn reset_code() -> Seq<char> {
    "\x1b[0m"@
}

/// A log line with its escape codes: the prefix in the colour that
/// `escape_code` switches on, a closing bracket, and the message in the
/// terminal's own colour.
pub open spec fn log_line(prefix: Seq<char>, msg: Seq<char>, escape_code: Seq<char>) -> Seq<char> {
    escape_code + prefix + ") "@ + reset_code() + msg
}

/// `text` with its ANSI escape codes taken out.
pub uninterp spec fn without_ansi(text: Seq<char>) -> Seq<char>;

/// The line as a terminal is to get it: as it is where the terminal takes
/// escape codes, without them where it does not.
pub open spec fn shown(line: Seq<char>, ansi: bool) -> Seq<char> {
    if ansi {
        line
    } else {
        without_ansi(line)
    }
}

/// Takes the ANSI escape codes out of `text` with
/// `console::strip_ansi_codes`. The contract names the outcome
/// [`without_ansi`] and claims nothing more of it than that it depends on
/// the text alone.
#[verifier::external_body]
fn strip_ansi(text: &str) -> (plain: String)
    ensures
        plain@ == without_ansi(text@),
{
    ::console::strip_ansi_codes(text).into_owned()
}

/// Makes a log line of `msg`, led by `prefix` in the colour of
/// `escape_code`.
pub fn colored_log(prefix: &str, msg: &str, escape_code: &str, ansi: bool) -> (line: String)
    ensures
        line@ == shown(log_line(prefix@, msg@, escape_code@), ansi),
{
    let message = String::from_str(escape_code).concat(prefix).concat(") ").concat("\x1b[0m").concat(
        msg,
    );
    if ansi {
        message
    } else {
        strip_ansi(message.as_str())
    }
}

/// The line of an error.
pub fn error(msg: &str, ansi: bool) -> (line: String)
    ensures
        line@ == shown(log_line("X"@, msg@, "\x1b[31m"@), ansi),
{
    colored_log("X", msg, "\x1b[31m", ansi)
}

/// The line of a warning.
pub fn warning(msg: &str, ansi: bool) -> (line: String)
    ensures
        line@ == shown(log_line("!"@, msg@, "\x1b[33m"@), ansi),
{
    colored_log("!", msg, "\x1b[33m", ansi)
}

/// The line of a piece of information.
pub fn info(msg: &str, ansi: bool) -> (line: String)
    ensures
        line@ == shown(log_line("i"@, msg@, "\x1b[36m"@), ansi),
{
    colored_log("i", msg, "\x1b[36m", ansi)
}

/// The line of a question.
pub fn ask(msg: &str, ansi: bool) -> (line: String)
    ensures
        line@ == shown(log_line("?"@, msg@, "\x1b[32m"@), ansi),
{
    colored_log("?", msg, "\x1b[32m", ansi)
}

/// The number `n` in decimal digits, with a minus sign where it is negative.
pub open spec fn signed_digits(n: int) -> Seq<char> {
    if n < 0 {
        "-"@ + digits((-n) as nat)
    } else {
        digits(n as nat)
    }
}

/// The escape code that switches to the colour `hex`, read as `0xRRGGBB`:
/// red is what lies above the low sixteen bits, green and blue are the two
/// low bytes.
pub open spec fn rgb_code(hex: i32) -> Seq<char> {
    "\x1b[38;2;"@ + signed_digits(hex as int / 65536) + ";"@ + signed_digits((hex as int / 256) % 256)
        + ";"@ + signed_digits(hex as int % 256) + "m"@
}

/// Whether `c` may stand inside a colour code: a digit or a semicolon.
pub open spec fn is_code_char(c: char) -> bool {
    c == ';' || c == '0' || c == '1' || c == '2' || c == '3' || c == '4' || c == '5' || c == '6'
        || c == '7' || c == '8' || c == '9'
}

/// Index of the first character from `from` on that may not stand inside a
/// colour code, or the length of the text.
pub open spec fn code_chars_end(text: Seq<char>, from: nat) -> nat
    decreases text.len() - from,
{
    if from < text.len() && is_code_char(text[from as int]) {
        code_chars_end(text, from + 1)
    } else {
        from
    }
}

/// Index behind the colour code that begins at `at`, if one begins there:
/// an escape character, an opening square bracket, digits and semicolons in
/// any number, and the letter `m`.
pub open spec fn code_end(text: Seq<char>, at: nat) -> Option<nat> {
    let run = code_chars_end(text, at + 2);
    if at + 1 < text.len() && text[at as int] == '\x1b' && text[at as int + 1] == '[' && run < text.len()
        && text[run as int] == 'm' {
        Some(run + 1)
    } else {
        None
    }
}

/// `text` from index `from` on, without its colour codes. Codes are taken
/// from the left, each as long as it can be.
pub open spec fn uncoloured(text: Seq<char>, from: nat) -> Seq<char>
    decreases text.len() - from,
{
    if from >= text.len() {
        Seq::empty()
    } else {
        match code_end(text, from) {
            Some(next) if from < next <= text.len() => uncoloured(text, next),
            _ => seq![text[from as int]] + uncoloured(text, from + 1),
        }
    }
}

/// The title of the program with its escape codes, for a program of
/// version `version`.
pub open spec fn title_text(version: Seq<char>) -> Seq<char> {
    rgb_code(0x00b5c9)
        + "== pjsekai-soundgen-rust ------------------------------------------------------"@
        + reset_code() + "\n"@ + "    "@ + rgb_code(0x00afc7)
        + "pjsekai-soundgen-rust / Rust版プロセカ風譜面音声生成ツール"@ + reset_code() + "\n"@
        + "    Version: "@ + rgb_code(0x0f6ea3) + version + reset_code() + "\n"@
        + "    Developed by "@ + rgb_code(0x48b0d5) + "名無し｡(@sevenc-nanashi)"@ + reset_code()
        + "\n"@ + "    https://github.com/sevenc-nanashi/pjsekai-soundgen-rust"@ + "\n"@ + rgb_code(
        0xff5a91,
    ) + "-------------------------------------------------------------------------------"@
        + reset_code()
}

fn signed_decimal(n: i32) -> (text: String)
    ensures
        text@ == signed_digits(n as int),
{
    if n < 0 {
        let magnitude: i64 = -(n as i64);
        let text = String::from_str("-").concat(decimal(magnitude as usize).as_str());
        text
    } else {
        decimal(n as usize)
    }
}

/// Splits a colour into what stands for red, green and blue.
fn channels(hex: i32) -> (parts: (i32, i32, i32))
    ensures
        parts.0 == hex as int / 65536,
        parts.1 == (hex as int / 256) % 256,
        parts.2 == hex as int % 256,
{
    let red = if hex >= 0 {
        hex / 65536
    } else {
        -((-(hex + 1)) / 65536) - 1
    };
    let low = if hex >= 0 {
        hex % 65536
    } else {
        65535 - (-(hex + 1)) % 65536
    };
    assert(red == hex as int / 65536);
    assert(low == hex as int % 65536);
    (red, low / 256, low % 256)
}

/// Makes the escape code that switches to the colour `hex`.
pub fn rgb(hex: i32) -> (code: String)
    ensures
        code@ == rgb_code(hex),
{
    let (red, green, blue) = channels(hex);
    String::from_str("\x1b[38;2;").concat(signed_decimal(red).as_str()).concat(";").concat(
        signed_decimal(green).as_str(),
    ).concat(";").concat(signed_decimal(blue).as_str()).concat("m")
}

/// Takes the colour codes out of `text`.
///
/// The text is looked through once, but a character is reached by counting
/// from the start, so the work grows with the square of the length; the
/// texts this is for are a few lines long.
pub fn strip_colors(text: &str) -> (plain: String)
    ensures
        plain@ == uncoloured(text@, 0),
{
    let n = text.unicode_len();
    let mut plain = String::new();
    let mut i: usize = 0;
    while i < n
        invariant
            i <= n,
            n == text@.len(),
            plain@ + uncoloured(text@, i as nat) == uncoloured(text@, 0),
        decreases n - i,
    {
        let ghost before = plain@;
        let mut next: usize = i;
        if i + 1 < n && text.get_char(i) == '\x1b' && text.get_char(i + 1) == '[' {
            let mut run: usize = i + 2;
            while run < n && is_code(text.get_char(run))
                invariant
                    i + 2 <= run <= n,
                    n == text@.len(),
                    code_chars_end(text@, (i + 2) as nat) == code_chars_end(text@, run as nat),
                decreases n - run,
            {
                run = run + 1;
            }
            if run < n && text.get_char(run) == 'm' {
                next = run + 1;
            }
        }
        if next > i {
            i = next;
        } else {
            plain.append(text.substring_char(i, i + 1));
            proof {
                assert(text@.subrange(i as int, i + 1) =~= seq![text@[i as int]]);
                assert(plain@ + uncoloured(text@, (i + 1) as nat) =~= before + (seq![text@[i as int]]
                    + uncoloured(text@, (i + 1) as nat)));
            }
            i = i + 1;
        }
    }
    assert(plain@ + uncoloured(text@, n as nat) =~= plain@);
    plain
}

fn is_code(c: char) -> (code: bool)
    ensures
        code == is_code_char(c),
{
    c == ';' || c == '0' || c == '1' || c == '2' || c == '3' || c == '4' || c == '5' || c == '6'
        || c == '7' || c == '8' || c == '9'
}

/// Makes the title of the program, for a terminal that takes colours or
/// for one that does not.
pub fn title(version: &str, ansi: bool) -> (text: String)
    ensures
        text@ == if ansi {
            title_text(version@)
        } else {
            uncoloured(title_text(version@), 0)
        },
{
    let text = rgb(0x00b5c9).concat(
        "== pjsekai-soundgen-rust ------------------------------------------------------",
    ).concat("\x1b[0m").concat("\n").concat("    ").concat(rgb(0x00afc7).as_str()).concat(
        "pjsekai-soundgen-rust / Rust版プロセカ風譜面音声生成ツール",
    ).concat("\x1b[0m").concat("\n").concat("    Version: ").concat(rgb(0x0f6ea3).as_str()).concat(
        version,
    ).concat("\x1b[0m").concat("\n").concat("    Developed by ").concat(rgb(0x48b0d5).as_str()).concat(
        "名無し｡(@sevenc-nanashi)",
    ).concat("\x1b[0m").concat("\n").concat(
        "    https://github.com/sevenc-nanashi/pjsekai-soundgen-rust",
    ).concat("\n").concat(rgb(0xff5a91).as_str()).concat(
        "-------------------------------------------------------------------------------",
    ).concat("\x1b[0m");
    assert(text@ =~= title_text(version@));
    if ansi {
        text
    } else {
        strip_colors(text.as_str())
    }
}

} // verus!
