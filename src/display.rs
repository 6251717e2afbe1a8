//! The rules that shape one frame of the report: how a source path is shown,
//! whether its source text is shown and from where, which lines of it, and the
//! terminal colour of a highlighted span.

use vstd::prelude::*;
use crate::text::{starts_with, seq_starts_with};

verus! {

/// Paths into the toolchain's own sources, as the compiler records them.
pub const RUST_SOURCE_PATTERN: &'static str = "/rustc/\\w+/";

/// What such a path prefix is shown as.
pub const RUST_SOURCE_REPLACEMENT: &'static str = "<rust>/";

/// The marker that a shown path into the toolchain's sources starts with.
pub const RUST_SOURCE_MARKER: &'static str = "<rust>";

/// Functions of this library, whose source is not shown.
pub const OWN_FUNCTION_PREFIX: &'static str = "pretty_backtrace::";

/// The text that `regex::Regex::replace` makes of `text` for a pattern and a
/// replacement, or `None` where the pattern does not compile.
pub uninterp spec fn regex_replace_first(pattern: Seq<char>, text: Seq<char>, replacement: Seq<char>) -> Option<Seq<char>>;

pub open spec fn string_view(s: Option<String>) -> Option<Seq<char>> {
    match s {
        Some(x) => Some(x@),
        None => None,
    }
}

/// Relies on `regex::Regex::new`, which compiles `pattern` or reports an
/// error, and `regex::Regex::replace`, which replaces the leftmost-first match
/// in `text` (the text unchanged where nothing matches).
#[verifier::external_body]
fn replace_first_match(pattern: &str, text: &str, replacement: &str) -> (r: Option<String>)
    ensures
        string_view(r) == regex_replace_first(pattern@, text@, replacement@),
{
    match regex::Regex::new(pattern) {
        Ok(re) => Some(re.replace(text, replacement).into_owned()),
        Err(_) => None,
    }
}

pub open spec fn shown_path_spec(file: Seq<char>) -> Seq<char> {
    match regex_replace_first(RUST_SOURCE_PATTERN@, file, RUST_SOURCE_REPLACEMENT@) {
        Some(s) => s,
        None => file,
    }
}

/// The path as the report shows it: a prefix into the toolchain's sources
/// becomes the marker.
pub fn shown_path(file: &str) -> (r: String)
    ensures
        r@ == shown_path_spec(file@),
{
    match replace_first_match(RUST_SOURCE_PATTERN, file, RUST_SOURCE_REPLACEMENT) {
        Some(s) => s,
        None => String::from_str(file),
    }
}

/// Whether the frame belongs to this library's own functions.
pub fn is_own_function(function_name: &str) -> (r: bool)
    ensures
        r == seq_starts_with(function_name@, OWN_FUNCTION_PREFIX@),
{
    starts_with(function_name, OWN_FUNCTION_PREFIX)
}

pub open spec fn local_source_spec(shown: Seq<char>, root: Option<Seq<char>>) -> Option<Seq<char>> {
    if seq_starts_with(shown, RUST_SOURCE_MARKER@) {
        match root {
            Some(x) => Some(x + shown.subrange(RUST_SOURCE_MARKER@.len() as int, shown.len() as int)),
            None => None,
        }
    } else {
        Some(shown)
    }
}

/// The file to read the source text from: a shown path with the marker is
/// looked up under the local copy of the toolchain's sources, and has none
/// where that copy is unknown.
pub fn local_source_path(shown: &str, root: Option<&str>) -> (r: Option<String>)
    ensures
        string_view(r) == local_source_spec(shown@, match root { Some(x) => Some(x@), None => None }),
{
    if starts_with(shown, RUST_SOURCE_MARKER) {
        match root {
            Some(x) => {
                let m = RUST_SOURCE_MARKER.unicode_len();
                let n = shown.unicode_len();
                let rest = shown.substring_char(m, n);
                Some(String::from_str(x).concat(rest))
            },
            None => None,
        }
    } else {
        Some(String::from_str(shown))
    }
}

/// The lines shown around `line`, two on each side, as a range of 1-based line
/// numbers within a file of `total` lines; empty (`first > last`) where none is.
pub fn excerpt_lines(line: u32, total: usize) -> (r: (usize, usize))
    ensures
        r.0 == if line > 2 { line - 2 } else { 1 },
        r.1 == if line as int + 2 < total as int { line + 2 } else { total as int },
{
    let first: usize = if line > 2 { (line - 2) as usize } else { 1 };
    let wide = line as u64 + 2;
    let last: usize = if wide < total as u64 { wide as usize } else { total };
    (first, last)
}

/// The blanks before the caret under a 1-based column.
pub fn caret_padding(column: u32) -> (r: u32)
    ensures
        r == if column > 0 { column - 1 } else { 0 },
{
    if column > 0 { column - 1 } else { 0 }
}

/// The level, from 0 to 5, of one colour channel in the terminal's colour cube.
pub open spec fn cube_level(c: u8, dimmed: bool) -> int {
    let level = (c as int / 42) * 4 / if dimmed { 5int } else { 4int };
    if level > 5 { 5 } else { level }
}

/// The 256-colour terminal code of a foreground colour; dimmed colours use
/// lower levels.
pub fn terminal_color(r: u8, g: u8, b: u8, dimmed: bool) -> (code: u8)
    ensures
        code == 16 + 36 * cube_level(r, dimmed) + 6 * cube_level(g, dimmed) + cube_level(b, dimmed),
        16 <= code <= 231,
{
    let div: u8 = if dimmed { 5 } else { 4 };
    let lr = r / 42 * 4 / div;
    let lg = g / 42 * 4 / div;
    let lb = b / 42 * 4 / div;
    let lr = if lr > 5 { 5 } else { lr };
    let lg = if lg > 5 { 5 } else { lg };
    let lb = if lb > 5 { 5 } else { lb };
    16 + 36 * lr + 6 * lg + lb
}

} // verus!
