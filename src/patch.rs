//! Rendering of a file's patch, optionally limited to a range of lines.
use vstd::prelude::*;

use crate::text::push_str;
use crate::tools::{line_in_range, within};

verus! {

/// The source and destination paths of a renamed or copied file.
#[derive(PartialEq, Eq, Debug)]
pub struct DiffFromTo {
    pub from: String,
    pub to: String,
}

/// A file's path and its rendered patch.
#[derive(PartialEq, Eq, Debug)]
pub struct DiffWithPatch {
    pub path: String,
    pub patch: String,
}

/// A hunk's old start, old length, new start and new length.
pub type HunkRange = (u32, u32, u32, u32);

/// The character of a decimal digit.
pub open spec fn digit(d: int) -> char {
    if d == 0 {
        '0'
    } else if d == 1 {
        '1'
    } else if d == 2 {
        '2'
    } else if d == 3 {
        '3'
    } else if d == 4 {
        '4'
    } else if d == 5 {
        '5'
    } else if d == 6 {
        '6'
    } else if d == 7 {
        '7'
    } else if d == 8 {
        '8'
    } else {
        '9'
    }
}

/// `n` written in decimal, without leading zeros.
pub open spec fn decimal(n: nat) -> Seq<char>
    decreases n,
{
    if n < 10 {
        seq![digit(n as int)]
    } else {
        decimal(n / 10) + seq![digit((n % 10) as int)]
    }
}

fn digit_char(d: u32) -> (c: char)
    requires
        d < 10,
    ensures
        c == digit(d as int),
{
    match d {
        0 => '0',
        1 => '1',
        2 => '2',
        3 => '3',
        4 => '4',
        5 => '5',
        6 => '6',
        7 => '7',
        8 => '8',
        _ => '9',
    }
}

/// Appends `n` in decimal.
pub fn push_decimal(out: &mut String, n: u32)
    ensures
        final(out)@ == old(out)@ + decimal(n as nat),
    decreases n,
{
    if n >= 10 {
        push_decimal(out, n / 10);
    }
    out.push(digit_char(n % 10));
    assert(final(out)@ =~= old(out)@ + decimal(n as nat));
}

/// The header of a hunk: `@@ -<old start>,<old lines> +<new start>,<new lines> @@`
/// and a line break.
pub open spec fn hunk_header(h: HunkRange) -> Seq<char> {
    seq!['@', '@', ' ', '-'] + decimal(h.0 as nat) + seq![','] + decimal(h.1 as nat) + seq![
        ' ',
        '+',
    ] + decimal(h.2 as nat) + seq![','] + decimal(h.3 as nat) + seq![' ', '@', '@', '\n']
}

/// The file header of a patch: the old path under `a/` and the new one
/// under `b/`, `unknown` where a side has no path.
pub open spec fn patch_header(old_path: Option<Seq<char>>, new_path: Option<Seq<char>>) -> Seq<
    char,
> {
    seq!['-', '-', '-', ' ', 'a', '/'] + match old_path {
        Some(p) => p,
        None => seq!['u', 'n', 'k', 'n', 'o', 'w', 'n'],
    } + seq!['\n', '+', '+', '+', ' ', 'b', '/'] + match new_path {
        Some(p) => p,
        None => seq!['u', 'n', 'k', 'n', 'o', 'w', 'n'],
    } + seq!['\n']
}

/// The file header of a patch.
pub fn render_patch_header(old_path: Option<&str>, new_path: Option<&str>) -> (r: String)
    ensures
        r@ == patch_header(
            match old_path {
                Some(p) => Some(p@),
                None => None,
            },
            match new_path {
                Some(p) => Some(p@),
                None => None,
            },
        ),
{
    let mut out = String::new();
    push_str(&mut out, "--- a/");
    push_str(&mut out, match old_path {
        Some(p) => p,
        None => "unknown",
    });
    push_str(&mut out, "\n+++ b/");
    push_str(&mut out, match new_path {
        Some(p) => p,
        None => "unknown",
    });
    push_str(&mut out, "\n");
    proof {
        reveal_strlit("--- a/");
        reveal_strlit("unknown");
        reveal_strlit("\n+++ b/");
        reveal_strlit("\n");
    }
    assert(out@ =~= patch_header(
        match old_path {
            Some(p) => Some(p@),
            None => None,
        },
        match new_path {
            Some(p) => Some(p@),
            None => None,
        },
    ));
    out
}

/// Adds one diff line to a rendered patch when it lies in the requested
/// range: first the hunk's header if the line opens a hunk not yet
/// announced, then the line's origin (`+`, `-` or a space) and content.
pub fn render_patch_line(
    start_line: Option<u32>,
    end_line: Option<u32>,
    hunk: Option<HunkRange>,
    origin: char,
    old_lineno: Option<u32>,
    new_lineno: Option<u32>,
    content: &str,
    rendered: &mut String,
    last_hunk: &mut Option<HunkRange>,
)
    ensures
        ({
            let keep = if start_line is None && end_line is None {
                true
            } else {
                match (new_lineno, old_lineno) {
                    (Some(n), _) => within(start_line, end_line, n),
                    (None, Some(n)) => within(start_line, end_line, n),
                    (None, None) => false,
                }
            };
            let announce = keep && hunk is Some && *old(last_hunk) != hunk;
            &&& *final(last_hunk) == if announce {
                hunk
            } else {
                *old(last_hunk)
            }
            &&& final(rendered)@ == if !keep {
                old(rendered)@
            } else {
                old(rendered)@ + (if announce {
                    hunk_header(hunk->0)
                } else {
                    Seq::empty()
                }) + seq![origin] + content@
            }
        }),
{
    if !line_in_range(start_line, end_line, old_lineno, new_lineno) {
        return ;
    }
    let ghost before = rendered@;
    let mut header = String::new();
    match hunk {
        Some(h) => {
            let same = match *last_hunk {
                Some(l) => l.0 == h.0 && l.1 == h.1 && l.2 == h.2 && l.3 == h.3,
                None => false,
            };
            if !same {
                *last_hunk = Some(h);
                push_str(&mut header, "@@ -");
                push_decimal(&mut header, h.0);
                push_str(&mut header, ",");
                push_decimal(&mut header, h.1);
                push_str(&mut header, " +");
                push_decimal(&mut header, h.2);
                push_str(&mut header, ",");
                push_decimal(&mut header, h.3);
                push_str(&mut header, " @@\n");
                proof {
                    reveal_strlit("@@ -");
                    reveal_strlit(",");
                    reveal_strlit(" +");
                    reveal_strlit(" @@\n");
                }
                assert(header@ =~= hunk_header(h));
            }
        },
        None => {},
    }
    push_str(rendered, header.as_str());
    rendered.push(origin);
    push_str(rendered, content);
    assert(rendered@ =~= before + header@ + seq![origin] + content@);
}

} // verus!
