//! Arguments of the tools a model may call, and the line filter they use.
use vstd::prelude::*;

use crate::text::{chars_of, string_of};

verus! {

/// # get_file
/// Retrieve a file or a segment of a file from the repository.
pub struct GetFile {
    pub path: String,
    pub start_line: Option<usize>,
    pub end_line: Option<usize>,
}

/// # get_patch
/// Retrieve a patch or a segment of a patch from the repository.
pub struct GetPatch {
    pub path: String,
    pub start_line: Option<usize>,
    pub end_line: Option<usize>,
}

/// # fetch_url
/// Fetch content from a URL, optionally limited to a range of lines.
pub struct FetchUrl {
    pub url: String,
    pub starting_line: Option<usize>,
    pub max_lines: Option<usize>,
}

/// # get_diff
/// Retrieve the complete diff of changes in a repository.
pub struct GetDiff {
    pub repo: String,
    pub file_path: Option<String>,
}

/// # get_repo
/// Retrieve the complete history of a repository.
pub struct GetRepo {
    pub repo: String,
}

/// # get_commit_messages
/// Get the list of commit messages collected.
pub struct GetCommitMessages {
    pub repo: String,
    pub max_messages: Option<usize>,
}

/// # get_browser_history
/// Get the browser history, optionally restricted to some groups.
pub struct GetBrowserHistory {
    pub groups: Option<Vec<String>>,
    pub max_urls: Option<usize>,
}

/// # get_shell_history
/// Get the shell history, optionally filtered.
pub struct GetShellHistory {
    pub start_time: Option<String>,
    pub end_time: Option<String>,
    pub max_entries: Option<usize>,
    pub command: Option<String>,
}

/// How collected history is written out.
#[derive(PartialEq, Eq, Structural, Clone, Copy, Debug)]
pub enum OutputFormat {
    /// One JSON file with everything collected.
    Json,
    /// A directory of JSON files, with a patch file per repository.
    Dir,
}

/// Shells that completion scripts can be generated for.
#[derive(PartialEq, Eq, Structural, Clone, Copy, Debug)]
pub enum CompletionShell {
    Bash,
    Zsh,
    Fish,
    PowerShell,
    Elvish,
    Nushell,
}

impl CompletionShell {
    /// The shell's canonical name.
    pub fn name(&self) -> (r: &'static str)
        ensures
            r@ == match self {
                CompletionShell::Bash => "bash"@,
                CompletionShell::Zsh => "zsh"@,
                CompletionShell::Fish => "fish"@,
                CompletionShell::PowerShell => "powershell"@,
                CompletionShell::Elvish => "elvish"@,
                CompletionShell::Nushell => "nushell"@,
            },
    {
        match self {
            CompletionShell::Bash => "bash",
            CompletionShell::Zsh => "zsh",
            CompletionShell::Fish => "fish",
            CompletionShell::PowerShell => "powershell",
            CompletionShell::Elvish => "elvish",
            CompletionShell::Nushell => "nushell",
        }
    }
}

/// Whether line `n` lies within the optional bounds `start..=end`.
pub open spec fn within(start: Option<u32>, end: Option<u32>, n: u32) -> bool {
    (match start {
        Some(s) => n >= s,
        None => true,
    }) && (match end {
        Some(e) => n <= e,
        None => true,
    })
}

/// Whether a patch line belongs to the requested range. Without bounds
/// every line does; otherwise the new line number decides, or the old one
/// for a removed line, and a line with neither is left out.
pub fn line_in_range(
    start: Option<u32>,
    end: Option<u32>,
    old_lineno: Option<u32>,
    new_lineno: Option<u32>,
) -> (r: bool)
    ensures
        r == if start is None && end is None {
            true
        } else {
            match (new_lineno, old_lineno) {
                (Some(n), _) => within(start, end, n),
                (None, Some(n)) => within(start, end, n),
                (None, None) => false,
            }
        },
{
    if start.is_none() && end.is_none() {
        return true;
    }
    let n = match new_lineno {
        Some(n) => n,
        None => match old_lineno {
            Some(n) => n,
            None => {
                return false;
            },
        },
    };
    let lower_ok = match start {
        Some(s) => n >= s,
        None => true,
    };
    let upper_ok = match end {
        Some(e) => n <= e,
        None => true,
    };
    lower_ok && upper_ok
}

/// Positions of the line breaks among the first `upto` characters.
pub open spec fn breaks_upto(s: Seq<char>, upto: int) -> Seq<int>
    decreases upto,
{
    if upto <= 0 {
        Seq::empty()
    } else if s[upto - 1] == '\n' {
        breaks_upto(s, upto - 1).push(upto - 1)
    } else {
        breaks_upto(s, upto - 1)
    }
}

/// Positions of all line breaks.
pub open spec fn breaks(s: Seq<char>) -> Seq<int> {
    breaks_upto(s, s.len() as int)
}

/// Where line `j` (counting from 0) starts.
pub open spec fn line_start(s: Seq<char>, j: int) -> int {
    if j == 0 {
        0
    } else {
        breaks(s)[j - 1] + 1
    }
}

/// Where line `j` ends, its line break excluded.
pub open spec fn line_end(s: Seq<char>, j: int) -> int {
    if j < breaks(s).len() {
        breaks(s)[j]
    } else {
        s.len() as int
    }
}

/// Lines `start..=end` of `s` (counting from 1) as `slice_lines` returns them.
pub open spec fn sliced(s: Seq<char>, start_line: Option<usize>, end_line: Option<usize>) -> Option<
    Seq<char>,
> {
    let n = breaks(s).len() + 1int;
    let start = match start_line {
        Some(v) => v as int,
        None => 1,
    };
    let end = match end_line {
        Some(v) => v as int,
        None => n,
    };
    if start_line is None && end_line is None {
        Some(s)
    } else if start == 0 || start > end || start - 1 > (if end < n {
        end
    } else {
        n
    }) {
        None
    } else {
        let a = start - 1;
        let b = if end < n {
            end
        } else {
            n
        };
        let body = if a < b {
            s.subrange(line_start(s, a), line_end(s, b - 1))
        } else {
            Seq::empty()
        };
        Some(
            if s.len() > 0 && s.last() == '\n' && b == n {
                body.push('\n')
            } else {
                body
            },
        )
    }
}

proof fn lemma_breaks_bounds(s: Seq<char>, upto: int)
    requires
        0 <= upto <= s.len(),
    ensures
        breaks_upto(s, upto).len() <= upto,
        forall|t: int|
            0 <= t < breaks_upto(s, upto).len() ==> 0 <= #[trigger] breaks_upto(s, upto)[t] < upto,
        forall|t: int, u: int|
            0 <= t < u < breaks_upto(s, upto).len() ==> breaks_upto(s, upto)[t] < breaks_upto(
                s,
                upto,
            )[u],
    decreases upto,
{
    if upto > 0 {
        lemma_breaks_bounds(s, upto - 1);
    }
}

/// Lines `start_line..=end_line` of a text, counting from 1; a missing bound
/// reaches the first or the last line. Without bounds the text is returned
/// whole. `None` when the range is empty (start 0, or after the end) or
/// begins past the text. A trailing line break is kept when the range
/// reaches the last line.
pub fn slice_lines(text: &str, start_line: Option<usize>, end_line: Option<usize>) -> (r: Option<
    String,
>)
    requires
        text@.len() < usize::MAX,
    ensures
        match (r, sliced(text@, start_line, end_line)) {
            (Some(out), Some(want)) => out@ == want,
            (None, None) => true,
            _ => false,
        },
{
    let s = chars_of(text);
    if start_line.is_none() && end_line.is_none() {
        return Some(string_of(&s));
    }
    let mut nl: Vec<usize> = Vec::new();
    for i in 0..s.len()
        invariant
            nl@.map_values(|v: usize| v as int) == breaks_upto(s@, i as int),
    {
        if s[i] == '\n' {
            nl.push(i);
            assert(nl@.map_values(|v: usize| v as int) =~= breaks_upto(s@, i as int).push(i as int));
        }
    }
    proof {
        lemma_breaks_bounds(s@, s@.len() as int);
    }
    let ghost bv = breaks(s@);
    assert(nl@.map_values(|v: usize| v as int) == bv);
    assert(forall|t: int| 0 <= t < nl.len() ==> #[trigger] nl@[t] as int == bv[t]) by {
        assert forall|t: int| 0 <= t < nl.len() implies #[trigger] nl@[t] as int == bv[t] by {
            assert(nl@.map_values(|v: usize| v as int)[t] == nl@[t] as int);
        }
    }
    let n = nl.len() + 1;
    let start = match start_line {
        Some(v) => v,
        None => 1,
    };
    let end = match end_line {
        Some(v) => v,
        None => n,
    };
    let b = if end < n {
        end
    } else {
        n
    };
    if start == 0 || start > end || start - 1 > b {
        return None;
    }
    let a = start - 1;
    let mut out: Vec<char> = Vec::new();
    if a < b {
        let from = if a == 0 {
            0
        } else {
            nl[a - 1] + 1
        };
        let to = if b - 1 < nl.len() {
            nl[b - 1]
        } else {
            s.len()
        };
        assert(from == line_start(s@, a as int));
        assert(to == line_end(s@, (b - 1) as int));
        proof {
            if a > 0 && b - 1 < nl.len() {
                assert(bv[a - 1] < bv[b - 1] || a - 1 == b - 1);
            }
        }
        assert(from <= to);
        let mut p = from;
        while p < to
            invariant
                from <= p <= to <= s.len(),
                out@ == s@.subrange(from as int, p as int),
            decreases to - p,
        {
            out.push(s[p]);
            assert(s@.subrange(from as int, p + 1) =~= s@.subrange(from as int, p as int).push(
                s@[p as int],
            ));
            p += 1;
        }
    }
    if s.len() > 0 && s[s.len() - 1] == '\n' && b == n {
        out.push('\n');
    }
    Some(string_of(&out))
}

} // verus!
