//! The answers a model gives to the summary queries, and how each one is
//! folded into the work summary.
use vstd::prelude::*;

use crate::text::{chars_of, clone_strings, push_all, push_str, strs};

verus! {

/// # common_groups
/// Common projects or categories of work the changes belong to.
pub struct CommonGroupsQuery {
    pub common_groups: Vec<String>,
    pub notes: Vec<String>,
}

/// # summary
/// A comprehensive summary of the work done.
pub struct SummaryQuery {
    pub summary: String,
    pub notes: Vec<String>,
}

/// A highlight: a title and a summary.
pub struct Highlight {
    pub title: String,
    pub summary: String,
}

/// # highlights
/// Highlights of the work done.
pub struct HighlightsQuery {
    pub highlights: Vec<Highlight>,
    pub notes: Vec<String>,
}

/// A summary of the changes in one repository.
pub struct RepoSummary {
    /// Path of the repository.
    pub repo: String,
    pub summary: String,
}

/// # repo_summaries
/// Summaries of changes made per repository.
pub struct RepoSummaryQuery {
    pub repo_summaries: Vec<RepoSummary>,
    pub notes: Vec<String>,
}

/// # shell_overview
/// Summary of shell history and operations performed.
pub struct ShellOverviewQuery {
    pub shell_overview: String,
    pub notes: Vec<String>,
}

/// # time_breakdown
/// Breakdown of time spent on different tasks.
pub struct TimeBreakdownQuery {
    pub time_breakdown: Vec<String>,
    pub notes: Vec<String>,
}

/// # work_summary
/// Collection of summaries and highlights about the work done.
pub struct WorkSummary {
    pub summary: String,
    pub highlights: Vec<String>,
    pub time_breakdown: Vec<String>,
    pub common_groups: Vec<String>,
    pub repo_summaries: Vec<String>,
    pub shell_overview: String,
    pub notes: Vec<String>,
}

impl WorkSummary {
    /// An empty summary.
    pub fn new() -> (r: Self)
        ensures
            r.summary@.len() == 0,
            r.highlights.len() == 0,
            r.time_breakdown.len() == 0,
            r.common_groups.len() == 0,
            r.repo_summaries.len() == 0,
            r.shell_overview@.len() == 0,
            r.notes.len() == 0,
    {
        WorkSummary {
            summary: String::new(),
            highlights: Vec::new(),
            time_breakdown: Vec::new(),
            common_groups: Vec::new(),
            repo_summaries: Vec::new(),
            shell_overview: String::new(),
            notes: Vec::new(),
        }
    }
}

/// The queries asked of the model to build a work summary.
#[derive(PartialEq, Eq, Structural, Clone, Copy, Debug)]
pub enum QueryType {
    Summary,
    Highlights,
    RepoSummary,
    ShellOverview,
    TimeBreakdown,
    CommonGroups,
}

impl QueryType {
    /// The title of the query's answer schema.
    pub fn title(&self) -> (r: &'static str)
        ensures
            r@ == match self {
                QueryType::Summary => "summary"@,
                QueryType::Highlights => "highlights"@,
                QueryType::RepoSummary => "repo_summaries"@,
                QueryType::ShellOverview => "shell_overview"@,
                QueryType::TimeBreakdown => "time_breakdown"@,
                QueryType::CommonGroups => "common_groups"@,
            },
    {
        match self {
            QueryType::Summary => "summary",
            QueryType::Highlights => "highlights",
            QueryType::RepoSummary => "repo_summaries",
            QueryType::ShellOverview => "shell_overview",
            QueryType::TimeBreakdown => "time_breakdown",
            QueryType::CommonGroups => "common_groups",
        }
    }
}

/// A parsed answer to one of the queries.
pub enum QueryResponse {
    Summary(SummaryQuery),
    Highlights(HighlightsQuery),
    RepoSummary(RepoSummaryQuery),
    ShellOverview(ShellOverviewQuery),
    TimeBreakdown(TimeBreakdownQuery),
    CommonGroups(CommonGroupsQuery),
}

/// The notes carried by an answer.
pub open spec fn notes_of(q: QueryResponse) -> Seq<String> {
    match q {
        QueryResponse::Summary(q) => q.notes@,
        QueryResponse::Highlights(q) => q.notes@,
        QueryResponse::RepoSummary(q) => q.notes@,
        QueryResponse::ShellOverview(q) => q.notes@,
        QueryResponse::TimeBreakdown(q) => q.notes@,
        QueryResponse::CommonGroups(q) => q.notes@,
    }
}

/// A highlight as one line: `title: summary`.
pub open spec fn highlight_line(h: Highlight) -> Seq<char> {
    h.title@ + seq![':', ' '] + h.summary@
}

/// Position of the last `/` among the first `upto` characters, if any.
pub open spec fn last_slash(p: Seq<char>, upto: int) -> Option<int>
    decreases upto,
{
    if upto <= 0 {
        None
    } else if p[upto - 1] == '/' {
        Some(upto - 1)
    } else {
        last_slash(p, upto - 1)
    }
}

/// The last two `/`-separated segments of a path, or the whole path when
/// it has no `/`.
pub open spec fn repo_name(p: Seq<char>) -> Seq<char> {
    match last_slash(p, p.len() as int) {
        None => p,
        Some(i) => match last_slash(p, i) {
            None => p,
            Some(j) => p.skip(j + 1),
        },
    }
}

/// A repository summary as one line: `Repo <name>: <summary>`.
pub open spec fn repo_line(r: RepoSummary) -> Seq<char> {
    seq!['R', 'e', 'p', 'o', ' '] + repo_name(r.repo@) + seq![':', ' '] + r.summary@
}

proof fn lemma_last_slash(p: Seq<char>, upto: int)
    requires
        0 <= upto <= p.len(),
    ensures
        last_slash(p, upto) matches Some(i) ==> 0 <= i < upto && p[i] == '/',
    decreases upto,
{
    if upto > 0 {
        lemma_last_slash(p, upto - 1);
    }
}

fn find_last_slash(p: &Vec<char>, upto: usize) -> (r: Option<usize>)
    requires
        upto <= p.len(),
    ensures
        r matches Some(i) ==> last_slash(p@, upto as int) == Some(i as int),
        r is None ==> last_slash(p@, upto as int) is None,
{
    let mut k = upto;
    while k > 0
        invariant
            k <= upto <= p.len(),
            last_slash(p@, upto as int) == last_slash(p@, k as int),
        decreases k,
    {
        if p[k - 1] == '/' {
            return Some(k - 1);
        }
        k -= 1;
    }
    None
}

/// The last two segments of a repository path.
fn repo_name_of(repo: &String) -> (r: Vec<char>)
    ensures
        r@ == repo_name(repo@),
{
    let p = chars_of(repo.as_str());
    proof {
        lemma_last_slash(p@, p@.len() as int);
    }
    match find_last_slash(&p, p.len()) {
        None => p,
        Some(i) => match find_last_slash(&p, i) {
            None => p,
            Some(j) => {
                proof {
                    lemma_last_slash(p@, i as int);
                }
                let mut r: Vec<char> = Vec::new();
                let mut k = j + 1;
                while k < p.len()
                    invariant
                        j < k <= p.len(),
                        r@ == p@.subrange(j + 1, k as int),
                    decreases p.len() - k,
                {
                    r.push(p[k]);
                    k += 1;
                }
                assert(r@ =~= p@.skip(j + 1));
                r
            },
        },
    }
}

impl QueryResponse {
    /// The notes of the answer.
    pub fn extract_notes(&self) -> (r: Vec<String>)
        ensures
            strs(r@) == strs(notes_of(*self)),
    {
        match self {
            QueryResponse::Summary(q) => clone_strings(&q.notes),
            QueryResponse::Highlights(q) => clone_strings(&q.notes),
            QueryResponse::RepoSummary(q) => clone_strings(&q.notes),
            QueryResponse::ShellOverview(q) => clone_strings(&q.notes),
            QueryResponse::TimeBreakdown(q) => clone_strings(&q.notes),
            QueryResponse::CommonGroups(q) => clone_strings(&q.notes),
        }
    }

    /// Writes the answer into its part of the work summary; the other parts
    /// are left as they were.
    pub fn update_work_summary(&self, ws: &mut WorkSummary)
        ensures
            match *self {
                QueryResponse::Summary(q) => final(ws).summary@ == q.summary@,
                _ => final(ws).summary@ == old(ws).summary@,
            },
            match *self {
                QueryResponse::Highlights(q) => strs(final(ws).highlights@) == q.highlights@.map_values(
                    |h: Highlight| highlight_line(h),
                ),
                _ => strs(final(ws).highlights@) == strs(old(ws).highlights@),
            },
            match *self {
                QueryResponse::RepoSummary(q) => strs(final(ws).repo_summaries@)
                    == q.repo_summaries@.map_values(|r: RepoSummary| repo_line(r)),
                _ => strs(final(ws).repo_summaries@) == strs(old(ws).repo_summaries@),
            },
            match *self {
                QueryResponse::ShellOverview(q) => final(ws).shell_overview@ == q.shell_overview@,
                _ => final(ws).shell_overview@ == old(ws).shell_overview@,
            },
            match *self {
                QueryResponse::TimeBreakdown(q) => strs(final(ws).time_breakdown@) == strs(
                    q.time_breakdown@,
                ),
                _ => strs(final(ws).time_breakdown@) == strs(old(ws).time_breakdown@),
            },
            match *self {
                QueryResponse::CommonGroups(q) => strs(final(ws).common_groups@) == strs(
                    q.common_groups@,
                ),
                _ => strs(final(ws).common_groups@) == strs(old(ws).common_groups@),
            },
            strs(final(ws).notes@) == strs(old(ws).notes@),
    {
        match self {
            QueryResponse::Summary(q) => {
                ws.summary = q.summary.clone();
            },
            QueryResponse::Highlights(q) => {
                let mut lines: Vec<String> = Vec::new();
                for i in 0..q.highlights.len()
                    invariant
                        lines.len() == i,
                        forall|t: int|
                            0 <= t < i ==> (#[trigger] lines@[t])@ == highlight_line(
                                q.highlights@[t],
                            ),
                {
                    let h = &q.highlights[i];
                    let mut line = String::new();
                    push_str(&mut line, h.title.as_str());
                    push_str(&mut line, ": ");
                    push_str(&mut line, h.summary.as_str());
                    proof {
                        reveal_strlit(": ");
                        assert(line@ =~= highlight_line(q.highlights@[i as int]));
                    }
                    lines.push(line);
                }
                assert(strs(lines@) =~= q.highlights@.map_values(|h: Highlight| highlight_line(h)));
                ws.highlights = lines;
            },
            QueryResponse::RepoSummary(q) => {
                let mut lines: Vec<String> = Vec::new();
                for i in 0..q.repo_summaries.len()
                    invariant
                        lines.len() == i,
                        forall|t: int|
                            0 <= t < i ==> (#[trigger] lines@[t])@ == repo_line(
                                q.repo_summaries@[t],
                            ),
                {
                    let rs = &q.repo_summaries[i];
                    let name = repo_name_of(&rs.repo);
                    let mut line = String::new();
                    push_str(&mut line, "Repo ");
                    push_all(&mut line, &name);
                    push_str(&mut line, ": ");
                    push_str(&mut line, rs.summary.as_str());
                    proof {
                        reveal_strlit("Repo ");
                        reveal_strlit(": ");
                        assert(line@ =~= repo_line(q.repo_summaries@[i as int]));
                    }
                    lines.push(line);
                }
                assert(strs(lines@) =~= q.repo_summaries@.map_values(
                    |r: RepoSummary| repo_line(r),
                ));
                ws.repo_summaries = lines;
            },
            QueryResponse::ShellOverview(q) => {
                ws.shell_overview = q.shell_overview.clone();
            },
            QueryResponse::TimeBreakdown(q) => {
                ws.time_breakdown = clone_strings(&q.time_breakdown);
            },
            QueryResponse::CommonGroups(q) => {
                ws.common_groups = clone_strings(&q.common_groups);
            },
        }
    }
}

} // verus!
