use daily_ai::agent::{Agent, CommitMessage, UrlLabel};
use daily_ai::dirs::DirType;
use daily_ai::history::{embedding_texts, HistoryItem};
use daily_ai::summary::{
    Highlight, HighlightsQuery, QueryResponse, QueryType, RepoSummary, RepoSummaryQuery,
    SummaryQuery, TimeBreakdownQuery, WorkSummary,
};
use daily_ai::timestamps::timestamp_secs_to_nsecs;
use daily_ai::durations::{get_duration, window_from_parsed, DEFAULT_WINDOW_NANOS};
use daily_ai::shell::{filter_recent_history, reported_duration, ShellRecord};
use daily_ai::tools::{line_in_range, slice_lines, CompletionShell, OutputFormat};

#[test]
fn seconds_to_nanoseconds() {
    assert_eq!(timestamp_secs_to_nsecs(1_700_000_000), 1_700_000_000_000_000_000);
    assert_eq!(timestamp_secs_to_nsecs(-2), -2_000_000_000);
}

#[test]
fn dir_keys_and_paths() {
    assert_eq!(DirType::Data.xdg_key(), "XDG_DATA_HOME");
    assert_eq!(DirType::Config.rel_path(), ".config");
    assert_eq!(DirType::Cache.hint(), "~/.cache/dailyai");
}

#[test]
fn line_ranges() {
    assert!(line_in_range(None, None, None, None));
    assert!(line_in_range(Some(2), Some(4), None, Some(3)));
    assert!(!line_in_range(Some(2), Some(4), Some(3), Some(5)));
    assert!(line_in_range(Some(2), None, Some(3), None));
    assert!(!line_in_range(None, Some(4), None, None));
}

#[test]
fn agent_default_model() {
    assert_eq!(Agent::new(None).model(), "openai/gpt-oss-20b");
    assert_eq!(Agent::new(Some("m".to_string())).model(), "m");
}

#[test]
fn commit_message_text() {
    let m = CommitMessage { summary: "Fix it".to_string(), body: Some("Details".to_string()) };
    assert_eq!(m.text(), "Fix it\n\nDetails");
    let m = CommitMessage { summary: "Only".to_string(), body: None };
    assert_eq!(m.text(), "Only");
    assert_eq!(UrlLabel { label: "Rust".to_string() }.text(), "Rust");
}

#[test]
fn query_titles() {
    assert_eq!(QueryType::RepoSummary.title(), "repo_summaries");
    assert_eq!(QueryType::CommonGroups.title(), "common_groups");
}

#[test]
fn work_summary_updates() {
    let mut ws = WorkSummary::new();
    let q = QueryResponse::Highlights(HighlightsQuery {
        highlights: vec![Highlight { title: "A".to_string(), summary: "b".to_string() }],
        notes: vec!["n1".to_string()],
    });
    q.update_work_summary(&mut ws);
    assert_eq!(ws.highlights, vec!["A: b".to_string()]);
    assert_eq!(q.extract_notes(), vec!["n1".to_string()]);

    let q = QueryResponse::RepoSummary(RepoSummaryQuery {
        repo_summaries: vec![
            RepoSummary { repo: "/home/me/code/proj".to_string(), summary: "s".to_string() },
            RepoSummary { repo: "proj".to_string(), summary: "t".to_string() },
            RepoSummary { repo: "/proj".to_string(), summary: "u".to_string() },
        ],
        notes: vec![],
    });
    q.update_work_summary(&mut ws);
    assert_eq!(
        ws.repo_summaries,
        vec!["Repo code/proj: s".to_string(), "Repo proj: t".to_string(), "Repo /proj: u".to_string()]
    );
    assert_eq!(ws.highlights, vec!["A: b".to_string()]);

    let q = QueryResponse::Summary(SummaryQuery { summary: "all".to_string(), notes: vec![] });
    q.update_work_summary(&mut ws);
    assert_eq!(ws.summary, "all");
    let q = QueryResponse::TimeBreakdown(TimeBreakdownQuery {
        time_breakdown: vec!["1h".to_string()],
        notes: vec![],
    });
    q.update_work_summary(&mut ws);
    assert_eq!(ws.time_breakdown, vec!["1h".to_string()]);
}

#[test]
fn embedding_text_of_items() {
    let items = vec![
        HistoryItem { url: "https://a".to_string(), title: Some("A".to_string()), visit_count: 1, last_visited: 0 },
        HistoryItem { url: "https://b".to_string(), title: None, visit_count: 2, last_visited: 0 },
    ];
    assert_eq!(embedding_texts(&items), vec!["query: A https://a".to_string(), "query:  https://b".to_string()]);
}

#[test]
fn slice_lines_ranges() {
    let text = "a\nb\nc";
    assert_eq!(slice_lines(text, None, None), Some(text.to_string()));
    assert_eq!(slice_lines(text, Some(2), Some(3)), Some("b\nc".to_string()));
    assert_eq!(slice_lines(text, Some(2), None), Some("b\nc".to_string()));
    assert_eq!(slice_lines(text, None, Some(1)), Some("a".to_string()));
    assert_eq!(slice_lines(text, Some(3), Some(2)), None);
    assert_eq!(slice_lines(text, Some(0), Some(2)), None);
    assert_eq!(slice_lines(text, Some(4), Some(9)), Some(String::new()));
    assert_eq!(slice_lines(text, Some(5), Some(9)), None);
}

#[test]
fn slice_lines_keeps_a_trailing_break() {
    assert_eq!(slice_lines("a\nb\n", Some(2), Some(2)), Some("b".to_string()));
    assert_eq!(slice_lines("a\nb\n", Some(2), None), Some("b\n\n".to_string()));
}

#[test]
fn durations_from_text() {
    assert_eq!(get_duration(&Some("2h 37min".to_string())), 9_420_000_000_000);
    assert_eq!(get_duration(&Some("32ms".to_string())), 32_000_000);
    assert_eq!(get_duration(&Some("0".to_string())), 0);
    assert_eq!(get_duration(&Some("soon".to_string())), DEFAULT_WINDOW_NANOS);
    assert_eq!(get_duration(&None), 86_400_000_000_000);
    assert_eq!(window_from_parsed(Some((u64::MAX, 0))), DEFAULT_WINDOW_NANOS);
    assert_eq!(window_from_parsed(Some((4, 200_000_000))), 4_200_000_000);
    assert_eq!(get_duration(&Some("18446744073709551615s 1000000000ns".to_string())), DEFAULT_WINDOW_NANOS);
}

#[test]
fn recent_shell_records() {
    let rec = |timestamp: i128, deleted: bool| ShellRecord {
        timestamp,
        duration: -1,
        hostname: "h".to_string(),
        cwd: "/".to_string(),
        command: "ls".to_string(),
        exit: 0,
        session: "s".to_string(),
        deleted,
    };
    let records = vec![rec(5, false), rec(10, false), rec(12, true), rec(20, false)];
    assert_eq!(filter_recent_history(&records, 10), vec![1, 3]);
    assert_eq!(reported_duration(&records[0]), 0);
}

#[test]
fn completion_shell_names() {
    assert_eq!(CompletionShell::PowerShell.name(), "powershell");
    assert_eq!(CompletionShell::Nushell.name(), "nushell");
    assert_ne!(OutputFormat::Json, OutputFormat::Dir);
}
