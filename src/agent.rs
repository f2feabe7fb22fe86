//! The model-facing answer types and the agent's configuration.
use vstd::prelude::*;

use crate::text::push_str;

verus! {

/// The model used when none is given.
pub const DEFAULT_MODEL: &'static str = "openai/gpt-oss-20b";

/// A tool-calling agent bound to one model.
pub struct Agent {
    model: String,
}

impl Agent {
    /// The model the agent talks to.
    pub closed spec fn model_name(&self) -> Seq<char> {
        self.model@
    }

    /// An agent for `model`, or for the default model.
    pub fn new(model: Option<String>) -> (r: Self)
        ensures
            r.model_name() == match model {
                Some(m) => m@,
                None => DEFAULT_MODEL@,
            },
    {
        match model {
            Some(m) => Agent { model: m },
            None => {
                let mut m = String::new();
                push_str(&mut m, DEFAULT_MODEL);
                Agent { model: m }
            },
        }
    }

    /// The model the agent talks to.
    pub fn model(&self) -> (r: &str)
        ensures
            r@ == self.model_name(),
    {
        self.model.as_str()
    }
}

/// # commit_message
/// A commit message: a short summary and an optional body.
pub struct CommitMessage {
    pub summary: String,
    pub body: Option<String>,
}

/// The text of a commit message: the summary, then a blank line and the
/// body when there is one.
pub open spec fn commit_text(m: CommitMessage) -> Seq<char> {
    match m.body {
        Some(b) => m.summary@ + seq!['\n', '\n'] + b@,
        None => m.summary@,
    }
}

impl CommitMessage {
    /// The message as it is written to a commit.
    pub fn text(&self) -> (r: String)
        ensures
            r@ == commit_text(*self),
    {
        let mut out = String::new();
        push_str(&mut out, self.summary.as_str());
        match &self.body {
            Some(b) => {
                push_str(&mut out, "\n\n");
                push_str(&mut out, b.as_str());
                proof {
                    reveal_strlit("\n\n");
                }
            },
            None => {},
        }
        out
    }
}

/// # label_urls
/// The label a model gives to a group of URLs.
pub struct UrlLabel {
    pub label: String,
}

impl UrlLabel {
    /// The label's text.
    pub fn text(&self) -> (r: String)
        ensures
            r@ == self.label@,
    {
        self.label.clone()
    }
}

/// The tools offered to the model while it labels URLs: only fetching a URL.
pub struct LabelUrlRegistry;

impl LabelUrlRegistry {
    /// Names of the tools offered.
    pub fn tool_names() -> (r: Vec<&'static str>)
        ensures
            r.len() == 1,
            r@[0]@ == "fetch_url"@,
    {
        let mut r: Vec<&'static str> = Vec::new();
        r.push("fetch_url");
        r
    }
}

} // verus!
