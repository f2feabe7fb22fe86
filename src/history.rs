//! Browsing-history items and the text each one is embedded from.
use vstd::prelude::*;

use crate::text::push_str;

verus! {

/// One visited page.
pub struct HistoryItem {
    pub url: String,
    pub title: Option<String>,
    pub visit_count: i64,
    /// Last visit, in seconds since the Unix epoch.
    pub last_visited: i64,
}

/// The text an item is embedded from: `query: <title> <url>`, with an empty
/// title when there is none.
pub open spec fn embedding_text(item: HistoryItem) -> Seq<char> {
    seq!['q', 'u', 'e', 'r', 'y', ':', ' '] + match item.title {
        Some(t) => t@,
        None => Seq::empty(),
    } + seq![' '] + item.url@
}

impl HistoryItem {
    /// The text the item is embedded from.
    pub fn embedding_text(&self) -> (r: String)
        ensures
            r@ == embedding_text(*self),
    {
        let mut out = String::new();
        push_str(&mut out, "query: ");
        match &self.title {
            Some(t) => push_str(&mut out, t.as_str()),
            None => {},
        }
        push_str(&mut out, " ");
        push_str(&mut out, self.url.as_str());
        proof {
            reveal_strlit("query: ");
            reveal_strlit(" ");
            assert(out@ =~= embedding_text(*self));
        }
        out
    }
}

/// The texts of all items, in order.
pub fn embedding_texts(items: &Vec<HistoryItem>) -> (r: Vec<String>)
    ensures
        r.len() == items.len(),
        forall|i: int| 0 <= i < items.len() ==> (#[trigger] r@[i])@ == embedding_text(items@[i]),
{
    let mut r: Vec<String> = Vec::new();
    for i in 0..items.len()
        invariant
            r.len() == i,
            forall|t: int| 0 <= t < i ==> (#[trigger] r@[t])@ == embedding_text(items@[t]),
    {
        r.push(items[i].embedding_text());
    }
    r
}

} // verus!
