//! Prompt templates with `{{name}}` placeholders.
use vstd::prelude::*;

use crate::text::{chars_of, string_of};

verus! {

/// `s` with every occurrence of `pat` replaced by `rep`, scanning from the
/// left and never overlapping (`pat` is not empty).
pub open spec fn replace_all(s: Seq<char>, pat: Seq<char>, rep: Seq<char>) -> Seq<char>
    decreases s.len(),
{
    if s.len() == 0 || pat.len() == 0 {
        s
    } else if pat.len() <= s.len() && s.take(pat.len() as int) == pat {
        rep + replace_all(s.skip(pat.len() as int), pat, rep)
    } else {
        seq![s[0]] + replace_all(s.skip(1), pat, rep)
    }
}

/// The placeholder that stands for the variable `key`: `{{key}}`.
pub open spec fn placeholder(key: Seq<char>) -> Seq<char> {
    seq!['{', '{'] + key + seq!['}', '}']
}

/// `t` after substituting each variable in turn, first to last.
pub open spec fn render_with(t: Seq<char>, vars: Seq<(Seq<char>, Seq<char>)>) -> Seq<char>
    decreases vars.len(),
{
    if vars.len() == 0 {
        t
    } else {
        render_with(replace_all(t, placeholder(vars[0].0), vars[0].1), vars.skip(1))
    }
}

/// The variables as pairs of character sequences.
pub open spec fn vars_view(vars: Seq<(&str, &str)>) -> Seq<(Seq<char>, Seq<char>)> {
    vars.map_values(|p: (&str, &str)| (p.0@, p.1@))
}

/// Whether `pat` occurs in `s` at position `i`.
fn matches_at(s: &Vec<char>, i: usize, pat: &Vec<char>) -> (r: bool)
    requires
        i <= s.len(),
    ensures
        r == (pat.len() <= s.len() - i && s@.skip(i as int).take(pat.len() as int) == pat@),
{
    if pat.len() > s.len() - i {
        return false;
    }
    let mut j: usize = 0;
    while j < pat.len()
        invariant
            j <= pat.len(),
            pat.len() <= s.len() - i,
            forall|k: int| 0 <= k < j ==> s@[i + k] == pat@[k],
        decreases pat.len() - j,
    {
        if s[i + j] != pat[j] {
            assert(s@.skip(i as int).take(pat.len() as int)[j as int] != pat@[j as int]);
            return false;
        }
        j += 1;
    }
    assert(s@.skip(i as int).take(pat.len() as int) =~= pat@);
    true
}

/// Replaces every occurrence of `pat` in `s` by `rep`, from the left.
pub fn replace_chars(s: &Vec<char>, pat: &Vec<char>, rep: &Vec<char>) -> (r: Vec<char>)
    ensures
        r@ == replace_all(s@, pat@, rep@),
{
    if pat.len() == 0 {
        return s.clone();
    }
    let mut out: Vec<char> = Vec::new();
    let mut i: usize = 0;
    assert(s@.skip(0) =~= s@);
    assert(out@ + replace_all(s@, pat@, rep@) =~= replace_all(s@, pat@, rep@));
    while i < s.len()
        invariant
            i <= s.len(),
            pat.len() > 0,
            replace_all(s@, pat@, rep@) == out@ + replace_all(s@.skip(i as int), pat@, rep@),
        decreases s.len() - i,
    {
        let rest = Ghost(s@.skip(i as int));
        if matches_at(s, i, pat) {
            let mut j: usize = 0;
            let ghost before = out@;
            while j < rep.len()
                invariant
                    j <= rep.len(),
                    out@ == before + rep@.take(j as int),
                decreases rep.len() - j,
            {
                out.push(rep[j]);
                assert(rep@.take(j + 1) =~= rep@.take(j as int).push(rep@[j as int]));
                j += 1;
            }
            assert(rep@.take(rep.len() as int) =~= rep@);
            assert(rest@.skip(pat.len() as int) =~= s@.skip(i + pat.len()));
            assert(before + (rep@ + replace_all(s@.skip(i + pat.len()), pat@, rep@)) =~= out@
                + replace_all(s@.skip(i + pat.len()), pat@, rep@));
            i = i + pat.len();
        } else {
            let ghost before = out@;
            out.push(s[i]);
            assert(rest@.skip(1) =~= s@.skip(i + 1));
            assert(rest@[0] == s@[i as int]);
            assert(before + (seq![s@[i as int]] + replace_all(s@.skip(i + 1), pat@, rep@)) =~= out@
                + replace_all(s@.skip(i + 1), pat@, rep@));
            i = i + 1;
        }
    }
    assert(s@.skip(i as int).len() == 0);
    assert(out@ + s@.skip(i as int) =~= out@);
    out
}

fn placeholder_of(key: &str) -> (r: Vec<char>)
    ensures
        r@ == placeholder(key@),
{
    let mut r: Vec<char> = Vec::new();
    r.push('{');
    r.push('{');
    let k = chars_of(key);
    let mut i: usize = 0;
    while i < k.len()
        invariant
            i <= k.len(),
            k@ == key@,
            r@ == seq!['{', '{'] + k@.take(i as int),
        decreases k.len() - i,
    {
        r.push(k[i]);
        assert(k@.take(i + 1) =~= k@.take(i as int).push(k@[i as int]));
        i += 1;
    }
    r.push('}');
    r.push('}');
    assert(k@.take(k.len() as int) =~= k@);
    assert(r@ =~= placeholder(key@));
    r
}

/// A template for model prompts with `{{key}}` placeholders.
pub struct PromptTemplate {
    template: &'static str,
}

impl PromptTemplate {
    /// The template text.
    pub closed spec fn text(&self) -> Seq<char> {
        self.template@
    }

    pub fn new(template: &'static str) -> (r: Self)
        ensures
            r.text() == template@,
    {
        PromptTemplate { template }
    }

    /// Substitutes the variables in the order given: each `{{key}}` is
    /// replaced by its value.
    pub fn render(&self, vars: &Vec<(&str, &str)>) -> (r: String)
        ensures
            r@ == render_with(self.text(), vars_view(vars@)),
    {
        let mut out = chars_of(self.template);
        let mut i: usize = 0;
        assert(vars_view(vars@).skip(0) =~= vars_view(vars@));
        while i < vars.len()
            invariant
                i <= vars.len(),
                render_with(self.text(), vars_view(vars@)) == render_with(
                    out@,
                    vars_view(vars@).skip(i as int),
                ),
            decreases vars.len() - i,
        {
            let (k, v) = vars[i];
            let pat = placeholder_of(k);
            let rep = chars_of(v);
            proof {
                let vs = vars_view(vars@).skip(i as int);
                assert(vs[0] == (k@, v@));
                assert(vs.skip(1) =~= vars_view(vars@).skip(i + 1));
            }
            out = replace_chars(&out, &pat, &rep);
            i += 1;
        }
        assert(vars_view(vars@).skip(i as int).len() == 0);
        string_of(&out)
    }
}

} // verus!
