//! Recovery of a JSON document from a language model's reply.
//!
//! The cleaner reads the reply one character at a time and keeps only what
//! continues a well-formed JSON value: strings are copied verbatim (escapes
//! included), numbers and the literals `true`, `false` and `null` are kept
//! where a value is expected, and structural characters are kept only where
//! the grammar allows them. Everything else is noise and is dropped.
use vstd::prelude::*;

use crate::text::{ascii_alpha, ascii_digit, is_alpha, is_digit, push_all};

verus! {

/// What the cleaner expects next, outside of strings, numbers and literals.
#[derive(PartialEq, Eq, Structural, Clone, Copy, Debug)]
pub enum Expectation {
    Value,
    Key,
    Colon,
    CommaOrEnd,
    Done,
}

/// An open JSON container.
#[derive(PartialEq, Eq, Structural, Clone, Copy, Debug)]
pub enum Container {
    Object,
    Array,
}

/// The abstract state of a cleaner.
pub struct CleanerView {
    pub stack: Seq<Container>,
    pub expect: Expectation,
    pub in_quotes: bool,
    pub is_escaped: bool,
    pub in_number: bool,
    pub literal: Seq<char>,
}

/// The state of a cleaner before it has read anything.
pub open spec fn idle() -> CleanerView {
    CleanerView {
        stack: Seq::empty(),
        expect: Expectation::Value,
        in_quotes: false,
        is_escaped: false,
        in_number: false,
        literal: Seq::empty(),
    }
}

/// Characters that continue a number once it has started.
pub open spec fn is_number_char(c: char) -> bool {
    is_digit(c) || c == '.' || c == '-' || c == '+' || c == 'e' || c == 'E'
}

/// The three bare words that JSON accepts.
pub open spec fn is_json_literal(w: Seq<char>) -> bool {
    w == seq!['t', 'r', 'u', 'e'] || w == seq!['f', 'a', 'l', 's', 'e'] || w == seq![
        'n',
        'u',
        'l',
        'l',
    ]
}

/// After a complete value: a separator or the end of the container, or the
/// end of the document at the top level.
pub open spec fn after_value(st: CleanerView) -> CleanerView {
    CleanerView {
        expect: if st.stack.len() == 0 {
            Expectation::Done
        } else {
            Expectation::CommaOrEnd
        },
        ..st
    }
}

/// A bare word ends: it is kept only if it is a JSON literal in value position.
pub open spec fn end_literal(st: CleanerView) -> (CleanerView, Seq<char>) {
    let cleared = CleanerView { literal: Seq::empty(), ..st };
    if is_json_literal(st.literal) && st.expect == Expectation::Value {
        (after_value(cleared), st.literal)
    } else {
        (cleared, Seq::empty())
    }
}

/// A character inside a string.
pub open spec fn step_quoted(st: CleanerView, c: char) -> (CleanerView, Seq<char>) {
    if c == '\\' {
        (CleanerView { is_escaped: true, ..st }, seq![c])
    } else if c == '"' {
        let closed = CleanerView { in_quotes: false, ..st };
        if st.expect == Expectation::Key {
            (CleanerView { expect: Expectation::Colon, ..closed }, seq![c])
        } else {
            (after_value(closed), seq![c])
        }
    } else {
        (st, seq![c])
    }
}

/// A structural character (or noise) outside strings, numbers and bare words.
pub open spec fn step_structural(st: CleanerView, c: char) -> (CleanerView, Seq<char>) {
    let top_is = |k: Container| st.stack.len() > 0 && st.stack.last() == k;
    if c == '{' && st.expect == Expectation::Value {
        (
            CleanerView { stack: st.stack.push(Container::Object), expect: Expectation::Key, ..st },
            seq![c],
        )
    } else if c == '[' && st.expect == Expectation::Value {
        (
            CleanerView {
                stack: st.stack.push(Container::Array),
                expect: Expectation::Value,
                ..st
            },
            seq![c],
        )
    } else if c == '}' && top_is(Container::Object) && (st.expect == Expectation::Key
        || st.expect == Expectation::CommaOrEnd) {
        (after_value(CleanerView { stack: st.stack.drop_last(), ..st }), seq![c])
    } else if c == ']' && top_is(Container::Array) && (st.expect == Expectation::Value
        || st.expect == Expectation::CommaOrEnd) {
        (after_value(CleanerView { stack: st.stack.drop_last(), ..st }), seq![c])
    } else if c == '"' && (st.expect == Expectation::Key || st.expect == Expectation::Value) {
        (CleanerView { in_quotes: true, ..st }, seq![c])
    } else if c == ':' && st.expect == Expectation::Colon {
        (CleanerView { expect: Expectation::Value, ..st }, seq![c])
    } else if c == ',' && st.expect == Expectation::CommaOrEnd && st.stack.len() > 0 {
        let next = if st.stack.last() == Container::Object {
            Expectation::Key
        } else {
            Expectation::Value
        };
        (CleanerView { expect: next, ..st }, seq![c])
    } else {
        (st, Seq::empty())
    }
}

/// A character outside strings, once any number in progress has ended.
pub open spec fn step_plain(st: CleanerView, c: char) -> (CleanerView, Seq<char>) {
    if st.literal.len() > 0 && is_alpha(c) {
        (CleanerView { literal: st.literal.push(c), ..st }, Seq::empty())
    } else {
        let (st1, out1) = if st.literal.len() > 0 {
            end_literal(st)
        } else {
            (st, Seq::empty())
        };
        if is_alpha(c) {
            (CleanerView { literal: st1.literal.push(c), ..st1 }, out1)
        } else if (c == '-' || is_digit(c)) && st1.expect == Expectation::Value {
            (CleanerView { in_number: true, ..st1 }, out1.push(c))
        } else {
            let (st2, out2) = step_structural(st1, c);
            (st2, out1 + out2)
        }
    }
}

/// One character of input: the next state and the characters kept.
pub open spec fn step(st: CleanerView, c: char) -> (CleanerView, Seq<char>) {
    if st.is_escaped {
        (
            CleanerView { is_escaped: false, ..st },
            if st.in_quotes {
                seq![c]
            } else {
                Seq::empty()
            },
        )
    } else if st.in_quotes {
        step_quoted(st, c)
    } else if st.in_number && is_number_char(c) {
        (st, seq![c])
    } else if st.in_number {
        step_plain(after_value(CleanerView { in_number: false, ..st }), c)
    } else {
        step_plain(st, c)
    }
}

/// The state after reading `s` from `st`, and the characters kept on the way.
pub open spec fn run(st: CleanerView, s: Seq<char>) -> (CleanerView, Seq<char>)
    decreases s.len(),
{
    if s.len() == 0 {
        (st, Seq::empty())
    } else {
        let (mid, out1) = run(st, s.drop_last());
        let (last, out2) = step(mid, s.last());
        (last, out1 + out2)
    }
}

/// What the end of input keeps of a pending bare word.
pub open spec fn flush(st: CleanerView) -> Seq<char> {
    if st.literal.len() > 0 && is_json_literal(st.literal) && st.expect == Expectation::Value {
        st.literal
    } else {
        Seq::empty()
    }
}

/// The cleaned text of `s`, read from state `st`.
pub open spec fn cleaned_from(st: CleanerView, s: Seq<char>) -> Seq<char> {
    run(st, s).1 + flush(run(st, s).0)
}

/// The cleaned text of `s`, read by a cleaner at rest.
pub open spec fn cleaned(s: Seq<char>) -> Seq<char> {
    cleaned_from(idle(), s)
}

/// A streaming JSON sanitizer for model replies.
pub struct ResponseCleaner {
    stack: Vec<Container>,
    expect: Expectation,
    in_quotes: bool,
    is_escaped: bool,
    in_number: bool,
    literal_buffer: Vec<char>,
}

impl View for ResponseCleaner {
    type V = CleanerView;

    closed spec fn view(&self) -> CleanerView {
        CleanerView {
            stack: self.stack@,
            expect: self.expect,
            in_quotes: self.in_quotes,
            is_escaped: self.is_escaped,
            in_number: self.in_number,
            literal: self.literal_buffer@,
        }
    }
}

fn literal_is_json(w: &Vec<char>) -> (r: bool)
    ensures
        r == is_json_literal(w@),
{
    let t = w.len() == 4 && w[0] == 't' && w[1] == 'r' && w[2] == 'u' && w[3] == 'e';
    let f = w.len() == 5 && w[0] == 'f' && w[1] == 'a' && w[2] == 'l' && w[3] == 's' && w[4]
        == 'e';
    let n = w.len() == 4 && w[0] == 'n' && w[1] == 'u' && w[2] == 'l' && w[3] == 'l';
    proof {
        if t {
            assert(w@ =~= seq!['t', 'r', 'u', 'e']);
        }
        if f {
            assert(w@ =~= seq!['f', 'a', 'l', 's', 'e']);
        }
        if n {
            assert(w@ =~= seq!['n', 'u', 'l', 'l']);
        }
    }
    t || f || n
}

fn number_char(c: char) -> (r: bool)
    ensures
        r == is_number_char(c),
{
    ascii_digit(c) || c == '.' || c == '-' || c == '+' || c == 'e' || c == 'E'
}

impl ResponseCleaner {
    /// A cleaner at rest.
    pub fn new() -> (r: Self)
        ensures
            r@ == idle(),
    {
        let r = ResponseCleaner {
            stack: Vec::new(),
            expect: Expectation::Value,
            in_quotes: false,
            is_escaped: false,
            in_number: false,
            literal_buffer: Vec::new(),
        };
        assert(r@.stack =~= Seq::empty());
        assert(r@.literal =~= Seq::empty());
        r
    }

    /// Puts the cleaner back at rest.
    fn reset(&mut self)
        ensures
            final(self)@ == idle(),
    {
        self.stack.clear();
        self.expect = Expectation::Value;
        self.in_quotes = false;
        self.is_escaped = false;
        self.in_number = false;
        self.literal_buffer.clear();
        assert(self@.stack =~= Seq::empty());
        assert(self@.literal =~= Seq::empty());
    }

    fn transition_after_value(&mut self)
        ensures
            final(self)@ == after_value(old(self)@),
    {
        self.expect = Expectation::CommaOrEnd;
        if self.stack.len() == 0 {
            self.expect = Expectation::Done;
        }
    }

    fn end_literal(&mut self, output: &mut String)
        ensures
            final(self)@ == end_literal(old(self)@).0,
            final(output)@ == old(output)@ + end_literal(old(self)@).1,
    {
        let valid = literal_is_json(&self.literal_buffer);
        if valid && self.expect == Expectation::Value {
            push_all(output, &self.literal_buffer);
            self.literal_buffer.clear();
            self.transition_after_value();
        } else {
            self.literal_buffer.clear();
            assert(output@ =~= old(output)@ + Seq::<char>::empty());
        }
        assert(self@ == end_literal(old(self)@).0);
    }

    fn structural(&mut self, c: char, output: &mut String)
        ensures
            final(self)@ == step_structural(old(self)@, c).0,
            final(output)@ == old(output)@ + step_structural(old(self)@, c).1,
    {
        let n = self.stack.len();
        let top_object = n > 0 && self.stack[n - 1] == Container::Object;
        let top_array = n > 0 && self.stack[n - 1] == Container::Array;
        let e = self.expect;
        if c == '{' && e == Expectation::Value {
            self.stack.push(Container::Object);
            self.expect = Expectation::Key;
            output.push(c);
        } else if c == '[' && e == Expectation::Value {
            self.stack.push(Container::Array);
            self.expect = Expectation::Value;
            output.push(c);
        } else if c == '}' && top_object && (e == Expectation::Key || e
            == Expectation::CommaOrEnd) {
            self.stack.pop();
            self.transition_after_value();
            output.push(c);
        } else if c == ']' && top_array && (e == Expectation::Value || e
            == Expectation::CommaOrEnd) {
            self.stack.pop();
            self.transition_after_value();
            output.push(c);
        } else if c == '"' && (e == Expectation::Key || e == Expectation::Value) {
            self.in_quotes = true;
            output.push(c);
        } else if c == ':' && e == Expectation::Colon {
            self.expect = Expectation::Value;
            output.push(c);
        } else if c == ',' && e == Expectation::CommaOrEnd && n > 0 {
            if top_object {
                self.expect = Expectation::Key;
            } else {
                self.expect = Expectation::Value;
            }
            output.push(c);
        } else {
            assert(output@ =~= old(output)@ + Seq::<char>::empty());
        }
        assert(self@ =~= step_structural(old(self)@, c).0);
        assert(output@ =~= old(output)@ + step_structural(old(self)@, c).1);
    }

    fn step_plain(&mut self, c: char, output: &mut String)
        ensures
            final(self)@ == step_plain(old(self)@, c).0,
            final(output)@ == old(output)@ + step_plain(old(self)@, c).1,
    {
        let alpha = ascii_alpha(c);
        if self.literal_buffer.len() > 0 && alpha {
            self.literal_buffer.push(c);
            assert(output@ =~= old(output)@ + Seq::<char>::empty());
            return ;
        }
        if self.literal_buffer.len() > 0 {
            self.end_literal(output);
        } else {
            assert(output@ =~= old(output)@ + Seq::<char>::empty());
        }
        if alpha {
            self.literal_buffer.push(c);
        } else if (c == '-' || ascii_digit(c)) && self.expect == Expectation::Value {
            self.in_number = true;
            output.push(c);
        } else {
            self.structural(c, output);
            assert(output@ =~= old(output)@ + (step_plain(old(self)@, c).1));
        }
    }

    /// Reads one character.
    fn feed(&mut self, c: char, output: &mut String)
        ensures
            final(self)@ == step(old(self)@, c).0,
            final(output)@ == old(output)@ + step(old(self)@, c).1,
    {
        if self.is_escaped {
            self.is_escaped = false;
            if self.in_quotes {
                output.push(c);
            } else {
                assert(output@ =~= old(output)@ + Seq::<char>::empty());
            }
        } else if self.in_quotes {
            if c == '\\' {
                self.is_escaped = true;
                output.push(c);
            } else if c == '"' {
                self.in_quotes = false;
                output.push(c);
                if self.expect == Expectation::Key {
                    self.expect = Expectation::Colon;
                } else {
                    self.transition_after_value();
                }
            } else {
                output.push(c);
            }
        } else if self.in_number && number_char(c) {
            output.push(c);
        } else {
            if self.in_number {
                self.in_number = false;
                self.transition_after_value();
            }
            self.step_plain(c, output);
        }
    }

    /// Cleans `response`: keeps what continues a JSON value and drops the
    /// rest. The cleaner is at rest afterwards.
    pub fn clean(&mut self, response: &str) -> (r: String)
        ensures
            r@ == cleaned_from(old(self)@, response@),
            final(self)@ == idle(),
    {
        let ghost start = self@;
        let mut output = String::new();
        for c in it: response.chars()
            invariant
                it.seq() == response@,
                (self@, output@) == run(start, response@.take(it.index() as int)),
        {
            let ghost i = it.index() as int;
            proof {
                let s = response@.take(i + 1);
                assert(s.drop_last() =~= response@.take(i));
                assert(s.last() == c);
            }
            self.feed(c, &mut output);
        }
        assert(response@.take(response@.len() as int) =~= response@);
        if self.literal_buffer.len() > 0 && literal_is_json(&self.literal_buffer) && self.expect
            == Expectation::Value {
            push_all(&mut output, &self.literal_buffer);
        } else {
            assert(output@ =~= output@ + Seq::<char>::empty());
        }
        self.reset();
        output
    }
}

} // verus!
