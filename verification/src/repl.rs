//! The decisions of the read-eval-print loop.

use vstd::prelude::*;
use vstd::string::*;
use vstd::utf8::encode_utf8;

verus! {

/// Where a scan of source text stands: how many brackets are open, whether it
/// is inside a string literal, and whether the next character there is escaped.
pub struct Scan {
    pub depth: int,
    pub in_string: bool,
    pub escape: bool,
}

/// The scan after one more character.
pub open spec fn scan_char(s: Scan, ch: char) -> Scan {
    if s.escape {
        Scan { escape: false, ..s }
    } else if s.in_string && ch == '\\' {
        Scan { escape: true, ..s }
    } else if ch == '"' {
        Scan { in_string: !s.in_string, ..s }
    } else if !s.in_string && (ch == '(' || ch == '[') {
        Scan { depth: s.depth + 1, ..s }
    } else if !s.in_string && (ch == ')' || ch == ']') {
        Scan { depth: s.depth - 1, ..s }
    } else {
        s
    }
}

/// The scan of a text that starts where another scan stands.
pub open spec fn scan_from(s: Scan, text: Seq<char>) -> Scan
    decreases text.len(),
{
    if text.len() == 0 {
        s
    } else {
        scan_char(scan_from(s, text.drop_last()), text.last())
    }
}

/// The scan of a text.
pub open spec fn scan(text: Seq<char>) -> Scan {
    scan_from(Scan { depth: 0, in_string: false, escape: false }, text)
}

/// Whether a text is not empty and no bracket in it is left open.
pub open spec fn balanced(text: Seq<char>) -> bool {
    text.len() > 0 && scan(text).depth <= 0
}

proof fn lemma_utf8_len(chars: Seq<char>)
    ensures
        encode_utf8(chars).len() >= chars.len(),
    decreases chars.len(),
{
    if chars.len() > 0 {
        lemma_utf8_len(chars.drop_first());
    }
}

/// Whether the input is not empty and every open bracket is closed again.
/// Brackets inside string literals do not count.
pub fn is_balanced(src: &str) -> (result: bool)
    ensures
        result == balanced(src@),
{
    if src.is_empty() {
        return false;
    }
    let mut depth: i128 = 0;
    let mut in_string = false;
    let mut escape = false;
    let size = src.as_bytes().len();
    proof {
        lemma_utf8_len(src@);
        assert(src@.take(0) =~= Seq::<char>::empty());
    }
    for ch in it: src.chars()
        invariant
            it.seq() == src@,
            src@.len() <= size,
            scan(src@.take(it.index() as int)) == (Scan { depth: depth as int, in_string, escape }),
            -it.index() <= depth <= it.index(),
    {
        let ghost i = it.index() as int;
        assert(src@.take(i + 1).drop_last() =~= src@.take(i));
        if escape {
            escape = false;
        } else if in_string && ch == '\\' {
            escape = true;
        } else if ch == '"' {
            in_string = !in_string;
        } else if !in_string && (ch == '(' || ch == '[') {
            depth = depth + 1;
        } else if !in_string && (ch == ')' || ch == ']') {
            depth = depth - 1;
        }
    }
    assert(src@.take(src@.len() as int) =~= src@);
    depth <= 0
}

/// Scanning two texts one after the other is scanning them as one.
pub proof fn law_scan_concat(s: Scan, a: Seq<char>, b: Seq<char>)
    ensures
        scan_from(s, a + b) == scan_from(scan_from(s, a), b),
    decreases b.len(),
{
    if b.len() == 0 {
        assert(a + b =~= a);
    } else {
        assert((a + b).drop_last() =~= a + b.drop_last());
        law_scan_concat(s, a, b.drop_last());
    }
}

/// The number of opening brackets in a text.
pub open spec fn open_count(text: Seq<char>) -> nat
    decreases text.len(),
{
    if text.len() == 0 {
        0
    } else {
        open_count(text.drop_last()) + (if text.last() == '(' || text.last() == '[' {
            1nat
        } else {
            0nat
        })
    }
}

/// The number of closing brackets in a text.
pub open spec fn close_count(text: Seq<char>) -> nat
    decreases text.len(),
{
    if text.len() == 0 {
        0
    } else {
        close_count(text.drop_last()) + (if text.last() == ')' || text.last() == ']' {
            1nat
        } else {
            0nat
        })
    }
}

proof fn lemma_scan_without_strings(text: Seq<char>)
    requires
        forall|i: int| 0 <= i < text.len() ==> #[trigger] text[i] != '"',
    ensures
        scan(text) == (Scan {
            depth: open_count(text) - close_count(text),
            in_string: false,
            escape: false,
        }),
    decreases text.len(),
{
    if text.len() > 0 {
        let front = text.drop_last();
        assert forall|i: int| 0 <= i < front.len() implies #[trigger] front[i] != '"' by {
            assert(front[i] == text[i]);
        }
        lemma_scan_without_strings(front);
        assert(text[text.len() - 1] != '"');
    }
}

/// A text without string literals is balanced where it is not empty and closes
/// at least as many brackets as it opens.
pub proof fn law_balanced_counts(text: Seq<char>)
    requires
        forall|i: int| 0 <= i < text.len() ==> #[trigger] text[i] != '"',
    ensures
        balanced(text) <==> text.len() > 0 && open_count(text) <= close_count(text),
{
    lemma_scan_without_strings(text);
}

/// Whether a text can stand between the quotes of a string literal: no quote in
/// it, except behind a backslash, and something behind each backslash.
pub open spec fn literal_body(inner: Seq<char>) -> bool
    decreases inner.len(),
{
    if inner.len() == 0 {
        true
    } else if inner[0] == '\\' {
        inner.len() >= 2 && literal_body(inner.skip(2))
    } else {
        inner[0] != '"' && literal_body(inner.skip(1))
    }
}

/// A string literal does not change how many brackets are open, whatever stands
/// in it.
pub proof fn law_string_literal_skipped(s: Scan, inner: Seq<char>)
    requires
        !s.in_string,
        !s.escape,
        literal_body(inner),
    ensures
        scan_from(s, seq!['"'] + inner + seq!['"']) == s,
{
    let quote = seq!['"'];
    let inside = Scan { in_string: true, ..s };
    lemma_scan_one(s, '"');
    lemma_scan_one(inside, '"');
    lemma_inside_string(inside, inner);
    law_scan_concat(s, quote, inner);
    law_scan_concat(s, quote + inner, quote);
}

proof fn lemma_scan_one(s: Scan, ch: char)
    ensures
        scan_from(s, seq![ch]) == scan_char(s, ch),
{
    reveal_with_fuel(scan_from, 2);
    assert(seq![ch].drop_last() =~= Seq::<char>::empty());
}

proof fn lemma_inside_string(s: Scan, inner: Seq<char>)
    requires
        s.in_string,
        !s.escape,
        literal_body(inner),
    ensures
        scan_from(s, inner) == s,
    decreases inner.len(),
{
    if inner.len() > 0 {
        let rest = inner.skip(1);
        assert(inner =~= seq![inner[0]] + rest);
        law_scan_concat(s, seq![inner[0]], rest);
        lemma_scan_one(s, inner[0]);
        if inner[0] == '\\' {
            let escaped = Scan { escape: true, ..s };
            assert(rest =~= seq![inner[1]] + inner.skip(2));
            law_scan_concat(escaped, seq![inner[1]], inner.skip(2));
            lemma_scan_one(escaped, inner[1]);
            lemma_inside_string(s, inner.skip(2));
        } else {
            lemma_inside_string(s, rest);
        }
    }
}

/// Whether a character is white space, by the Unicode property `White_Space`.
pub open spec fn is_white_space(ch: char) -> bool {
    let c = ch as u32;
    ||| 0x9 <= c <= 0xd
    ||| c == 0x20
    ||| c == 0x85
    ||| c == 0xa0
    ||| c == 0x1680
    ||| 0x2000 <= c <= 0x200a
    ||| c == 0x2028
    ||| c == 0x2029
    ||| c == 0x202f
    ||| c == 0x205f
    ||| c == 0x3000
}

/// A text without the white space at its start.
pub open spec fn trim_start(text: Seq<char>) -> Seq<char>
    decreases text.len(),
{
    if text.len() > 0 && is_white_space(text[0]) {
        trim_start(text.drop_first())
    } else {
        text
    }
}

/// A text without the white space at its end.
pub open spec fn trim_end(text: Seq<char>) -> Seq<char>
    decreases text.len(),
{
    if text.len() > 0 && is_white_space(text.last()) {
        trim_end(text.drop_last())
    } else {
        text
    }
}

/// A text without the white space at its start and at its end.
pub open spec fn trimmed(text: Seq<char>) -> Seq<char> {
    trim_end(trim_start(text))
}

fn white_space(ch: char) -> (white: bool)
    ensures
        white == is_white_space(ch),
{
    let c = ch as u32;
    (0x9 <= c && c <= 0xd) || c == 0x20 || c == 0x85 || c == 0xa0 || c == 0x1680 || (0x2000 <= c
        && c <= 0x200a) || c == 0x2028 || c == 0x2029 || c == 0x202f || c == 0x205f || c == 0x3000
}

/// Copies a text without the white space at its start and at its end.
pub fn trim_text(text: &str) -> (result: String)
    ensures
        result@ == trimmed(text@),
{
    let mut chars: Vec<char> = Vec::new();
    for ch in it: text.chars()
        invariant
            it.seq() == text@,
            chars@ =~= text@.take(it.index() as int),
    {
        chars.push(ch);
    }
    assert(chars@ =~= text@);
    let mut start: usize = 0;
    assert(chars@.skip(0) =~= chars@);
    while start < chars.len() && white_space(chars[start])
        invariant
            start <= chars@.len(),
            trim_start(chars@) == trim_start(chars@.skip(start as int)),
        decreases chars@.len() - start,
    {
        proof {
            assert(chars@.skip(start as int)[0] == chars@[start as int]);
            assert(chars@.skip(start as int).drop_first() =~= chars@.skip(start + 1));
        }
        start = start + 1;
    }
    proof {
        if start < chars@.len() {
            assert(chars@.skip(start as int)[0] == chars@[start as int]);
        }
        assert(trim_start(chars@) == chars@.skip(start as int));
    }
    let mut end: usize = chars.len();
    assert(chars@.subrange(start as int, end as int) =~= chars@.skip(start as int));
    while start < end && white_space(chars[end - 1])
        invariant
            start <= end <= chars@.len(),
            trimmed(chars@) == trim_end(chars@.subrange(start as int, end as int)),
        decreases end - start,
    {
        proof {
            let rest = chars@.subrange(start as int, end as int);
            assert(rest.last() == chars@[end - 1]);
            assert(rest.drop_last() =~= chars@.subrange(start as int, end - 1));
        }
        end = end - 1;
    }
    proof {
        let rest = chars@.subrange(start as int, end as int);
        if start < end {
            assert(rest.last() == chars@[end - 1]);
        }
        assert(trimmed(text@) == rest);
    }
    text.substring_char(start, end).to_string()
}

/// What comes in from the terminal.
#[derive(Debug, PartialEq, Eq)]
pub enum ReplEvent {
    /// A line, without its line break.
    Line(String),
    /// The end of the input.
    EndOfInput,
    /// The input could not be read, for this reason.
    Failed(String),
}

/// What the loop does next.
#[derive(Debug, PartialEq, Eq)]
pub enum ReplAction {
    /// Prompt for another line.
    Prompt,
    /// Run this source text, and prompt for another line.
    Run(String),
    /// End the line on the screen and leave.
    Leave,
    /// Print this message and leave.
    Fail(String),
}

/// The read-eval-print loop: the lines of an input that is not complete yet.
#[derive(Debug, PartialEq, Eq)]
pub struct Repl {
    pub input: String,
}

/// The lines of an input with one more line.
pub open spec fn with_line(input: Seq<char>, line: Seq<char>) -> Seq<char> {
    input + line + seq!['\n']
}

/// Whether a line takes the loop from one input to another, with an action: the
/// input with the line is kept where a bracket is open, and else it is run,
/// unless it is blank.
pub open spec fn takes_line(
    input: Seq<char>,
    line: Seq<char>,
    after: Seq<char>,
    action: ReplAction,
) -> bool {
    let all = with_line(input, line);
    if !balanced(all) {
        after == all && action == ReplAction::Prompt
    } else if trimmed(all).len() == 0 {
        after.len() == 0 && action == ReplAction::Prompt
    } else {
        after.len() == 0 && action is Run && action->Run_0@ == trimmed(all)
    }
}

impl Repl {
    /// Whether the loop holds no more than it has to: nothing, or an input that
    /// is not complete.
    pub open spec fn waiting(self) -> bool {
        self.input@.len() == 0 || !balanced(self.input@)
    }

    /// A loop without input.
    pub fn new() -> (repl: Repl)
        ensures
            repl.input@ == Seq::<char>::empty(),
            repl.waiting(),
    {
        Repl { input: String::new() }
    }

    /// The prompt: one for the first line of an input, another for the lines
    /// that continue it.
    pub fn prompt(&self) -> (text: &'static str)
        ensures
            text@ == if self.input@.len() == 0 {
                "\u{3c0}> "@
            } else {
                "...  "@
            },
    {
        if self.input.as_str().is_empty() {
            "\u{3c0}> "
        } else {
            "...  "
        }
    }

    /// Takes what came in. Lines are gathered until the input is balanced; then
    /// the input is run, unless it is blank, and a new input starts.
    pub fn handle(&mut self, event: ReplEvent) -> (action: ReplAction)
        ensures
            old(self).waiting() ==> final(self).waiting(),
            event matches ReplEvent::Line(line) ==> takes_line(
                old(self).input@,
                line@,
                final(self).input@,
                action,
            ),
            match event {
                ReplEvent::Line(line) => {
                    let all = with_line(old(self).input@, line@);
                    if balanced(all) {
                        &&& final(self).input@ == Seq::<char>::empty()
                        &&& trimmed(all).len() == 0 ==> action == ReplAction::Prompt
                        &&& trimmed(all).len() > 0 ==> {
                            &&& action is Run
                            &&& action->Run_0@ == trimmed(all)
                        }
                    } else {
                        &&& final(self).input@ == all
                        &&& action == ReplAction::Prompt
                    }
                },
                ReplEvent::EndOfInput => {
                    &&& final(self).input@ == old(self).input@
                    &&& action == ReplAction::Leave
                },
                ReplEvent::Failed(reason) => {
                    &&& final(self).input@ == old(self).input@
                    &&& action is Fail
                    &&& action->Fail_0@ == "Input error: "@ + reason@
                },
            },
    {
        match event {
            ReplEvent::Line(line) => {
                let ghost all = with_line(self.input@, line@);
                self.input.append(line.as_str());
                self.input.append("\n");
                proof {
                    reveal_strlit("\n");
                    assert("\n"@ =~= seq!['\n']);
                    assert(self.input@ =~= all);
                }
                if is_balanced(self.input.as_str()) {
                    let src = trim_text(self.input.as_str());
                    self.input = String::new();
                    if src.as_str().is_empty() {
                        ReplAction::Prompt
                    } else {
                        ReplAction::Run(src)
                    }
                } else {
                    ReplAction::Prompt
                }
            },
            ReplEvent::EndOfInput => ReplAction::Leave,
            ReplEvent::Failed(reason) => {
                let mut message = "Input error: ".to_string();
                message.append(reason.as_str());
                ReplAction::Fail(message)
            },
        }
    }
}

/// What came of one expression of the source text, or of the text itself.
#[derive(Debug, PartialEq, Eq)]
pub enum Report {
    /// The expression has this value, as shown to the user.
    Value(String),
    /// The evaluation failed, with this message.
    EvaluationError(String),
    /// The source text could not be parsed, with this message.
    ParseError(String),
}

impl Report {
    /// The line that is printed.
    pub open spec fn printed(self) -> Seq<char> {
        match self {
            Report::Value(shown) => "=> "@ + shown@,
            Report::EvaluationError(message) => "Evaluation Error: "@ + message@,
            Report::ParseError(message) => "Parse error: "@ + message@,
        }
    }

    /// The line that is printed.
    pub fn line(&self) -> (text: String)
        ensures
            text@ == self.printed(),
            text@ == match *self {
                Report::Value(shown) => "=> "@ + shown@,
                Report::EvaluationError(message) => "Evaluation Error: "@ + message@,
                Report::ParseError(message) => "Parse error: "@ + message@,
            },
    {
        match self {
            Report::Value(shown) => "=> ".to_string().concat(shown.as_str()),
            Report::EvaluationError(message) => "Evaluation Error: ".to_string().concat(
                message.as_str(),
            ),
            Report::ParseError(message) => "Parse error: ".to_string().concat(message.as_str()),
        }
    }
}

/// How one more character changes a scan. Outside of a string literal a bracket
/// opens or closes, a quote starts a literal, and nothing else matters; inside,
/// only a quote and a backslash do; behind a backslash, nothing does.
pub proof fn law_scan_one_more(text: Seq<char>, ch: char)
    ensures
        scan(Seq::<char>::empty()) == (Scan { depth: 0, in_string: false, escape: false }),
        ({
            let s = scan(text);
            let t = scan(text.push(ch));
            &&& s.escape ==> t.depth == s.depth && t.in_string == s.in_string && !t.escape
            &&& !s.escape && s.in_string ==> {
                &&& t.depth == s.depth
                &&& t.in_string == (ch != '"')
                &&& t.escape == (ch == '\\')
            }
            &&& !s.escape && !s.in_string ==> {
                &&& ch == '(' || ch == '[' ==> t.depth == s.depth + 1
                &&& ch == ')' || ch == ']' ==> t.depth == s.depth - 1
                &&& ch != '(' && ch != '[' && ch != ')' && ch != ']' ==> t.depth == s.depth
                &&& t.in_string == (ch == '"')
                &&& !t.escape
            }
        }),
        balanced(text) <==> text.len() > 0 && scan(text).depth <= 0,
{
    assert(text.push(ch).drop_last() =~= text);
}

/// How one more character changes the numbers of brackets.
pub proof fn law_counts_one_more(text: Seq<char>, ch: char)
    ensures
        open_count(Seq::<char>::empty()) == 0,
        close_count(Seq::<char>::empty()) == 0,
        open_count(text.push(ch)) == open_count(text) + (if ch == '(' || ch == '[' {
            1nat
        } else {
            0nat
        }),
        close_count(text.push(ch)) == close_count(text) + (if ch == ')' || ch == ']' {
            1nat
        } else {
            0nat
        }),
{
    assert(text.push(ch).drop_last() =~= text);
}

/// Outside of string literals, a text without quotes opens and closes what it
/// says, whatever stands before it.
pub proof fn law_code_counts(s: Scan, text: Seq<char>)
    requires
        !s.in_string,
        !s.escape,
        forall|i: int| 0 <= i < text.len() ==> #[trigger] text[i] != '"',
    ensures
        scan_from(s, text) == (Scan {
            depth: s.depth + open_count(text) - close_count(text),
            ..s
        }),
    decreases text.len(),
{
    if text.len() > 0 {
        let front = text.drop_last();
        assert forall|i: int| 0 <= i < front.len() implies #[trigger] front[i] != '"' by {
            assert(front[i] == text[i]);
        }
        law_code_counts(s, front);
        assert(text[text.len() - 1] != '"');
    }
}

/// A string literal that is not closed yet does not change how many brackets are
/// open: what was open before it still is, and what stands in it does not count.
pub proof fn law_open_literal_counts(a: Seq<char>, b: Seq<char>)
    requires
        forall|i: int| 0 <= i < a.len() ==> #[trigger] a[i] != '"',
        literal_body(b),
    ensures
        balanced(a + seq!['"'] + b) <==> open_count(a) <= close_count(a),
        balanced(a + seq!['"'] + b.push('\\')) <==> open_count(a) <= close_count(a),
{
    let start = Scan { depth: 0, in_string: false, escape: false };
    let s = Scan { depth: open_count(a) - close_count(a), in_string: false, escape: false };
    let inside = Scan { in_string: true, ..s };
    let quote = seq!['"'];
    law_code_counts(start, a);
    lemma_scan_one(s, '"');
    law_scan_concat(start, a, quote);
    lemma_inside_string(inside, b);
    law_scan_concat(start, a + quote, b);
    law_scan_concat(start, a + quote, b.push('\\'));
    assert(b.push('\\') =~= b + seq!['\\']);
    law_scan_concat(inside, b, seq!['\\']);
    lemma_scan_one(inside, '\\');
}

/// A string literal that is closed can be taken out of a text, and the rest is
/// balanced where the whole was.
pub proof fn law_literal_taken_out(a: Seq<char>, b: Seq<char>, c: Seq<char>)
    requires
        !scan(a).in_string,
        !scan(a).escape,
        literal_body(b),
        a.len() + c.len() > 0,
    ensures
        balanced(a + seq!['"'] + b + seq!['"'] + c) <==> balanced(a + c),
{
    let start = Scan { depth: 0, in_string: false, escape: false };
    let literal = seq!['"'] + b + seq!['"'];
    law_string_literal_skipped(scan(a), b);
    law_scan_concat(start, a, c);
    law_scan_concat(start, a, literal);
    law_scan_concat(start, a + literal, c);
    assert(a + seq!['"'] + b + seq!['"'] + c =~= a + literal + c);
}

/// Trimming takes white space off both ends, all of it, and nothing else.
pub proof fn law_trimmed_ends(text: Seq<char>)
    ensures
        exists|i: int, j: int|
            0 <= i <= j <= text.len() && trimmed(text) == #[trigger] text.subrange(i, j) && (
            forall|k: int| 0 <= k < i || j <= k < text.len() ==> is_white_space(#[trigger] text[k])),
        trimmed(text).len() > 0 ==> !is_white_space(trimmed(text)[0]) && !is_white_space(
            trimmed(text).last(),
        ),
{
    let i = lemma_trim_start(text);
    let rest = trim_start(text);
    let n = lemma_trim_end(rest);
    let j = i + n;
    assert(trimmed(text) =~= text.subrange(i, j));
    assert forall|k: int| 0 <= k < i || j <= k < text.len() implies is_white_space(
        #[trigger] text[k],
    ) by {
        if k >= j {
            assert(rest[k - i] == text[k]);
        }
    }
    if trimmed(text).len() > 0 {
        assert(trimmed(text)[0] == rest[0]);
    }
}

proof fn lemma_trim_start(text: Seq<char>) -> (i: int)
    ensures
        0 <= i <= text.len(),
        trim_start(text) == text.subrange(i, text.len() as int),
        forall|k: int| 0 <= k < i ==> is_white_space(#[trigger] text[k]),
        trim_start(text).len() > 0 ==> !is_white_space(trim_start(text)[0]),
    decreases text.len(),
{
    if text.len() > 0 && is_white_space(text[0]) {
        let rest = text.drop_first();
        let i = lemma_trim_start(rest);
        assert(text.subrange(i + 1, text.len() as int) =~= rest.subrange(i, rest.len() as int));
        assert forall|k: int| 0 <= k < i + 1 implies is_white_space(#[trigger] text[k]) by {
            if k > 0 {
                assert(rest[k - 1] == text[k]);
            }
        }
        i + 1
    } else {
        assert(text.subrange(0, text.len() as int) =~= text);
        0
    }
}

proof fn lemma_trim_end(text: Seq<char>) -> (j: int)
    ensures
        0 <= j <= text.len(),
        trim_end(text) == text.subrange(0, j),
        forall|k: int| j <= k < text.len() ==> is_white_space(#[trigger] text[k]),
        trim_end(text).len() > 0 ==> !is_white_space(trim_end(text).last()),
    decreases text.len(),
{
    if text.len() > 0 && is_white_space(text.last()) {
        let front = text.drop_last();
        let j = lemma_trim_end(front);
        assert(text.subrange(0, j) =~= front.subrange(0, j));
        assert forall|k: int| j <= k < text.len() implies is_white_space(#[trigger] text[k]) by {
            if k < front.len() {
                assert(front[k] == text[k]);
            }
        }
        j
    } else {
        assert(text.subrange(0, text.len() as int) =~= text);
        text.len() as int
    }
}

/// The white space characters.
pub proof fn law_white_space_listed(ch: char)
    ensures
        is_white_space(ch) <==> seq![
            0x9u32,
            0xa,
            0xb,
            0xc,
            0xd,
            0x20,
            0x85,
            0xa0,
            0x1680,
            0x2000,
            0x2001,
            0x2002,
            0x2003,
            0x2004,
            0x2005,
            0x2006,
            0x2007,
            0x2008,
            0x2009,
            0x200a,
            0x2028,
            0x2029,
            0x202f,
            0x205f,
            0x3000,
        ].contains(ch as u32),
{
    let all = seq![
        0x9u32,
        0xa,
        0xb,
        0xc,
        0xd,
        0x20,
        0x85,
        0xa0,
        0x1680,
        0x2000,
        0x2001,
        0x2002,
        0x2003,
        0x2004,
        0x2005,
        0x2006,
        0x2007,
        0x2008,
        0x2009,
        0x200a,
        0x2028,
        0x2029,
        0x202f,
        0x205f,
        0x3000,
    ];
    let c = ch as u32;
    if is_white_space(ch) {
        if c <= 0xd {
            assert(all[c - 0x9] == c);
        } else if c == 0x20 {
            assert(all[5] == c);
        } else if c == 0x85 {
            assert(all[6] == c);
        } else if c == 0xa0 {
            assert(all[7] == c);
        } else if c == 0x1680 {
            assert(all[8] == c);
        } else if c <= 0x200a {
            assert(all[c - 0x2000 + 9] == c);
        } else if c == 0x2028 {
            assert(all[20] == c);
        } else if c == 0x2029 {
            assert(all[21] == c);
        } else if c == 0x202f {
            assert(all[22] == c);
        } else if c == 0x205f {
            assert(all[23] == c);
        } else {
            assert(all[24] == c);
        }
    }
}

/// A line is added whole, with a line break behind it.
pub proof fn law_line_added(input: Seq<char>, line: Seq<char>)
    ensures
        with_line(input, line) == (input + line).push('\n'),
{
    assert(with_line(input, line) =~= (input + line).push('\n'));
}

/// A line break at the end of a text changes nothing about its brackets, so an
/// input that is not empty is complete with the line that closes it.
pub proof fn law_line_break_ignored(input: Seq<char>, line: Seq<char>)
    requires
        input.len() + line.len() > 0,
    ensures
        balanced(with_line(input, line)) <==> balanced(input + line),
{
    law_line_added(input, line);
    law_scan_one_more(input + line, '\n');
    law_scan_one_more((input + line).push('\n'), '\n');
}

/// Nothing that is typed is lost. A line leaves the whole input kept, with a line
/// break, or run, or there was nothing but white space; what is run is the input
/// from its first to its last character that is no white space.
pub proof fn law_input_not_lost(
    input: Seq<char>,
    line: Seq<char>,
    after: Seq<char>,
    action: ReplAction,
)
    requires
        takes_line(input, line, after, action),
    ensures
        ({
            let all = (input + line).push('\n');
            ||| after == all && action is Prompt && !balanced(all)
            ||| after.len() == 0 && action is Prompt && balanced(all) && forall|k: int|
                0 <= k < all.len() ==> is_white_space(#[trigger] all[k])
            ||| after.len() == 0 && action is Run && balanced(all) && exists|i: int, j: int|
                0 <= i < j <= all.len() && action->Run_0@ == #[trigger] all.subrange(i, j)
                    && !is_white_space(all[i]) && !is_white_space(all[j - 1]) && forall|k: int|
                    0 <= k < i || j <= k < all.len() ==> is_white_space(#[trigger] all[k])
        }),
{
    let all = with_line(input, line);
    law_line_added(input, line);
    law_trimmed_ends(all);
    let (i, j) = choose|i: int, j: int|
        0 <= i <= j <= all.len() && trimmed(all) == #[trigger] all.subrange(i, j) && (forall|
            k: int,
        |
            0 <= k < i || j <= k < all.len() ==> is_white_space(#[trigger] all[k]));
    if trimmed(all).len() > 0 {
        assert(trimmed(all)[0] == all[i]);
        assert(trimmed(all).last() == all[j - 1]);
    }
}

/// A text over two lines runs as a whole: where the first line leaves a bracket
/// open and the second closes it, nothing runs before the second, and then both
/// do, with the line break between them.
pub proof fn law_two_lines_run_as_one(
    first: Seq<char>,
    second: Seq<char>,
    kept: Seq<char>,
    waits: ReplAction,
    after: Seq<char>,
    action: ReplAction,
)
    requires
        takes_line(Seq::empty(), first, kept, waits),
        takes_line(kept, second, after, action),
        !balanced(first.push('\n')),
        balanced(first.push('\n') + second.push('\n')),
        exists|k: int| 0 <= k < first.len() && !is_white_space(#[trigger] first[k]),
    ensures
        waits is Prompt,
        kept == first.push('\n'),
        action is Run,
        action->Run_0@ == trimmed(first.push('\n') + second.push('\n')),
        after.len() == 0,
{
    law_line_added(Seq::empty(), first);
    assert(Seq::<char>::empty() + first =~= first);
    law_line_added(kept, second);
    let all = first.push('\n') + second.push('\n');
    assert((kept + second).push('\n') =~= all);
    let k = choose|k: int| 0 <= k < first.len() && !is_white_space(#[trigger] first[k]);
    assert(all[k] == first[k]);
    law_input_not_lost(kept, second, after, action);
}

/// A report is its message, or the value as shown, behind the words that tell
/// what it is.
pub proof fn law_reports_printed(shown: String)
    ensures
        Report::Value(shown).printed() == "=> "@ + shown@,
        Report::EvaluationError(shown).printed() == "Evaluation Error: "@ + shown@,
        Report::ParseError(shown).printed() == "Parse error: "@ + shown@,
{
}

} // verus!
