//! Syntax highlighting of generated code, one line at a time: a line is
//! cut into spans, each with the class that decides its colour.
use vstd::prelude::*;

use crate::text::{chars_of, is_whitespace, same_text, trim_start};
use crate::types::str_views;

verus! {

/// What a span of code is, for colouring.
#[derive(Clone, Copy, PartialEq, Eq, Structural, Debug)]
pub enum TokenClass {
    Comment,
    Str,
    Number,
    Keyword,
    Plain,
}

/// A piece of a line with its class.
#[derive(Debug)]
pub struct Span {
    pub text: String,
    pub class: TokenClass,
}

/// Spans as (text, class) pairs.
pub open spec fn span_views(v: Seq<Span>) -> Seq<(Seq<char>, TokenClass)> {
    v.map_values(|s: Span| (s.text@, s.class))
}

/// Whether `char::is_alphanumeric` holds of a character (Unicode
/// Alphabetic or Numeric).
pub uninterp spec fn alphanumeric(c: char) -> bool;

/// `char::is_alphanumeric`: the result is the Unicode property named by
/// `alphanumeric`; nothing more about it is stated here.
#[verifier::external_body]
fn is_alphanumeric(c: char) -> (b: bool)
    ensures
        b == alphanumeric(c),
{
    c.is_alphanumeric()
}

/// Whether a character continues a word.
pub open spec fn word_char(c: char) -> bool {
    alphanumeric(c) || c == '_' || c == '!'
}

/// The class of a word: a number if it starts with an ASCII digit, a
/// keyword if it is one, plain otherwise.
pub open spec fn classify(text: Seq<char>, keywords: Seq<Seq<char>>) -> TokenClass {
    if text.len() > 0 && '0' <= text[0] && text[0] <= '9' {
        TokenClass::Number
    } else if keywords.contains(text) {
        TokenClass::Keyword
    } else {
        TokenClass::Plain
    }
}

/// Whether a line is a comment: after leading whitespace it starts with
/// `//` or `#`.
pub open spec fn comment_line(line: Seq<char>) -> bool {
    let t = trim_start(line);
    (t.len() >= 2 && t[0] == '/' && t[1] == '/') || (t.len() >= 1 && t[0] == '#')
}

/// Scanner state: the finished spans, the pending text, and whether the
/// pending text is an open string literal.
pub struct ScanState {
    pub spans: Seq<(Seq<char>, TokenClass)>,
    pub buf: Seq<char>,
    pub in_string: bool,
}

/// The spans with the pending word (if any) closed.
pub open spec fn flushed(st: ScanState, keywords: Seq<Seq<char>>) -> Seq<(Seq<char>, TokenClass)> {
    if st.buf.len() > 0 {
        st.spans.push((st.buf, classify(st.buf, keywords)))
    } else {
        st.spans
    }
}

/// The scanner after one more character.
pub open spec fn scan_step(st: ScanState, c: char, keywords: Seq<Seq<char>>) -> ScanState {
    if st.in_string {
        let b = st.buf.push(c);
        if c == '"' {
            ScanState { spans: st.spans.push((b, TokenClass::Str)), buf: Seq::empty(), in_string: false }
        } else {
            ScanState { spans: st.spans, buf: b, in_string: true }
        }
    } else if c == '"' {
        ScanState { spans: flushed(st, keywords), buf: seq!['"'], in_string: true }
    } else if word_char(c) {
        ScanState { spans: st.spans, buf: st.buf.push(c), in_string: false }
    } else {
        ScanState {
            spans: flushed(st, keywords).push((seq![c], TokenClass::Plain)),
            buf: Seq::empty(),
            in_string: false,
        }
    }
}

/// The scanner after the characters of `chars`.
pub open spec fn scan(chars: Seq<char>, keywords: Seq<Seq<char>>) -> ScanState
    decreases chars.len(),
{
    if chars.len() == 0 {
        ScanState { spans: Seq::empty(), buf: Seq::empty(), in_string: false }
    } else {
        scan_step(scan(chars.drop_last(), keywords), chars.last(), keywords)
    }
}

/// The spans of a line: the whole line as a comment, or the scanned spans
/// with the pending text closed by its word class.
pub open spec fn line_spans(line: Seq<char>, keywords: Seq<Seq<char>>) -> Seq<(Seq<char>, TokenClass)> {
    if comment_line(line) {
        seq![(line, TokenClass::Comment)]
    } else {
        flushed(scan(line, keywords), keywords)
    }
}

/// The texts of spans, joined.
pub open spec fn joined(spans: Seq<(Seq<char>, TokenClass)>) -> Seq<char>
    decreases spans.len(),
{
    if spans.len() == 0 {
        Seq::empty()
    } else {
        joined(spans.drop_last()) + spans.last().0
    }
}

/// Whether `text` is one of `keywords`.
fn is_keyword(text: &str, keywords: &[&str]) -> (b: bool)
    ensures
        b == str_views(keywords@).contains(text@),
{
    let mut i: usize = 0;
    while i < keywords.len()
        invariant
            i <= keywords@.len(),
            forall|j: int| 0 <= j < i ==> keywords@[j]@ != text@,
        decreases keywords@.len() - i,
    {
        if same_text(keywords[i], text) {
            proof {
                assert(str_views(keywords@)[i as int] == text@);
            }
            return true;
        }
        i = i + 1;
    }
    proof {
        if str_views(keywords@).contains(text@) {
            let j = choose|j: int| 0 <= j < str_views(keywords@).len() && str_views(keywords@)[j] == text@;
            assert(keywords@[j]@ == text@);
        }
    }
    false
}

/// The class of a word.
pub fn classify_token(text: &str, keywords: &[&str]) -> (c: TokenClass)
    ensures
        c == classify(text@, str_views(keywords@)),
{
    let cs = chars_of(text);
    if cs.len() > 0 && '0' <= cs[0] && cs[0] <= '9' {
        TokenClass::Number
    } else if is_keyword(text, keywords) {
        TokenClass::Keyword
    } else {
        TokenClass::Plain
    }
}

/// Whether a line is a comment line.
fn is_comment_line(cs: &Vec<char>) -> (b: bool)
    ensures
        b == comment_line(cs@),
{
    let mut i: usize = 0;
    proof {
        assert(cs@.skip(0) =~= cs@);
    }
    while i < cs.len() && is_whitespace(cs[i])
        invariant
            i <= cs@.len(),
            trim_start(cs@) == trim_start(cs@.skip(i as int)),
        decreases cs@.len() - i,
    {
        proof {
            assert(cs@.skip(i as int).drop_first() =~= cs@.skip(i + 1));
        }
        i = i + 1;
    }
    proof {
        let rest = cs@.skip(i as int);
        assert(trim_start(rest) == rest);
    }
    if i < cs.len() && cs[i] == '#' {
        return true;
    }
    if i < cs.len() && cs[i] == '/' {
        i + 1 < cs.len() && cs[i + 1] == '/'
    } else {
        false
    }
}

/// Closes the pending word into a span.
fn flush(spans: &mut Vec<Span>, buf: &mut Vec<char>, keywords: &[&str])
    ensures
        span_views(final(spans)@) == flushed(
            ScanState { spans: span_views(old(spans)@), buf: old(buf)@, in_string: false },
            str_views(keywords@),
        ),
        final(buf)@ == Seq::<char>::empty(),
{
    if buf.len() > 0 {
        let text = crate::text::string_of(buf);
        let class = classify_token(text.as_str(), keywords);
        let ghost s0 = spans@;
        spans.push(Span { text, class });
        proof {
            assert(span_views(spans@) =~= span_views(s0).push((old(buf)@, class)));
        }
    }
    *buf = Vec::new();
}

/// The spans of one line of code.
pub fn highlight_code_line(line: &str, keywords: &[&str]) -> (r: Vec<Span>)
    ensures
        span_views(r@) == line_spans(line@, str_views(keywords@)),
{
    let cs = chars_of(line);
    let ghost kw = str_views(keywords@);
    let mut spans: Vec<Span> = Vec::new();
    if is_comment_line(&cs) {
        spans.push(Span { text: crate::text::owned(line), class: TokenClass::Comment });
        proof {
            assert(span_views(spans@) =~= seq![(line@, TokenClass::Comment)]);
        }
        return spans;
    }
    let mut buf: Vec<char> = Vec::new();
    let mut in_string = false;
    let mut i: usize = 0;
    proof {
        assert(cs@.take(0) =~= Seq::<char>::empty());
        assert(span_views(spans@) =~= Seq::<(Seq<char>, TokenClass)>::empty());
    }
    while i < cs.len()
        invariant
            i <= cs@.len(),
            kw == str_views(keywords@),
            ({
                let st = scan(cs@.take(i as int), kw);
                &&& span_views(spans@) == st.spans
                &&& buf@ == st.buf
                &&& in_string == st.in_string
            }),
        decreases cs@.len() - i,
    {
        let c = cs[i];
        proof {
            assert(cs@.take(i + 1).drop_last() =~= cs@.take(i as int));
            assert(cs@.take(i + 1).last() == c);
        }
        if in_string {
            buf.push(c);
            if c == '"' {
                let text = crate::text::string_of(&buf);
                let ghost s0 = spans@;
                spans.push(Span { text, class: TokenClass::Str });
                proof {
                    assert(span_views(spans@) =~= span_views(s0).push((buf@, TokenClass::Str)));
                }
                buf = Vec::new();
                in_string = false;
            }
        } else if c == '"' {
            flush(&mut spans, &mut buf, keywords);
            buf.push(c);
            proof {
                assert(buf@ =~= seq!['"']);
            }
            in_string = true;
        } else if is_alphanumeric(c) || c == '_' || c == '!' {
            buf.push(c);
        } else {
            flush(&mut spans, &mut buf, keywords);
            let mut one = String::new();
            crate::text::string_push(&mut one, c);
            let ghost s0 = spans@;
            spans.push(Span { text: one, class: TokenClass::Plain });
            proof {
                assert(one@ =~= seq![c]);
                assert(span_views(spans@) =~= span_views(s0).push((seq![c], TokenClass::Plain)));
            }
        }
        i = i + 1;
    }
    proof {
        assert(cs@.take(cs@.len() as int) =~= cs@);
    }
    let ghost before = span_views(spans@);
    if buf.len() > 0 {
        let text = crate::text::string_of(&buf);
        let class = classify_token(text.as_str(), keywords);
        spans.push(Span { text, class });
        proof {
            assert(span_views(spans@) =~= before.push((buf@, class)));
        }
    }
    spans
}

/// Joining one more span appends its text.
proof fn lemma_joined_push(s: Seq<(Seq<char>, TokenClass)>, x: (Seq<char>, TokenClass))
    ensures
        joined(s.push(x)) == joined(s) + x.0,
{
    assert(s.push(x).drop_last() =~= s);
}

/// The texts of the spans of a scanned prefix, with the pending text,
/// spell the prefix.
proof fn lemma_scan_covers(chars: Seq<char>, keywords: Seq<Seq<char>>)
    ensures
        joined(scan(chars, keywords).spans) + scan(chars, keywords).buf == chars,
    decreases chars.len(),
{
    if chars.len() > 0 {
        let init = chars.drop_last();
        let c = chars.last();
        lemma_scan_covers(init, keywords);
        let st = scan(init, keywords);
        lemma_flushed_covers(st, keywords);
        let f = flushed(st, keywords);
        if st.in_string {
            let b = st.buf.push(c);
            if c == '"' {
                lemma_joined_push(st.spans, (b, TokenClass::Str));
                assert(joined(st.spans) + b + Seq::<char>::empty() =~= joined(st.spans) + b);
            }
            assert(joined(st.spans) + b =~= joined(st.spans) + st.buf + seq![c]);
        } else if c == '"' {
            assert(joined(f) + seq!['"'] =~= joined(st.spans) + st.buf + seq![c]);
        } else if word_char(c) {
            assert(joined(st.spans) + st.buf.push(c) =~= joined(st.spans) + st.buf + seq![c]);
        } else {
            lemma_joined_push(f, (seq![c], TokenClass::Plain));
            assert(joined(f) + seq![c] + Seq::<char>::empty() =~= joined(st.spans) + st.buf + seq![
                c,
            ]);
        }
        assert(init + seq![c] =~= chars);
    } else {
        assert(joined(Seq::<(Seq<char>, TokenClass)>::empty()) + Seq::<char>::empty() =~= chars);
    }
}

/// Closing the pending text keeps the spelled text.
proof fn lemma_flushed_covers(st: ScanState, keywords: Seq<Seq<char>>)
    ensures
        joined(flushed(st, keywords)) == joined(st.spans) + st.buf,
{
    if st.buf.len() > 0 {
        lemma_joined_push(st.spans, (st.buf, classify(st.buf, keywords)));
    } else {
        assert(joined(st.spans) + st.buf =~= joined(st.spans));
    }
}

/// The ten ASCII digits.
pub open spec fn ascii_digits() -> Seq<char> {
    seq!['0', '1', '2', '3', '4', '5', '6', '7', '8', '9']
}

/// A word that starts with one of the ten ASCII digits is a number;
/// every other word is a keyword when the language lists it and plain
/// otherwise.
pub proof fn law_digit_words_are_numbers(text: Seq<char>, keywords: Seq<Seq<char>>)
    ensures
        text.len() > 0 && ascii_digits().contains(text[0]) ==> classify(text, keywords) == TokenClass::Number,
        !(text.len() > 0 && ascii_digits().contains(text[0])) ==> classify(text, keywords) == (if keywords.contains(
            text,
        ) {
            TokenClass::Keyword
        } else {
            TokenClass::Plain
        }),
{
    let d = ascii_digits();
    if text.len() > 0 && d.contains(text[0]) {
        let k = choose|k: int| 0 <= k < d.len() && d[k] == text[0];
        assert(d[0] == '0' && d[1] == '1' && d[2] == '2' && d[3] == '3' && d[4] == '4' && d[5] == '5' && d[6]
            == '6' && d[7] == '7' && d[8] == '8' && d[9] == '9');
    }
    if text.len() > 0 && '0' <= text[0] && text[0] <= '9' {
        let c = text[0];
        let k: int = if c == '0' { 0 } else if c == '1' { 1 } else if c == '2' { 2 } else if c == '3' { 3 } else if c
            == '4' { 4 } else if c == '5' { 5 } else if c == '6' { 6 } else if c == '7' { 7 } else if c == '8' { 8 } else { 9 };
        assert(d[k] == c);
    }
}

/// The spans of a line, joined, spell the line: highlighting loses and
/// adds no character.
pub proof fn law_spans_spell_line(line: Seq<char>, keywords: Seq<Seq<char>>)
    ensures
        joined(line_spans(line, keywords)) == line,
{
    if comment_line(line) {
        lemma_joined_push(Seq::<(Seq<char>, TokenClass)>::empty(), (line, TokenClass::Comment));
        assert(seq![(line, TokenClass::Comment)] =~= Seq::<(Seq<char>, TokenClass)>::empty().push(
            (line, TokenClass::Comment),
        ));
        assert(Seq::<char>::empty() + line =~= line);
    } else {
        lemma_scan_covers(line, keywords);
        lemma_flushed_covers(scan(line, keywords), keywords);
    }
}

} // verus!
