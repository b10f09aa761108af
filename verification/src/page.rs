//! The readable text of a fetched page.

use vstd::prelude::*;

use crate::text::{
    chars_of, is_white_space, join, joined, law_joined, law_replaced_sides, lemma_joined_first,
    push_range, replace, replaced, text_of, texts, white_space,
};

verus! {

/// A script or style element, with what stands in it.
pub const SCRIPT_PATTERN: &'static str = "(?is)<(script|style)[^>]*>.*?</(script|style)>";

/// A tag that starts or ends a block.
pub const BLOCK_PATTERN: &'static str = "(?i)</?(p|div|h[1-6]|li|br|article|section)[^>]*>";

/// Any tag.
pub const TAG_PATTERN: &'static str = "(?s)<[^>]+>";

/// Whether `regex_lite::Regex::new` accepts `pattern`.
pub uninterp spec fn regex_compiles(pattern: Seq<char>) -> bool;

/// What `regex_lite::Regex::replace_all` makes of `haystack` with the regex
/// for `pattern` and the replacement `rep`.
pub uninterp spec fn regex_replaced(
    pattern: Seq<char>,
    haystack: Seq<char>,
    rep: Seq<char>,
) -> Seq<char>;

/// Calls `regex_lite::Regex::new`. That the pattern compiles depends on its
/// text alone; which patterns do is not said here.
#[verifier::external_body]
fn compiles(pattern: &str) -> (b: bool)
    ensures
        b == regex_compiles(pattern@),
{
    regex_lite::Regex::new(pattern).is_ok()
}

/// Calls `regex_lite::Regex::replace_all` on the regex for `pattern`, which has
/// to compile. The result depends on the pattern, the haystack and the
/// replacement alone; which parts match is not said here.
#[verifier::external_body]
fn replace_matches(pattern: &str, haystack: &str, rep: &str) -> (out: String)
    requires
        regex_compiles(pattern@),
    ensures
        out@ == regex_replaced(pattern@, haystack@, rep@),
{
    regex_lite::Regex::new(pattern).unwrap().replace_all(haystack, rep).into_owned()
}

/// How many characters stand before the first white space of `s`.
pub open spec fn word_len(s: Seq<char>) -> nat
    decreases s.len(),
{
    if s.len() == 0 || white_space(s[0]) {
        0
    } else {
        1 + word_len(s.skip(1))
    }
}

/// The words of `s`: its longest parts without white space.
pub open spec fn words(s: Seq<char>) -> Seq<Seq<char>>
    decreases s.len(),
{
    if s.len() == 0 {
        Seq::empty()
    } else if white_space(s[0]) {
        words(s.skip(1))
    } else {
        proof {
            lemma_word_len(s);
        }
        seq![s.take(word_len(s) as int)] + words(s.skip(word_len(s) as int))
    }
}

/// `s` with its words set one space apart and no other white space.
pub open spec fn collapsed(s: Seq<char>) -> Seq<char> {
    joined(words(s), seq![' '])
}

/// How many characters stand before the first line feed of `s`.
pub open spec fn line_len(s: Seq<char>) -> nat
    decreases s.len(),
{
    if s.len() == 0 || s[0] == '\n' {
        0
    } else {
        1 + line_len(s.skip(1))
    }
}

/// The first line of `s`, without the line feed, or the carriage return and
/// line feed, that ends it.
pub open spec fn first_line(s: Seq<char>) -> Seq<char> {
    let line = s.take(line_len(s) as int);
    if line_len(s) < s.len() && line.len() > 0 && line.last() == '\r' {
        line.drop_last()
    } else {
        line
    }
}

/// The lines of `s`, collapsed, without those that are then empty.
pub open spec fn readable_lines(s: Seq<char>) -> Seq<Seq<char>>
    decreases s.len(),
{
    if s.len() == 0 {
        Seq::empty()
    } else {
        let line = collapsed(first_line(s));
        let rest = if line_len(s) < s.len() {
            readable_lines(s.skip(line_len(s) as int + 1))
        } else {
            Seq::empty()
        };
        if line.len() == 0 {
            rest
        } else {
            seq![line] + rest
        }
    }
}

/// `s` with the character references that the page reader knows decoded, one
/// kind after the other.
pub open spec fn decoded(s: Seq<char>) -> Seq<char> {
    let s = replaced(s, "&nbsp;"@, " "@);
    let s = replaced(s, "&amp;"@, "&"@);
    let s = replaced(s, "&lt;"@, "<"@);
    let s = replaced(s, "&gt;"@, ">"@);
    let s = replaced(s, "&quot;"@, "\""@);
    replaced(s, "&#39;"@, "'"@)
}

/// The readable text of a page whose tags are gone.
pub open spec fn readable_text(s: Seq<char>) -> Seq<char> {
    joined(readable_lines(decoded(s)), "\n"@)
}

/// `html` without scripts and tags: a block's tag leaves a line break, any
/// other a space.
pub open spec fn without_tags(html: Seq<char>) -> Seq<char> {
    let s = regex_replaced(SCRIPT_PATTERN@, html, " "@);
    let s = regex_replaced(BLOCK_PATTERN@, s, "\n"@);
    regex_replaced(TAG_PATTERN@, s, " "@)
}

/// The readable text of `html`.
pub open spec fn page_text(html: Seq<char>) -> Seq<char> {
    if regex_compiles(SCRIPT_PATTERN@) && regex_compiles(BLOCK_PATTERN@) && regex_compiles(
        TAG_PATTERN@,
    ) {
        readable_text(without_tags(html))
    } else {
        html
    }
}

/// A word ends at the end of the text or before white space.
pub proof fn lemma_word_len(s: Seq<char>)
    ensures
        word_len(s) <= s.len(),
        forall|i: int| 0 <= i < word_len(s) ==> !white_space(#[trigger] s[i]),
        word_len(s) < s.len() ==> white_space(s[word_len(s) as int]),
    decreases s.len(),
{
    if s.len() > 0 && !white_space(s[0]) {
        let rest = s.skip(1);
        lemma_word_len(rest);
        assert forall|i: int| 0 <= i < word_len(s) implies !white_space(#[trigger] s[i]) by {
            if i > 0 {
                assert(s[i] == rest[i - 1]);
            }
        }
    }
}

/// The words of `line`, as texts.
fn split_words(line: &[char]) -> (parts: Vec<String>)
    ensures
        texts(parts@) == words(line@),
{
    let n: usize = line.len();
    let mut parts: Vec<String> = Vec::new();
    let mut i: usize = 0;
    assert(line@.skip(0) == line@);
    while i < n
        invariant
            n == line@.len(),
            i <= n,
            texts(parts@) + words(line@.skip(i as int)) == words(line@),
        decreases n - i,
    {
        let ghost rest = line@.skip(i as int);
        if is_white_space(line[i]) {
            assert(rest.skip(1) == line@.skip(i + 1));
            i = i + 1;
        } else {
            let mut end: usize = i;
            proof {
                lemma_word_len(rest);
            }
            while end < n && !is_white_space(line[end])
                invariant
                    n == line@.len(),
                    i <= end <= n,
                    word_len(line@.skip(i as int)) == end - i + word_len(line@.skip(end as int)),
                decreases n - end,
            {
                assert(line@.skip(end as int).skip(1) == line@.skip(end + 1));
                end = end + 1;
            }
            let mut word: Vec<char> = Vec::new();
            push_range(&mut word, line, i, end);
            let ghost before = texts(parts@);
            parts.push(text_of(word.as_slice()));
            proof {
                assert(word_len(rest) == end - i);
                assert(rest.take(end - i) == word@);
                assert(rest.skip(end - i) == line@.skip(end as int));
                assert(texts(parts@) == before.push(word@));
                assert(before.push(word@) + words(line@.skip(end as int)) == before + (seq![word@]
                    + words(line@.skip(end as int))));
            }
            i = end;
        }
    }
    assert(words(line@.skip(n as int)) == Seq::<Seq<char>>::empty());
    parts
}

/// The lines of `s`, collapsed, without those that are then empty.
fn split_lines(s: &Vec<char>) -> (lines: Vec<String>)
    ensures
        texts(lines@) == readable_lines(s@),
{
    let n: usize = s.len();
    let mut lines: Vec<String> = Vec::new();
    let mut i: usize = 0;
    assert(s@.skip(0) == s@);
    while i < n
        invariant
            n == s@.len(),
            i <= n,
            texts(lines@) + readable_lines(s@.skip(i as int)) == readable_lines(s@),
        decreases n - i,
    {
        let ghost rest = s@.skip(i as int);
        let mut feed: usize = i;
        while feed < n && s[feed] != '\n'
            invariant
                n == s@.len(),
                i <= feed <= n,
                line_len(s@.skip(i as int)) == feed - i + line_len(s@.skip(feed as int)),
            decreases n - feed,
        {
            assert(s@.skip(feed as int).skip(1) == s@.skip(feed + 1));
            feed = feed + 1;
        }
        let mut end: usize = feed;
        if feed < n && feed > i && s[feed - 1] == '\r' {
            end = feed - 1;
        }
        let mut line: Vec<char> = Vec::new();
        push_range(&mut line, s.as_slice(), i, end);
        proof {
            assert(line_len(rest) == feed - i);
            assert(rest.take(feed - i) == s@.subrange(i as int, feed as int));
            assert(line@ == first_line(rest));
        }
        let parts = split_words(line.as_slice());
        let space = " ";
        proof {
            reveal_strlit(" ");
            assert(space@ == seq![' ']);
        }
        let readable = join(&parts, space);
        let ghost before = texts(lines@);
        let ghost after = if feed < n {
            readable_lines(s@.skip(feed + 1))
        } else {
            Seq::empty()
        };
        proof {
            if feed < n {
                assert(rest.skip(feed - i + 1) == s@.skip(feed + 1));
            }
        }
        if !readable.as_str().is_empty() {
            let ghost text = readable@;
            lines.push(readable);
            proof {
                assert(texts(lines@) == before.push(text));
                assert(before.push(text) + after == before + (seq![text] + after));
            }
        }
        if feed < n {
            i = feed + 1;
        } else {
            i = n;
        }
    }
    assert(readable_lines(s@.skip(n as int)) == Seq::<Seq<char>>::empty());
    lines
}

/// Decodes character references and sets the text out in readable lines.
pub fn readable(tagless: &str) -> (out: String)
    ensures
        out@ == readable_text(tagless@),
{
    proof {
        reveal_strlit("&nbsp;");
        reveal_strlit("&amp;");
        reveal_strlit("&lt;");
        reveal_strlit("&gt;");
        reveal_strlit("&quot;");
        reveal_strlit("&#39;");
    }
    let s = chars_of(tagless);
    let s = replace(&s, "&nbsp;", " ");
    let s = replace(&s, "&amp;", "&");
    let s = replace(&s, "&lt;", "<");
    let s = replace(&s, "&gt;", ">");
    let s = replace(&s, "&quot;", "\"");
    let s = replace(&s, "&#39;", "'");
    join(&split_lines(&s), "\n")
}

/// The main text of a page: scripts, styles and tags go, blocks become lines,
/// character references are decoded, and white space is collapsed.
pub fn extract_page_text(html: &str) -> (out: String)
    ensures
        out@ == page_text(html@),
{
    if !compiles(SCRIPT_PATTERN) {
        return html.to_string();
    }
    if !compiles(BLOCK_PATTERN) {
        return html.to_string();
    }
    if !compiles(TAG_PATTERN) {
        return html.to_string();
    }
    let without_scripts = replace_matches(SCRIPT_PATTERN, html, " ");
    let with_breaks = replace_matches(BLOCK_PATTERN, without_scripts.as_str(), "\n");
    let tagless = replace_matches(TAG_PATTERN, with_breaks.as_str(), " ");
    readable(tagless.as_str())
}

/// Whether `w` can stand between two spaces: it is not empty and has no white space.
pub open spec fn is_word(w: Seq<char>) -> bool {
    w.len() > 0 && forall|i: int| 0 <= i < w.len() ==> !white_space(#[trigger] w[i])
}

proof fn lemma_words(s: Seq<char>)
    ensures
        forall|i: int| 0 <= i < words(s).len() ==> is_word(#[trigger] words(s)[i]),
    decreases s.len(),
{
    if s.len() > 0 {
        if white_space(s[0]) {
            lemma_words(s.skip(1));
            assert(words(s) == words(s.skip(1)));
        } else {
            lemma_word_len(s);
            let n = word_len(s) as int;
            let rest = words(s.skip(n));
            lemma_words(s.skip(n));
            assert forall|i: int| 0 <= i < words(s).len() implies is_word(
                #[trigger] words(s)[i],
            ) by {
                if i > 0 {
                    assert(words(s)[i] == rest[i - 1]);
                }
            }
        }
    }
}

/// A word before white space or the end is taken off whole.
proof fn lemma_first_word(w: Seq<char>, rest: Seq<char>)
    requires
        is_word(w),
        rest.len() > 0 ==> white_space(rest[0]),
    ensures
        word_len(w + rest) == w.len(),
        words(w + rest) == seq![w] + words(rest),
    decreases w.len(),
{
    let s = w + rest;
    lemma_word_len_of(w, rest);
    assert(s.take(w.len() as int) == w);
    assert(s.skip(w.len() as int) == rest);
    assert(s[0] == w[0]);
}

proof fn lemma_word_len_of(w: Seq<char>, rest: Seq<char>)
    requires
        forall|i: int| 0 <= i < w.len() ==> !white_space(#[trigger] w[i]),
        rest.len() > 0 ==> white_space(rest[0]),
    ensures
        word_len(w + rest) == w.len(),
    decreases w.len(),
{
    let s = w + rest;
    if w.len() == 0 {
        assert(s == rest);
    } else {
        assert(s[0] == w[0]);
        assert(s.skip(1) == w.skip(1) + rest);
        lemma_word_len_of(w.skip(1), rest);
    }
}

/// Words set one space apart are found again.
proof fn lemma_words_of_joined(ws: Seq<Seq<char>>)
    requires
        forall|i: int| 0 <= i < ws.len() ==> is_word(#[trigger] ws[i]),
    ensures
        words(joined(ws, seq![' '])) == ws,
    decreases ws.len(),
{
    let sep = seq![' '];
    if ws.len() == 0 {
        assert(words(joined(ws, sep)) == ws);
    } else if ws.len() == 1 {
        let none = Seq::<char>::empty();
        lemma_first_word(ws[0], none);
        assert(ws[0] + none == ws[0]);
        assert(seq![ws[0]] + words(none) == ws);
    } else {
        let tail = ws.drop_first();
        lemma_joined_first(ws, sep);
        lemma_words_of_joined(tail);
        let rest = sep + joined(tail, sep);
        lemma_first_word(ws[0], rest);
        assert(rest.skip(1) == joined(tail, sep));
        assert(words(rest) == tail);
        assert(seq![ws[0]] + tail == ws);
    }
}

/// Whether `line` is fit to stand in a readable text: its words are one space
/// apart, and it has no other white space.
pub open spec fn is_readable(line: Seq<char>) -> bool {
    &&& line.len() > 0
    &&& !white_space(line.first())
    &&& !white_space(line.last())
    &&& forall|i: int|
        0 <= i < line.len() && white_space(#[trigger] line[i]) ==> line[i] == ' '
            && !white_space(line[i + 1])
}

proof fn lemma_joined_words(ws: Seq<Seq<char>>)
    requires
        ws.len() > 0,
        forall|i: int| 0 <= i < ws.len() ==> is_word(#[trigger] ws[i]),
    ensures
        is_readable(joined(ws, seq![' '])),
    decreases ws.len(),
{
    let sep = seq![' '];
    if ws.len() > 1 {
        let init = ws.drop_last();
        lemma_joined_words(init);
        let head = joined(init, sep);
        let last = ws.last();
        let line = joined(ws, sep);
        assert(is_word(ws[ws.len() - 1]));
        assert(line.first() == head.first());
        assert(line.last() == last.last());
        assert forall|i: int|
            0 <= i < line.len() && white_space(#[trigger] line[i]) implies line[i] == ' '
            && !white_space(line[i + 1]) by {
            if i < head.len() {
                assert(line[i] == head[i]);
                assert(i + 1 < head.len());
                assert(line[i + 1] == head[i + 1]);
            } else if i > head.len() {
                assert(line[i] == last[i - head.len() - 1]);
            } else {
                assert(line[i + 1] == last[0]);
            }
        }
    } else {
        assert(is_word(ws[0]));
    }
}

proof fn lemma_collapsed(s: Seq<char>)
    ensures
        collapsed(collapsed(s)) == collapsed(s),
        collapsed(s).len() > 0 ==> is_readable(collapsed(s)),
{
    lemma_words(s);
    lemma_words_of_joined(words(s));
    if words(s).len() > 0 {
        lemma_joined_words(words(s));
    }
}

/// Every line of a readable text has its words one space apart and no other white
/// space; in particular none is empty.
pub proof fn law_lines_are_readable(s: Seq<char>)
    ensures
        forall|i: int|
            0 <= i < readable_lines(s).len() ==> is_readable(#[trigger] readable_lines(s)[i]),
        forall|i: int|
            0 <= i < readable_lines(s).len() ==> collapsed(#[trigger] readable_lines(s)[i])
                == readable_lines(s)[i],
    decreases s.len(),
{
    if s.len() > 0 {
        let line = collapsed(first_line(s));
        lemma_collapsed(first_line(s));
        let after = s.skip(line_len(s) as int + 1);
        let rest = if line_len(s) < s.len() {
            readable_lines(after)
        } else {
            Seq::empty()
        };
        if line_len(s) < s.len() {
            law_lines_are_readable(after);
        }
        let lines = readable_lines(s);
        if line.len() > 0 {
            assert forall|i: int| 0 <= i < lines.len() implies is_readable(#[trigger] lines[i])
                && collapsed(lines[i]) == lines[i] by {
                if i > 0 {
                    assert(lines[i] == rest[i - 1]);
                }
            }
        }
    }
}

proof fn lemma_line_len_of(line: Seq<char>, rest: Seq<char>)
    requires
        forall|i: int| 0 <= i < line.len() ==> #[trigger] line[i] != '\n',
        rest.len() > 0 ==> rest[0] == '\n',
    ensures
        line_len(line + rest) == line.len(),
    decreases line.len(),
{
    let s = line + rest;
    if line.len() == 0 {
        assert(s == rest);
    } else {
        assert(s[0] == line[0]);
        assert(s.skip(1) == line.skip(1) + rest);
        lemma_line_len_of(line.skip(1), rest);
    }
}

/// Lines that are readable are found again.
proof fn lemma_lines_of_joined(lines: Seq<Seq<char>>)
    requires
        forall|i: int|
            0 <= i < lines.len() ==> is_readable(#[trigger] lines[i]) && collapsed(lines[i])
                == lines[i],
    ensures
        readable_lines(joined(lines, seq!['\n'])) == lines,
    decreases lines.len(),
{
    let sep = seq!['\n'];
    if lines.len() == 0 {
        assert(readable_lines(joined(lines, sep)) == lines);
    } else {
        let line = lines[0];
        let tail = lines.drop_first();
        let rest = if lines.len() == 1 {
            Seq::<char>::empty()
        } else {
            sep + joined(tail, sep)
        };
        let s = joined(lines, sep);
        if lines.len() == 1 {
            assert(s == line + rest);
        } else {
            lemma_joined_first(lines, sep);
        }
        lemma_line_len_of(line, rest);
        assert(s.take(line.len() as int) == line);
        assert(first_line(s) == line);
        if lines.len() == 1 {
            assert(readable_lines(s) == seq![line] + Seq::<Seq<char>>::empty());
        } else {
            assert(s.skip(line.len() as int + 1) == joined(tail, sep));
            lemma_lines_of_joined(tail);
        }
        assert(seq![line] + tail == lines);
        assert(readable_lines(s) == lines);
    }
}

/// A text set out in readable lines is set out already: doing it again changes
/// nothing.
pub proof fn law_readable_lines_are_stable(s: Seq<char>)
    ensures
        joined(readable_lines(joined(readable_lines(s), "\n"@)), "\n"@) == joined(
            readable_lines(s),
            "\n"@,
        ),
{
    reveal_strlit("\n");
    assert("\n"@ == seq!['\n']);
    law_lines_are_readable(s);
    lemma_lines_of_joined(readable_lines(s));
}

proof fn lemma_words_parts(a: Seq<char>, b: Seq<char>)
    requires
        a.len() > 0 && b.len() > 0 ==> white_space(a.last()) || white_space(b[0]),
    ensures
        words(a + b) == words(a) + words(b),
    decreases a.len(),
{
    let s = a + b;
    if a.len() == 0 {
        assert(s == b);
        assert(words(a) + words(b) == words(b));
    } else if b.len() == 0 {
        assert(s == a);
        assert(words(a) + words(b) == words(a));
    } else if white_space(a[0]) {
        assert(s.skip(1) == a.skip(1) + b);
        lemma_words_parts(a.skip(1), b);
    } else {
        lemma_word_len(a);
        let n = word_len(a) as int;
        let word = a.take(n);
        let rest = a.skip(n);
        assert(s == word + (rest + b));
        assert(a == word + rest);
        assert forall|i: int| 0 <= i < word.len() implies !white_space(#[trigger] word[i]) by {
            assert(word[i] == a[i]);
        }
        if n < a.len() {
            assert((rest + b)[0] == a[n]);
        } else {
            assert(!white_space(a[n - 1]));
            assert(rest + b == b);
        }
        lemma_first_word(word, rest + b);
        lemma_words_parts(rest, b);
        assert(seq![word] + (words(rest) + words(b)) == (seq![word] + words(rest)) + words(b));
    }
}

/// White space alone has no words.
pub proof fn law_white_space_has_no_words(s: Seq<char>)
    requires
        forall|i: int| 0 <= i < s.len() ==> white_space(#[trigger] s[i]),
    ensures
        words(s) == Seq::<Seq<char>>::empty(),
    decreases s.len(),
{
    if s.len() > 0 {
        law_white_space_has_no_words(s.skip(1));
    }
}

/// What stands in a text without white space in it, and with white space or an end
/// of the text on each side, is one of its words, after those before it and before
/// those after it.
pub proof fn law_words(before: Seq<char>, word: Seq<char>, after: Seq<char>)
    requires
        word.len() > 0,
        forall|i: int| 0 <= i < word.len() ==> !white_space(#[trigger] word[i]),
        before.len() > 0 ==> white_space(before.last()),
        after.len() > 0 ==> white_space(after.first()),
    ensures
        words(before + word + after) == words(before) + seq![word] + words(after),
{
    assert(before + word + after == before + (word + after));
    lemma_words_parts(before, word + after);
    lemma_first_word(word, after);
    assert(words(before) + (seq![word] + words(after)) == words(before) + seq![word] + words(
        after,
    ));
}

proof fn lemma_line_len(s: Seq<char>)
    ensures
        line_len(s) <= s.len(),
        forall|i: int| 0 <= i < line_len(s) ==> #[trigger] s[i] != '\n',
        line_len(s) < s.len() ==> s[line_len(s) as int] == '\n',
    decreases s.len(),
{
    if s.len() > 0 && s[0] != '\n' {
        let rest = s.skip(1);
        lemma_line_len(rest);
        assert forall|i: int| 0 <= i < line_len(s) implies #[trigger] s[i] != '\n' by {
            if i > 0 {
                assert(s[i] == rest[i - 1]);
            }
        }
    }
}

proof fn lemma_collapsed_is_empty(s: Seq<char>)
    ensures
        collapsed(s).len() == 0 <==> words(s).len() == 0,
{
    lemma_words(s);
    if words(s).len() > 0 {
        lemma_joined_words(words(s));
    }
}

/// A text without a line feed is one line, with its words one space apart, or none
/// where it has no words.
pub proof fn law_single_line(s: Seq<char>)
    requires
        !s.contains('\n'),
    ensures
        words(s).len() == 0 ==> readable_lines(s) == Seq::<Seq<char>>::empty(),
        words(s).len() > 0 ==> readable_lines(s) == seq![joined(words(s), seq![' '])],
{
    lemma_line_len(s);
    if line_len(s) < s.len() {
        assert(s.contains(s[line_len(s) as int]));
    }
    assert(s.take(s.len() as int) == s);
    lemma_collapsed_is_empty(s);
    if s.len() > 0 && words(s).len() > 0 {
        assert(readable_lines(s) == seq![collapsed(s)] + Seq::<Seq<char>>::empty());
        assert(readable_lines(s) == seq![collapsed(s)]);
    }
}

/// A line feed divides a text: the lines are those of what stands before it, and
/// then those of what comes after it.
pub proof fn law_line_feed(a: Seq<char>, b: Seq<char>)
    ensures
        readable_lines(a + seq!['\n'] + b) == readable_lines(a) + readable_lines(b),
    decreases a.len(),
{
    let s = a + seq!['\n'] + b;
    lemma_line_len(a);
    let n = line_len(a) as int;
    let line = a.take(n);
    if n < a.len() {
        let after = a.skip(n + 1);
        assert(a == line + a.skip(n));
        assert(s == line + (a.skip(n) + seq!['\n'] + b));
        assert((a.skip(n) + seq!['\n'] + b)[0] == '\n');
        lemma_line_len_of(line, a.skip(n) + seq!['\n'] + b);
        assert(s.take(n) == line);
        assert(first_line(s) == first_line(a));
        assert(s.skip(n + 1) == after + seq!['\n'] + b);
        law_line_feed(after, b);
        let first = collapsed(first_line(a));
        assert(seq![first] + (readable_lines(after) + readable_lines(b)) == (seq![first]
            + readable_lines(after)) + readable_lines(b));
    } else {
        assert(a.take(n) == a);
        assert(s == a + (seq!['\n'] + b));
        lemma_line_len_of(a, seq!['\n'] + b);
        assert(s.take(n) == a);
        assert(s.skip(n + 1) == b);
        if a.len() > 0 && a.last() == '\r' {
            let init = a.drop_last();
            lemma_words_parts(init, seq!['\r']);
            law_white_space_has_no_words(seq!['\r']);
            assert(init + seq!['\r'] == a);
            assert(words(init) == words(a));
        }
        assert(collapsed(first_line(s)) == collapsed(a));
        if a.len() == 0 {
            assert(collapsed(a).len() == 0);
            assert(readable_lines(a) + readable_lines(b) == readable_lines(b));
        } else {
            assert(first_line(a) == a);
            assert(readable_lines(s) == readable_lines(a) + readable_lines(b));
        }
    }
}

/// The character references that are decoded, in turn, without the ampersand.
spec fn reference(k: int) -> Seq<char> {
    if k == 0 {
        "nbsp;"@
    } else if k == 1 {
        "amp;"@
    } else if k == 2 {
        "lt;"@
    } else if k == 3 {
        "gt;"@
    } else if k == 4 {
        "quot;"@
    } else {
        "#39;"@
    }
}

/// What these references stand for.
spec fn referent(k: int) -> char {
    if k == 0 {
        ' '
    } else if k == 1 {
        '&'
    } else if k == 2 {
        '<'
    } else if k == 3 {
        '>'
    } else if k == 4 {
        '"'
    } else {
        '\''
    }
}

/// `s` with these references decoded from reference `k` on.
spec fn decoded_from(k: int, s: Seq<char>) -> Seq<char>
    decreases 6 - k,
{
    if k >= 6 {
        s
    } else {
        decoded_from(k + 1, replaced(s, seq!['&'] + reference(k), seq![referent(k)]))
    }
}

proof fn lemma_references()
    ensures
        forall|k: int|
            #![trigger reference(k)]
            0 <= k < 6 ==> reference(k).len() > 0 && !reference(k).contains('&'),
        forall|k: int, j: int|
            #![trigger reference(k), referent(j)]
            0 <= k < 6 && 0 <= j < 6 ==> !reference(k).contains(referent(j)),
        forall|k: int, j: int|
            #![trigger reference(k), reference(j)]
            0 <= k < 6 && 0 <= j < 6 && k != j ==> reference(k)[0] != reference(j)[0],
        forall|s: Seq<char>| #[trigger] decoded(s) == decoded_from(0, s),
        "&nbsp;"@ == seq!['&'] + reference(0),
        "&amp;"@ == seq!['&'] + reference(1),
        "&lt;"@ == seq!['&'] + reference(2),
        "&gt;"@ == seq!['&'] + reference(3),
        "&quot;"@ == seq!['&'] + reference(4),
        "&#39;"@ == seq!['&'] + reference(5),
        " "@ == seq![referent(0)],
        "&"@ == seq![referent(1)],
        "<"@ == seq![referent(2)],
        ">"@ == seq![referent(3)],
        "\""@ == seq![referent(4)],
        "'"@ == seq![referent(5)],
{
    reveal_strlit("&nbsp;");
    reveal_strlit("&amp;");
    reveal_strlit("&lt;");
    reveal_strlit("&gt;");
    reveal_strlit("&quot;");
    reveal_strlit("&#39;");
    reveal_strlit("nbsp;");
    reveal_strlit("amp;");
    reveal_strlit("lt;");
    reveal_strlit("gt;");
    reveal_strlit("quot;");
    reveal_strlit("#39;");
    reveal_strlit(" ");
    reveal_strlit("&");
    reveal_strlit("<");
    reveal_strlit(">");
    reveal_strlit("\"");
    reveal_strlit("'");
    assert("&nbsp;"@ == seq!['&'] + reference(0));
    assert("&amp;"@ == seq!['&'] + reference(1));
    assert("&lt;"@ == seq!['&'] + reference(2));
    assert("&gt;"@ == seq!['&'] + reference(3));
    assert("&quot;"@ == seq!['&'] + reference(4));
    assert("&#39;"@ == seq!['&'] + reference(5));
    assert(" "@ == seq![referent(0)]);
    assert("&"@ == seq![referent(1)]);
    assert("<"@ == seq![referent(2)]);
    assert(">"@ == seq![referent(3)]);
    assert("\""@ == seq![referent(4)]);
    assert("'"@ == seq![referent(5)]);
    assert forall|s: Seq<char>| #[trigger] decoded(s) == decoded_from(0, s) by {
        reveal_with_fuel(decoded_from, 7);
    }
}

proof fn lemma_replaced_keeps(c: char, b: Seq<char>, from: Seq<char>, to: Seq<char>)
    requires
        from.len() > 0,
        !from.is_prefix_of(seq![c] + b),
    ensures
        replaced(seq![c] + b, from, to) == seq![c] + replaced(b, from, to),
{
    let s = seq![c] + b;
    assert(s.skip(1) == b);
    if s.len() >= from.len() {
        assert(s.take(from.len() as int) == s.subrange(0, from.len() as int));
    }
}

proof fn lemma_replaced_keeps_all(a: Seq<char>, b: Seq<char>, from: Seq<char>, to: Seq<char>)
    requires
        from.len() > 0,
        !a.contains(from[0]),
    ensures
        replaced(a + b, from, to) == a + replaced(b, from, to),
    decreases a.len(),
{
    if a.len() == 0 {
        assert(a + b == b);
        assert(a + replaced(b, from, to) == replaced(b, from, to));
    } else {
        let rest = a.skip(1);
        assert(a.contains(a[0]));
        assert(!rest.contains(from[0])) by {
            if rest.contains(from[0]) {
                let i = choose|i: int| 0 <= i < rest.len() && rest[i] == from[0];
                assert(a[i + 1] == from[0]);
            }
        }
        lemma_replaced_keeps_all(rest, b, from, to);
        let s = seq![a[0]] + (rest + b);
        assert(a + b == s);
        if from.is_prefix_of(s) {
            assert(from[0] == s.subrange(0, from.len() as int)[0]);
        }
        lemma_replaced_keeps(a[0], rest + b, from, to);
        assert(seq![a[0]] + (rest + replaced(b, from, to)) == a + replaced(b, from, to));
    }
}

/// Which texts without the characters at work a result starts with can be seen
/// before the exchange.
proof fn lemma_replaced_start(w: Seq<char>, b: Seq<char>, from: Seq<char>, to: char)
    requires
        from.len() > 0,
        !w.contains(from[0]),
        !w.contains(to),
    ensures
        w.is_prefix_of(replaced(b, from, seq![to])) <==> w.is_prefix_of(b),
    decreases w.len(),
{
    let out = replaced(b, from, seq![to]);
    if w.len() == 0 {
        assert(w == out.subrange(0, 0));
        assert(w == b.subrange(0, 0));
    } else if b.len() < from.len() {
    } else if from == b.take(from.len() as int) {
        assert(w.contains(w[0]));
        assert(b[0] == from[0]);
        assert(out[0] == to);
        if w.is_prefix_of(b) {
            assert(w[0] == b.subrange(0, w.len() as int)[0]);
        }
        if w.is_prefix_of(out) {
            assert(w[0] == out.subrange(0, w.len() as int)[0]);
        }
    } else {
        let v = w.skip(1);
        let c = b.skip(1);
        assert forall|x: char| !w.contains(x) implies !v.contains(x) by {
            if v.contains(x) {
                let i = choose|i: int| 0 <= i < v.len() && v[i] == x;
                assert(w[i + 1] == x);
            }
        }
        lemma_replaced_start(v, c, from, to);
        let rest = replaced(c, from, seq![to]);
        assert(out == seq![b[0]] + rest);
        lemma_prefix_step(w, b[0], c);
        lemma_prefix_step(w, b[0], rest);
        assert(seq![b[0]] + c == b);
    }
}

proof fn lemma_prefix_step(w: Seq<char>, c: char, s: Seq<char>)
    requires
        w.len() > 0,
    ensures
        w.is_prefix_of(seq![c] + s) <==> w[0] == c && w.skip(1).is_prefix_of(s),
{
    let t = seq![c] + s;
    let n = w.len() as int;
    if w.is_prefix_of(t) {
        assert(w == t.subrange(0, n));
        assert(w[0] == t[0]);
        assert(w.skip(1) == s.subrange(0, n - 1));
    }
    if w[0] == c && w.skip(1).is_prefix_of(s) {
        assert(w.skip(1) == s.subrange(0, n - 1));
        assert(w == seq![w[0]] + w.skip(1));
        assert(w == t.subrange(0, n));
    }
}

proof fn lemma_decoded_plain(k: int, c: char, b: Seq<char>)
    requires
        0 <= k <= 6,
        c != '&',
    ensures
        decoded_from(k, seq![c] + b) == seq![c] + decoded_from(k, b),
    decreases 6 - k,
{
    if k < 6 {
        let from = seq!['&'] + reference(k);
        let to = seq![referent(k)];
        lemma_replaced_keeps_all(seq![c], b, from, to);
        lemma_decoded_plain(k + 1, c, replaced(b, from, to));
    }
}

proof fn lemma_decoded_other(k: int, b: Seq<char>)
    requires
        0 <= k <= 6,
        forall|j: int| k <= j < 6 ==> !(#[trigger] reference(j)).is_prefix_of(b),
    ensures
        decoded_from(k, seq!['&'] + b) == seq!['&'] + decoded_from(k, b),
    decreases 6 - k,
{
    if k < 6 {
        lemma_references();
        let name = reference(k);
        let from = seq!['&'] + name;
        let to = seq![referent(k)];
        let next = replaced(b, from, to);
        lemma_prefix_step(from, '&', b);
        assert(from.skip(1) == name);
        lemma_replaced_keeps('&', b, from, to);
        assert forall|j: int| k + 1 <= j < 6 implies !(#[trigger] reference(j)).is_prefix_of(
            next,
        ) by {
            lemma_replaced_start(reference(j), b, from, referent(k));
        }
        lemma_decoded_other(k + 1, next);
    }
}

proof fn lemma_decoded_reference(k: int, j: int, b: Seq<char>)
    requires
        0 <= k <= j < 6,
        j != 1,
    ensures
        decoded_from(k, seq!['&'] + reference(j) + b) == seq![referent(j)] + decoded_from(k, b),
    decreases 6 - k,
{
    lemma_references();
    let name = reference(k);
    let from = seq!['&'] + name;
    let to = seq![referent(k)];
    let s = seq!['&'] + reference(j) + b;
    let next = replaced(b, from, to);
    if k == j {
        assert(s.take(from.len() as int) == from);
        assert(s.skip(from.len() as int) == b);
        assert(replaced(s, from, to) == to + next);
        lemma_decoded_plain(k + 1, referent(j), next);
    } else {
        let tail = reference(j) + b;
        assert(s == seq!['&'] + tail);
        assert(from.skip(1) == name);
        lemma_prefix_step(from, '&', tail);
        if name.is_prefix_of(tail) {
            assert(name[0] == tail.subrange(0, name.len() as int)[0]);
        }
        lemma_replaced_keeps('&', tail, from, to);
        lemma_replaced_keeps_all(reference(j), b, from, to);
        assert(seq!['&'] + (reference(j) + next) == seq!['&'] + reference(j) + next);
        lemma_decoded_reference(k + 1, j, next);
    }
}

proof fn lemma_decoded_ampersand(b: Seq<char>)
    ensures
        forall|j: int|
            2 <= j < 6 ==> decoded(seq!['&'] + reference(1) + (#[trigger] reference(j) + b))
                == seq![referent(j)] + decoded(b),
        (forall|j: int| 2 <= j < 6 ==> !(#[trigger] reference(j)).is_prefix_of(b)) ==> decoded(
            seq!['&'] + reference(1) + b,
        ) == seq!['&'] + decoded(b),
{
    lemma_references();
    let from0 = seq!['&'] + reference(0);
    let to0 = seq![referent(0)];
    let from1 = seq!['&'] + reference(1);
    let to1 = seq![referent(1)];
    reveal_with_fuel(decoded_from, 3);
    assert forall|x: Seq<char>|
        decoded(#[trigger] (seq!['&'] + reference(1) + x)) == decoded_from(
            2,
            seq!['&'] + replaced(replaced(x, from0, to0), from1, to1),
        ) by {
        let s = seq!['&'] + reference(1) + x;
        let tail = reference(1) + x;
        assert(s == seq!['&'] + tail);
        assert(from0.skip(1) == reference(0));
        lemma_prefix_step(from0, '&', tail);
        if reference(0).is_prefix_of(tail) {
            assert(reference(0)[0] == tail.subrange(0, reference(0).len() as int)[0]);
        }
        lemma_replaced_keeps('&', tail, from0, to0);
        lemma_replaced_keeps_all(reference(1), x, from0, to0);
        let next = replaced(x, from0, to0);
        assert(replaced(s, from0, to0) == from1 + next);
        assert((from1 + next).take(from1.len() as int) == from1);
        assert((from1 + next).skip(from1.len() as int) == next);
        assert(decoded_from(0, s) == decoded_from(1, from1 + next));
        assert(decoded_from(1, from1 + next) == decoded_from(2, replaced(from1 + next, from1, to1)));
    }
    let b1 = replaced(b, from0, to0);
    let b2 = replaced(b1, from1, to1);
    assert(decoded(b) == decoded_from(2, b2)) by {
        assert(decoded_from(0, b) == decoded_from(1, b1));
        assert(decoded_from(1, b1) == decoded_from(2, b2));
    }
    assert forall|j: int| 2 <= j < 6 implies decoded(
        seq!['&'] + reference(1) + (#[trigger] reference(j) + b),
    ) == seq![referent(j)] + decoded(b) by {
        lemma_replaced_keeps_all(reference(j), b, from0, to0);
        lemma_replaced_keeps_all(reference(j), b1, from1, to1);
        lemma_decoded_reference(2, j, b2);
        assert(seq!['&'] + (reference(j) + b2) == seq!['&'] + reference(j) + b2);
    }
    if forall|j: int| 2 <= j < 6 ==> !(#[trigger] reference(j)).is_prefix_of(b) {
        assert forall|j: int| 2 <= j < 6 implies !(#[trigger] reference(j)).is_prefix_of(b2) by {
            lemma_replaced_start(reference(j), b, from0, referent(0));
            lemma_replaced_start(reference(j), b1, from1, referent(1));
        }
        lemma_decoded_other(2, b2);
    }
}

/// What is no ampersand stands for itself.
pub proof fn law_decoded_plain(c: char, rest: Seq<char>)
    requires
        c != '&',
    ensures
        decoded(seq![c] + rest) == seq![c] + decoded(rest),
        decoded(Seq::empty()) == Seq::<char>::empty(),
{
    lemma_references();
    lemma_decoded_plain(0, c, rest);
}

/// Each character reference but that of the ampersand stands for one character,
/// whatever comes after it.
pub proof fn law_decoded_references(rest: Seq<char>)
    ensures
        decoded("&nbsp;"@ + rest) == seq![' '] + decoded(rest),
        decoded("&lt;"@ + rest) == seq!['<'] + decoded(rest),
        decoded("&gt;"@ + rest) == seq!['>'] + decoded(rest),
        decoded("&quot;"@ + rest) == seq!['"'] + decoded(rest),
        decoded("&#39;"@ + rest) == seq!['\''] + decoded(rest),
{
    lemma_references();
    lemma_decoded_reference(0, 0, rest);
    lemma_decoded_reference(0, 2, rest);
    lemma_decoded_reference(0, 3, rest);
    lemma_decoded_reference(0, 4, rest);
    lemma_decoded_reference(0, 5, rest);
}

/// The reference of the ampersand stands for an ampersand; where this makes a
/// reference that is decoded later with what comes after it, that one is decoded too.
pub proof fn law_decoded_ampersand(rest: Seq<char>)
    ensures
        decoded("&amp;lt;"@ + rest) == seq!['<'] + decoded(rest),
        decoded("&amp;gt;"@ + rest) == seq!['>'] + decoded(rest),
        decoded("&amp;quot;"@ + rest) == seq!['"'] + decoded(rest),
        decoded("&amp;#39;"@ + rest) == seq!['\''] + decoded(rest),
        !"lt;"@.is_prefix_of(rest) && !"gt;"@.is_prefix_of(rest) && !"quot;"@.is_prefix_of(rest)
            && !"#39;"@.is_prefix_of(rest) ==> decoded("&amp;"@ + rest) == seq!['&'] + decoded(
            rest,
        ),
{
    lemma_references();
    lemma_decoded_ampersand(rest);
    reveal_strlit("&amp;lt;");
    reveal_strlit("&amp;gt;");
    reveal_strlit("&amp;quot;");
    reveal_strlit("&amp;#39;");
    reveal_strlit("amp;");
    reveal_strlit("lt;");
    reveal_strlit("gt;");
    reveal_strlit("quot;");
    reveal_strlit("#39;");
    assert("&amp;lt;"@ + rest == seq!['&'] + reference(1) + (reference(2) + rest));
    assert("&amp;gt;"@ + rest == seq!['&'] + reference(1) + (reference(3) + rest));
    assert("&amp;quot;"@ + rest == seq!['&'] + reference(1) + (reference(4) + rest));
    assert("&amp;#39;"@ + rest == seq!['&'] + reference(1) + (reference(5) + rest));
    assert forall|j: int|
        2 <= j < 6 && !reference(2).is_prefix_of(rest) && !reference(3).is_prefix_of(rest)
            && !reference(4).is_prefix_of(rest) && !reference(5).is_prefix_of(
            rest,
        ) implies !(#[trigger] reference(j)).is_prefix_of(rest) by {
        assert(j == 2 || j == 3 || j == 4 || j == 5);
    }
}

/// An ampersand that starts none of the six references stands for itself.
pub proof fn law_decoded_bare_ampersand(rest: Seq<char>)
    requires
        !"nbsp;"@.is_prefix_of(rest),
        !"amp;"@.is_prefix_of(rest),
        !"lt;"@.is_prefix_of(rest),
        !"gt;"@.is_prefix_of(rest),
        !"quot;"@.is_prefix_of(rest),
        !"#39;"@.is_prefix_of(rest),
    ensures
        decoded(seq!['&'] + rest) == seq!['&'] + decoded(rest),
{
    lemma_references();
    assert forall|j: int| 0 <= j < 6 implies !(#[trigger] reference(j)).is_prefix_of(rest) by {
        assert(j == 0 || j == 1 || j == 2 || j == 3 || j == 4 || j == 5);
    }
    lemma_decoded_other(0, rest);
}

proof fn lemma_decoded_sides(k: int, a: Seq<char>, c: char, b: Seq<char>)
    requires
        0 <= k <= 6,
        white_space(c),
    ensures
        decoded_from(k, a + seq![c] + b) == decoded_from(k, a) + seq![c] + decoded_from(k, b),
    decreases 6 - k,
{
    if k < 6 {
        let from = seq!['&'] + reference(k);
        let to = seq![referent(k)];
        reveal_strlit("nbsp;");
        reveal_strlit("amp;");
        reveal_strlit("lt;");
        reveal_strlit("gt;");
        reveal_strlit("quot;");
        reveal_strlit("#39;");
        assert(forall|i: int| 0 <= i < from.len() ==> !white_space(#[trigger] from[i]));
        law_replaced_sides(a, c, b, from, to);
        lemma_decoded_sides(k + 1, replaced(a, from, to), c, replaced(b, from, to));
    }
}

/// No reference goes across white space: what stands on each side of it is decoded
/// by itself.
pub proof fn law_decoded_sides(a: Seq<char>, c: char, b: Seq<char>)
    requires
        white_space(c),
    ensures
        decoded(a + seq![c] + b) == decoded(a) + seq![c] + decoded(b),
{
    lemma_references();
    lemma_decoded_sides(0, a, c, b);
}

/// A text without ampersands has nothing to decode.
pub proof fn law_nothing_to_decode(s: Seq<char>)
    requires
        !s.contains('&'),
    ensures
        decoded(s) == s,
    decreases s.len(),
{
    if s.len() == 0 {
        law_decoded_plain(' ', s);
        assert(s == Seq::<char>::empty());
    } else {
        let rest = s.skip(1);
        assert(s.contains(s[0]));
        assert(!rest.contains('&')) by {
            if rest.contains('&') {
                let i = choose|i: int| 0 <= i < rest.len() && rest[i] == '&';
                assert(s[i + 1] == '&');
            }
        }
        law_nothing_to_decode(rest);
        law_decoded_plain(s[0], rest);
        assert(seq![s[0]] + rest == s);
    }
}

proof fn lemma_replaced_holds(s: Seq<char>, from: Seq<char>, to: Seq<char>, c: char)
    requires
        !s.contains(c),
        !to.contains(c),
    ensures
        !replaced(s, from, to).contains(c),
    decreases s.len(),
{
    let out = replaced(s, from, to);
    if from.len() > 0 && s.len() >= from.len() {
        let (head, n) = if from == s.take(from.len() as int) {
            (to, from.len() as int)
        } else {
            (seq![s[0]], 1)
        };
        let rest = s.skip(n);
        if rest.contains(c) {
            let i = choose|i: int| 0 <= i < rest.len() && rest[i] == c;
            assert(s[i + n] == c);
        }
        lemma_replaced_holds(rest, from, to, c);
        let tail = replaced(rest, from, to);
        assert(out == head + tail);
        assert(s.contains(s[0]));
        if out.contains(c) {
            let i = choose|i: int| 0 <= i < out.len() && out[i] == c;
            if i < head.len() {
                assert(head[i] == c);
                assert(head.contains(c));
            } else {
                assert(tail[i - head.len()] == c);
                assert(tail.contains(c));
            }
        }
    }
}

proof fn lemma_decoded_has_no_line_feed(k: int, s: Seq<char>)
    requires
        0 <= k <= 6,
        !s.contains('\n'),
    ensures
        !decoded_from(k, s).contains('\n'),
    decreases 6 - k,
{
    if k < 6 {
        let from = seq!['&'] + reference(k);
        let to = seq![referent(k)];
        lemma_replaced_holds(s, from, to, '\n');
        lemma_decoded_has_no_line_feed(k + 1, replaced(s, from, to));
    }
}

proof fn lemma_single_line_text(s: Seq<char>)
    requires
        !s.contains('\n'),
    ensures
        readable_text(s) == collapsed(decoded(s)),
{
    lemma_references();
    lemma_decoded_has_no_line_feed(0, s);
    law_single_line(decoded(s));
    lemma_collapsed_is_empty(decoded(s));
    if words(decoded(s)).len() == 0 {
        assert(readable_text(s) == collapsed(decoded(s)));
    }
}

/// A word reads as what its references stand for, each decoded once; a word
/// without any is its own readable text.
pub proof fn law_word_is_decoded(word: Seq<char>)
    requires
        !word.contains('\n'),
        forall|i: int| 0 <= i < decoded(word).len() ==> !white_space(#[trigger] decoded(word)[i]),
    ensures
        readable_text(word) == decoded(word),
        !word.contains('&') ==> readable_text(word) == word,
{
    lemma_single_line_text(word);
    let text = decoded(word);
    if text.len() > 0 {
        let none = Seq::<char>::empty();
        lemma_first_word(text, none);
        assert(text + none == text);
        assert(seq![text] + words(none) == seq![text]);
    }
    if !word.contains('&') {
        law_nothing_to_decode(word);
    }
}

proof fn lemma_replaced_everywhere(a: Seq<char>, from: Seq<char>, b: Seq<char>, to: Seq<char>)
    requires
        from.len() > 0,
        !from.skip(1).contains(from[0]),
    ensures
        replaced(a + from + b, from, to) == replaced(a, from, to) + to + replaced(b, from, to),
    decreases a.len(),
{
    let s = a + from + b;
    let n = from.len() as int;
    if a.len() == 0 {
        assert(s.take(n) == from);
        assert(s.skip(n) == b);
        assert(replaced(a, from, to) == a);
        assert(a + to + replaced(b, from, to) == to + replaced(b, from, to));
    } else if a.len() >= n && from == a.take(n) {
        assert(s.take(n) == from);
        assert(s.skip(n) == a.skip(n) + from + b);
        lemma_replaced_everywhere(a.skip(n), from, b, to);
        assert(to + (replaced(a.skip(n), from, to) + to + replaced(b, from, to)) == (to + replaced(
            a.skip(n),
            from,
            to,
        )) + to + replaced(b, from, to));
    } else {
        if from == s.take(n) {
            if a.len() >= n {
                assert(s.take(n) == a.take(n));
            } else {
                let i = a.len() as int;
                assert(s.take(n)[i] == from[0]);
                assert(from.skip(1)[i - 1] == from[0]);
            }
        }
        assert(s.skip(1) == a.skip(1) + from + b);
        lemma_replaced_everywhere(a.skip(1), from, b, to);
        if a.len() < n {
            assert(replaced(a, from, to) == seq![a[0]] + a.skip(1));
        }
        assert(seq![a[0]] + (replaced(a.skip(1), from, to) + to + replaced(b, from, to)) == (
        seq![a[0]] + replaced(a.skip(1), from, to)) + to + replaced(b, from, to));
    }
}

/// A space that is written as a reference reads like a space, wherever it stands.
pub proof fn law_written_spaces(a: Seq<char>, b: Seq<char>)
    ensures
        decoded(a + "&nbsp;"@ + b) == decoded(a + seq![' '] + b),
        readable_text(a + "&nbsp;"@ + b) == readable_text(a + seq![' '] + b),
{
    lemma_references();
    let from = "&nbsp;"@;
    reveal_strlit("&nbsp;");
    reveal_strlit(" ");
    assert(" "@ == seq![' ']);
    assert(!from.skip(1).contains(from[0]));
    lemma_replaced_everywhere(a, from, b, " "@);
    assert(!from.contains(' '));
    law_replaced_sides(a, ' ', b, from, " "@);
}

/// White space within a line leaves one space between what is readable on its two
/// sides, and nothing where a side has nothing readable.
pub proof fn law_spaces(a: Seq<char>, c: char, b: Seq<char>)
    requires
        white_space(c),
        c != '\n',
        !a.contains('\n'),
        !b.contains('\n'),
    ensures
        readable_text(a + seq![c] + b) == if readable_text(a).len() == 0 {
            readable_text(b)
        } else if readable_text(b).len() == 0 {
            readable_text(a)
        } else {
            readable_text(a) + seq![' '] + readable_text(b)
        },
{
    let s = a + seq![c] + b;
    if s.contains('\n') {
        let i = choose|i: int| 0 <= i < s.len() && s[i] == '\n';
        if i < a.len() {
            assert(a[i] == '\n');
        } else if i > a.len() {
            assert(b[i - a.len() - 1] == '\n');
        }
    }
    lemma_single_line_text(a);
    lemma_single_line_text(b);
    lemma_single_line_text(s);
    law_decoded_sides(a, c, b);
    let (x, y) = (decoded(a), decoded(b));
    lemma_words_parts(x, seq![c] + y);
    lemma_words_parts(seq![c], y);
    law_white_space_has_no_words(seq![c]);
    assert(x + seq![c] + y == x + (seq![c] + y));
    assert(words(decoded(s)) == words(x) + words(y));
    lemma_collapsed_is_empty(x);
    lemma_collapsed_is_empty(y);
    law_joined(words(x), words(y), x, seq![' ']);
    if words(x).len() == 0 {
        assert(words(x) + words(y) == words(y));
    }
    if words(y).len() == 0 {
        assert(words(x) + words(y) == words(x));
    }
}

proof fn lemma_text_is_empty(s: Seq<char>)
    ensures
        readable_text(s).len() == 0 <==> readable_lines(decoded(s)).len() == 0,
{
    let lines = readable_lines(decoded(s));
    law_lines_are_readable(decoded(s));
    if lines.len() > 1 {
        lemma_joined_first(lines, "\n"@);
    }
    if lines.len() > 0 {
        assert(is_readable(lines[0]));
    }
}

/// A line feed stands between what is readable before it and what is readable
/// after it, and leaves nothing where one of them has nothing readable.
pub proof fn law_line_breaks(a: Seq<char>, b: Seq<char>)
    ensures
        readable_text(a + seq!['\n'] + b) == if readable_text(a).len() == 0 {
            readable_text(b)
        } else if readable_text(b).len() == 0 {
            readable_text(a)
        } else {
            readable_text(a) + seq!['\n'] + readable_text(b)
        },
{
    reveal_strlit("\n");
    assert("\n"@ == seq!['\n']);
    law_decoded_sides(a, '\n', b);
    law_line_feed(decoded(a), decoded(b));
    lemma_text_is_empty(a);
    lemma_text_is_empty(b);
    let (x, y) = (readable_lines(decoded(a)), readable_lines(decoded(b)));
    law_joined(x, y, a, "\n"@);
    if x.len() == 0 {
        assert(x + y == y);
    }
    if y.len() == 0 {
        assert(x + y == x);
    }
}

/// References are decoded before white space is looked at: a text and what it is
/// decoded to, where this has no ampersand left, read the same.
pub proof fn law_references_are_decoded_first(s: Seq<char>)
    requires
        !decoded(s).contains('&'),
    ensures
        readable_text(s) == readable_text(decoded(s)),
{
    law_nothing_to_decode(decoded(s));
}

/// The patterns are applied to a page as it was received, each to what the one
/// before it left, and only what the last one left is decoded and set out: scripts
/// and styles leave a space, the tags of blocks a line feed, other tags a space.
pub proof fn law_tags_go_first(
    html: Seq<char>,
    scriptless: Seq<char>,
    with_breaks: Seq<char>,
    tagless: Seq<char>,
)
    ensures
        ({
            let scripts = "(?is)<(script|style)[^>]*>.*?</(script|style)>"@;
            let blocks = "(?i)</?(p|div|h[1-6]|li|br|article|section)[^>]*>"@;
            let tags = "(?s)<[^>]+>"@;
            if regex_compiles(scripts) && regex_compiles(blocks) && regex_compiles(tags) {
                scriptless == regex_replaced(scripts, html, seq![' ']) && with_breaks
                    == regex_replaced(blocks, scriptless, seq!['\n']) && tagless == regex_replaced(
                    tags,
                    with_breaks,
                    seq![' '],
                ) ==> page_text(html) == readable_text(tagless)
            } else {
                page_text(html) == html
            }
        }),
{
    reveal_strlit(" ");
    reveal_strlit("\n");
    assert(" "@ == seq![' ']);
    assert("\n"@ == seq!['\n']);
}

/// Markup that is escaped is text: a page in which no pattern matches anything has
/// the readable text of the page itself, in which its references are decoded.
pub proof fn law_page_without_tags(html: Seq<char>)
    ensures
        regex_compiles(SCRIPT_PATTERN@) && regex_compiles(BLOCK_PATTERN@) && regex_compiles(
            TAG_PATTERN@,
        ) && regex_replaced(SCRIPT_PATTERN@, html, " "@) == html && regex_replaced(
            BLOCK_PATTERN@,
            html,
            "\n"@,
        ) == html && regex_replaced(TAG_PATTERN@, html, " "@) == html ==> page_text(html)
            == readable_text(html),
{
}

/// Pages that are the same without their scripts and styles have the same text.
pub proof fn law_scripts_do_not_matter(a: Seq<char>, b: Seq<char>)
    ensures
        regex_compiles(SCRIPT_PATTERN@) && regex_compiles(BLOCK_PATTERN@) && regex_compiles(
            TAG_PATTERN@,
        ) && regex_replaced(SCRIPT_PATTERN@, a, " "@) == regex_replaced(SCRIPT_PATTERN@, b, " "@)
            ==> page_text(a) == page_text(b),
{
}

} // verus!
