//! Text as sequences of characters: the operations that the tools build their
//! messages with, and what each of them yields.

use vstd::prelude::*;

verus! {

/// `String::push` appends one character and leaves what was there in place.
pub assume_specification[ String::push ](s: &mut String, c: char)
    ensures
        final(s)@ == old(s)@.push(c),
;

/// Whether `c` has the Unicode property `White_Space`.
pub open spec fn white_space(c: char) -> bool {
    ||| '\u{9}' <= c <= '\u{d}'
    ||| c == ' '
    ||| c == '\u{85}'
    ||| c == '\u{a0}'
    ||| c == '\u{1680}'
    ||| '\u{2000}' <= c <= '\u{200a}'
    ||| c == '\u{2028}'
    ||| c == '\u{2029}'
    ||| c == '\u{202f}'
    ||| c == '\u{205f}'
    ||| c == '\u{3000}'
}

/// `s` with every occurrence of `from` exchanged for `to`, found from left to
/// right without overlap.
pub open spec fn replaced(s: Seq<char>, from: Seq<char>, to: Seq<char>) -> Seq<char>
    decreases s.len(),
{
    if from.len() == 0 || s.len() < from.len() {
        s
    } else if from == s.take(from.len() as int) {
        to + replaced(s.skip(from.len() as int), from, to)
    } else {
        seq![s[0]] + replaced(s.skip(1), from, to)
    }
}

/// `s` without its leading white space.
pub open spec fn trimmed_start(s: Seq<char>) -> Seq<char>
    decreases s.len(),
{
    if s.len() > 0 && white_space(s.first()) {
        trimmed_start(s.drop_first())
    } else {
        s
    }
}

/// `s` without its trailing white space.
pub open spec fn trimmed_end(s: Seq<char>) -> Seq<char>
    decreases s.len(),
{
    if s.len() > 0 && white_space(s.last()) {
        trimmed_end(s.drop_last())
    } else {
        s
    }
}

/// `s` without the white space around it.
pub open spec fn trimmed(s: Seq<char>) -> Seq<char> {
    trimmed_end(trimmed_start(s))
}

/// `s` without the `c` that it ends in, however often it is repeated there.
pub open spec fn trimmed_end_of(s: Seq<char>, c: char) -> Seq<char>
    decreases s.len(),
{
    if s.len() > 0 && s.last() == c {
        trimmed_end_of(s.drop_last(), c)
    } else {
        s
    }
}

/// The lower-case letter for an ASCII capital, and any other character itself.
pub open spec fn ascii_lower(c: char) -> char {
    if 'A' <= c <= 'Z' {
        (c as u32 + 32) as char
    } else {
        c
    }
}

/// `parts` one after the other, with `sep` between neighbours.
pub open spec fn joined(parts: Seq<Seq<char>>, sep: Seq<char>) -> Seq<char>
    decreases parts.len(),
{
    if parts.len() == 0 {
        Seq::empty()
    } else if parts.len() == 1 {
        parts[0]
    } else {
        joined(parts.drop_last(), sep) + sep + parts.last()
    }
}

/// The character for a digit below ten.
pub open spec fn digit(n: nat) -> char {
    ('0' as u32 + n) as char
}

/// `n` in decimal, without leading zeros.
pub open spec fn decimal(n: nat) -> Seq<char>
    decreases n,
{
    if n < 10 {
        seq![digit(n)]
    } else {
        decimal(n / 10).push(digit(n % 10))
    }
}

/// The texts of `parts`.
pub open spec fn texts(parts: Seq<String>) -> Seq<Seq<char>> {
    parts.map_values(|s: String| s@)
}

/// The characters of `s`, in order.
pub(crate) fn chars_of(s: &str) -> (chars: Vec<char>)
    ensures
        chars@ == s@,
{
    let mut chars: Vec<char> = Vec::new();
    for c in it: s.chars()
        invariant
            it.seq() == s@,
            chars@ == s@.take(it.index() as int),
    {
        chars.push(c);
    }
    assert(s@.take(s@.len() as int) == s@);
    chars
}

/// The text that `chars` spells.
pub(crate) fn text_of(chars: &[char]) -> (s: String)
    ensures
        s@ == chars@,
{
    let mut s = String::new();
    let n: usize = chars.len();
    for i in 0..n
        invariant
            n == chars@.len(),
            s@ == chars@.take(i as int),
    {
        s.push(chars[i]);
    }
    assert(chars@.take(n as int) == chars@);
    s
}

/// Whether two texts are the same.
pub(crate) fn same_text(a: &str, b: &str) -> (same: bool)
    ensures
        same == (a@ == b@),
{
    let left = chars_of(a);
    let right = chars_of(b);
    if left.len() != right.len() {
        return false;
    }
    let n: usize = left.len();
    for i in 0..n
        invariant
            n == left@.len() == right@.len(),
            left@ == a@,
            right@ == b@,
            left@.take(i as int) == right@.take(i as int),
    {
        if left[i] != right[i] {
            return false;
        }
        assert(left@.take(i + 1) == left@.take(i as int).push(left@[i as int]));
        assert(right@.take(i + 1) == right@.take(i as int).push(right@[i as int]));
    }
    assert(left@.take(n as int) == left@);
    assert(right@.take(n as int) == right@);
    true
}

/// Whether `c` is white space.
pub fn is_white_space(c: char) -> (b: bool)
    ensures
        b == white_space(c),
{
    ('\u{9}' <= c && c <= '\u{d}') || c == ' ' || c == '\u{85}' || c == '\u{a0}' || c == '\u{1680}'
        || ('\u{2000}' <= c && c <= '\u{200a}') || c == '\u{2028}' || c == '\u{2029}' || c
        == '\u{202f}' || c == '\u{205f}' || c == '\u{3000}'
}

/// Whether `s` holds `part` from index `at` on.
fn occurs_at(s: &[char], part: &[char], at: usize) -> (b: bool)
    requires
        at + part@.len() <= s@.len(),
    ensures
        b == (part@ == s@.subrange(at as int, at + part@.len())),
{
    let n: usize = part.len();
    let total: usize = s.len();
    for i in 0..n
        invariant
            n == part@.len(),
            total == s@.len(),
            at + n <= total,
            forall|j: int| 0 <= j < i ==> part@[j] == s@[at + j],
    {
        if part[i] != s[at + i] {
            assert(part@[i as int] != s@.subrange(at as int, at + part@.len())[i as int]);
            return false;
        }
    }
    assert(part@ == s@.subrange(at as int, at + part@.len()));
    true
}

/// Whether `s` ends in `part`.
pub(crate) fn ends_with(s: &str, part: &str) -> (b: bool)
    ensures
        b == part@.is_suffix_of(s@),
{
    let chars = chars_of(s);
    let part_chars = chars_of(part);
    if chars.len() < part_chars.len() {
        false
    } else {
        occurs_at(chars.as_slice(), part_chars.as_slice(), chars.len() - part_chars.len())
    }
}

/// Exchanges every occurrence of `from` for `to`.
pub(crate) fn replace(s: &Vec<char>, from: &str, to: &str) -> (out: Vec<char>)
    requires
        from@.len() > 0,
    ensures
        out@ == replaced(s@, from@, to@),
{
    let from_chars = chars_of(from);
    let to_chars = chars_of(to);
    let m: usize = from_chars.len();
    let n: usize = s.len();
    let mut out: Vec<char> = Vec::new();
    let mut i: usize = 0;
    assert(s@.skip(0) == s@);
    while i < n && m <= n - i
        invariant
            n == s@.len(),
            i <= n,
            m == from@.len() > 0,
            from_chars@ == from@,
            to_chars@ == to@,
            out@ + replaced(s@.skip(i as int), from@, to@) == replaced(s@, from@, to@),
        decreases n - i,
    {
        let ghost rest = s@.skip(i as int);
        assert(rest.take(m as int) == s@.subrange(i as int, i + m));
        if occurs_at(s.as_slice(), from_chars.as_slice(), i) {
            assert(rest.skip(m as int) == s@.skip(i + m));
            let ghost before = out@;
            push_all(&mut out, to_chars.as_slice());
            assert(out@ + replaced(s@.skip(i + m), from@, to@) == before + (to@ + replaced(
                s@.skip(i + m),
                from@,
                to@,
            )));
            i = i + m;
        } else {
            assert(rest.skip(1) == s@.skip(i + 1));
            let ghost before = out@;
            out.push(s[i]);
            assert(out@ + replaced(s@.skip(i + 1), from@, to@) == before + (seq![rest[0]]
                + replaced(s@.skip(i + 1), from@, to@)));
            i = i + 1;
        }
    }
    assert(replaced(s@.skip(i as int), from@, to@) == s@.skip(i as int));
    push_range(&mut out, s.as_slice(), i, n);
    assert(s@.subrange(i as int, n as int) == s@.skip(i as int));
    out
}

/// Appends `part` to `out`.
pub(crate) fn push_all(out: &mut Vec<char>, part: &[char])
    ensures
        final(out)@ == old(out)@ + part@,
{
    let n: usize = part.len();
    push_range(out, part, 0, n);
    assert(part@.subrange(0, n as int) == part@);
}

/// Appends the characters of `part` from `from` up to `to` to `out`.
pub(crate) fn push_range(out: &mut Vec<char>, part: &[char], from: usize, to: usize)
    requires
        from <= to <= part@.len(),
    ensures
        final(out)@ == old(out)@ + part@.subrange(from as int, to as int),
{
    let ghost before = out@;
    for i in from..to
        invariant
            from <= to <= part@.len(),
            out@ == before + part@.subrange(from as int, i as int),
    {
        out.push(part[i]);
    }
}

/// Finds where white space at the start of `s` ends, and where that at its end starts.
pub(crate) fn trim_bounds(s: &[char]) -> (bounds: (usize, usize))
    ensures
        bounds.0 <= bounds.1 <= s@.len(),
        s@.subrange(bounds.0 as int, bounds.1 as int) == trimmed(s@),
{
    let n: usize = s.len();
    let mut start: usize = 0;
    assert(s@.skip(0) == s@);
    while start < n && is_white_space(s[start])
        invariant
            n == s@.len(),
            start <= n,
            trimmed_start(s@.skip(start as int)) == trimmed_start(s@),
        decreases n - start,
    {
        assert(s@.skip(start as int).drop_first() == s@.skip(start + 1));
        start = start + 1;
    }
    let mut end: usize = n;
    assert(s@.subrange(start as int, n as int) == s@.skip(start as int));
    while end > start && is_white_space(s[end - 1])
        invariant
            start <= end <= n == s@.len(),
            trimmed_end(s@.subrange(start as int, end as int)) == trimmed(s@),
        decreases end,
    {
        assert(s@.subrange(start as int, end as int).drop_last() == s@.subrange(
            start as int,
            end - 1,
        ));
        end = end - 1;
    }
    (start, end)
}

/// `s` without the white space around it.
pub(crate) fn trim(s: &str) -> (out: String)
    ensures
        out@ == trimmed(s@),
{
    let chars = chars_of(s);
    let (start, end) = trim_bounds(chars.as_slice());
    let mut out: Vec<char> = Vec::new();
    push_range(&mut out, chars.as_slice(), start, end);
    assert(out@ == trimmed(s@));
    text_of(out.as_slice())
}

/// `s` without the `c` that it ends in.
pub(crate) fn trim_end_of(s: &str, c: char) -> (out: String)
    ensures
        out@ == trimmed_end_of(s@, c),
{
    let mut chars = chars_of(s);
    while chars.len() > 0 && chars[chars.len() - 1] == c
        invariant
            trimmed_end_of(chars@, c) == trimmed_end_of(s@, c),
        decreases chars.len(),
    {
        let _ = chars.pop();
    }
    text_of(chars.as_slice())
}

/// `s` with ASCII capitals made lower case.
pub(crate) fn to_ascii_lower(s: &str) -> (out: String)
    ensures
        out@ == s@.map_values(|c: char| ascii_lower(c)),
{
    let mut out = String::new();
    for c in it: s.chars()
        invariant
            it.seq() == s@,
            out@ == s@.take(it.index() as int).map_values(|c: char| ascii_lower(c)),
    {
        let ghost done = s@.take(it.index() as int);
        assert(s@.take(it.index() + 1) == done.push(c));
        out.push(lower_char(c));
    }
    assert(s@.take(s@.len() as int) == s@);
    out
}

/// Makes an ASCII capital lower case.
fn lower_char(c: char) -> (lower: char)
    ensures
        lower == ascii_lower(c),
{
    if 'A' <= c && c <= 'Z' {
        (c as u8 + 32) as char
    } else {
        c
    }
}

/// Joins `parts` with `sep` between neighbours.
pub(crate) fn join(parts: &Vec<String>, sep: &str) -> (out: String)
    ensures
        out@ == joined(texts(parts@), sep@),
{
    let mut out = String::new();
    let n: usize = parts.len();
    for i in 0..n
        invariant
            n == parts@.len(),
            out@ == joined(texts(parts@).take(i as int), sep@),
    {
        let ghost next = texts(parts@).take(i + 1);
        assert(next.drop_last() == texts(parts@).take(i as int));
        if i > 0 {
            out.append(sep);
        }
        out.append(parts[i].as_str());
    }
    assert(texts(parts@).take(n as int) == texts(parts@));
    out
}

/// Writes `n` in decimal.
pub(crate) fn decimal_text(n: usize) -> (out: String)
    ensures
        out@ == decimal(n as nat),
    decreases n,
{
    let last: char = (48u8 + (n % 10) as u8) as char;
    if n < 10 {
        let mut out = String::new();
        out.push(last);
        out
    } else {
        let mut out = decimal_text(n / 10);
        out.push(last);
        out
    }
}

/// Texts that are joined start with the first of them.
pub(crate) proof fn lemma_joined_first(parts: Seq<Seq<char>>, sep: Seq<char>)
    requires
        parts.len() >= 2,
    ensures
        joined(parts, sep) == parts[0] + (sep + joined(parts.drop_first(), sep)),
    decreases parts.len(),
{
    let init = parts.drop_last();
    let tail = parts.drop_first();
    if parts.len() == 2 {
        assert(joined(init, sep) == parts[0]);
        assert(joined(tail, sep) == parts[1]);
    } else {
        lemma_joined_first(init, sep);
        assert(init.drop_first() == tail.drop_last());
        assert(tail.last() == parts.last());
    }
    assert(joined(parts, sep) == parts[0] + (sep + joined(tail, sep)));
}

/// A text in which `from` does not occur stays as it is when `from` is exchanged.
pub proof fn law_nothing_to_replace(s: Seq<char>, from: Seq<char>, to: Seq<char>)
    requires
        forall|i: int|
            0 <= i <= s.len() - from.len() ==> from != #[trigger] s.subrange(i, i + from.len()),
    ensures
        replaced(s, from, to) == s,
    decreases s.len(),
{
    if from.len() > 0 && s.len() >= from.len() {
        assert(s.take(from.len() as int) == s.subrange(0, 0 + from.len() as int));
        let rest = s.skip(1);
        assert forall|i: int| 0 <= i <= rest.len() - from.len() implies from
            != #[trigger] rest.subrange(i, i + from.len()) by {
            assert(rest.subrange(i, i + from.len()) == s.subrange(i + 1, i + 1 + from.len()));
        }
        law_nothing_to_replace(rest, from, to);
        assert(seq![s[0]] + rest == s);
    }
}

/// The number that decimal digits spell.
spec fn decimal_value(s: Seq<char>) -> int
    decreases s.len(),
{
    if s.len() == 0 {
        0
    } else {
        decimal_value(s.drop_last()) * 10 + (s.last() as u32 - '0' as u32)
    }
}

proof fn lemma_decimal_value(n: nat)
    ensures
        decimal_value(decimal(n)) == n,
    decreases n,
{
    if n < 10 {
        assert(decimal(n).drop_last() == Seq::<char>::empty());
        assert(decimal_value(Seq::empty()) == 0);
    } else {
        lemma_decimal_value(n / 10);
        assert(decimal(n).drop_last() == decimal(n / 10));
    }
}

/// Different numbers are written differently.
pub proof fn law_decimals_differ(m: nat, n: nat)
    requires
        m != n,
    ensures
        decimal(m) != decimal(n),
{
    lemma_decimal_value(m);
    lemma_decimal_value(n);
}

/// White space is what Unicode calls so: the characters with these code points,
/// and no others.
pub proof fn law_white_space(c: char)
    ensures
        white_space(c) <==> {
            ||| 9 <= c as u32 <= 13
            ||| c as u32 == 32
            ||| c as u32 == 133
            ||| c as u32 == 160
            ||| c as u32 == 5760
            ||| 8192 <= c as u32 <= 8202
            ||| c as u32 == 8232
            ||| c as u32 == 8233
            ||| c as u32 == 8239
            ||| c as u32 == 8287
            ||| c as u32 == 12288
        },
{
}

/// The first occurrence of `from` in a text gives way to `to`; what stands before
/// it stays as it is, and what comes after it is treated in the same way.
pub proof fn law_replaced_first(
    before: Seq<char>,
    from: Seq<char>,
    after: Seq<char>,
    to: Seq<char>,
)
    requires
        from.len() > 0,
        forall|i: int|
            0 <= i < before.len() ==> from != #[trigger] (before + from + after).subrange(
                i,
                i + from.len(),
            ),
    ensures
        replaced(before + from + after, from, to) == before + to + replaced(after, from, to),
    decreases before.len(),
{
    let s = before + from + after;
    let n = from.len() as int;
    if before.len() == 0 {
        assert(s.take(n) == from);
        assert(s.skip(n) == after);
        assert(before + to + replaced(after, from, to) == to + replaced(after, from, to));
    } else {
        assert(s.take(n) == s.subrange(0, 0 + n));
        let rest = before.skip(1);
        let t = rest + from + after;
        assert(s.skip(1) == t);
        assert forall|i: int| 0 <= i < rest.len() implies from != #[trigger] t.subrange(
            i,
            i + n,
        ) by {
            assert(t.subrange(i, i + n) == s.subrange(i + 1, i + 1 + n));
        }
        law_replaced_first(rest, from, after, to);
        assert(seq![s[0]] + (rest + to + replaced(after, from, to)) == before + to + replaced(
            after,
            from,
            to,
        ));
    }
}

/// A character that `from` does not hold divides a text: each side is treated by
/// itself.
pub proof fn law_replaced_sides(
    a: Seq<char>,
    c: char,
    b: Seq<char>,
    from: Seq<char>,
    to: Seq<char>,
)
    requires
        !from.contains(c),
    ensures
        replaced(a + seq![c] + b, from, to) == replaced(a, from, to) + seq![c] + replaced(
            b,
            from,
            to,
        ),
    decreases a.len(),
{
    let s = a + seq![c] + b;
    let n = from.len() as int;
    if n == 0 {
        assert(replaced(s, from, to) == s);
    } else if a.len() == 0 {
        if s.len() >= n {
            assert(s.take(n)[0] == c);
            assert(from != s.take(n)) by {
                assert(from.contains(from[0]));
            }
            assert(s.skip(1) == b);
        } else {
            assert(b.len() < n);
            assert(replaced(b, from, to) == b);
        }
        assert(replaced(s, from, to) == seq![c] + replaced(b, from, to));
        assert(replaced(a, from, to) == a);
        assert(a + seq![c] + replaced(b, from, to) == seq![c] + replaced(b, from, to));
    } else if s.len() < n {
        assert(replaced(a, from, to) == a);
        assert(replaced(b, from, to) == b);
    } else if a.len() >= n && from == a.take(n) {
        assert(s.take(n) == a.take(n));
        assert(s.skip(n) == a.skip(n) + seq![c] + b);
        law_replaced_sides(a.skip(n), c, b, from, to);
        assert(to + (replaced(a.skip(n), from, to) + seq![c] + replaced(b, from, to)) == (to
            + replaced(a.skip(n), from, to)) + seq![c] + replaced(b, from, to));
    } else {
        assert(from != s.take(n)) by {
            if a.len() >= n {
                assert(s.take(n) == a.take(n));
            } else {
                assert(s.take(n)[a.len() as int] == c);
                assert(from.contains(from[a.len() as int]));
            }
        }
        assert(s.skip(1) == a.skip(1) + seq![c] + b);
        law_replaced_sides(a.skip(1), c, b, from, to);
        if a.len() < n {
            assert(replaced(a.skip(1), from, to) == a.skip(1));
            assert(replaced(a, from, to) == seq![a[0]] + a.skip(1));
        }
        assert(seq![a[0]] + (replaced(a.skip(1), from, to) + seq![c] + replaced(b, from, to)) == (
        seq![a[0]] + replaced(a.skip(1), from, to)) + seq![c] + replaced(b, from, to));
    }
}

proof fn lemma_trimmed_start(s: Seq<char>) -> (i: int)
    ensures
        0 <= i <= s.len(),
        trimmed_start(s) == s.skip(i),
        forall|k: int| 0 <= k < i ==> white_space(#[trigger] s[k]),
        i < s.len() ==> !white_space(s[i]),
    decreases s.len(),
{
    if s.len() > 0 && white_space(s.first()) {
        let rest = s.drop_first();
        let i = lemma_trimmed_start(rest);
        assert(rest.skip(i) == s.skip(i + 1));
        assert forall|k: int| 0 <= k < i + 1 implies white_space(#[trigger] s[k]) by {
            if k > 0 {
                assert(s[k] == rest[k - 1]);
            }
        }
        i + 1
    } else {
        assert(s.skip(0) == s);
        0
    }
}

proof fn lemma_trimmed_end(s: Seq<char>) -> (j: int)
    ensures
        0 <= j <= s.len(),
        trimmed_end(s) == s.take(j),
        forall|k: int| j <= k < s.len() ==> white_space(#[trigger] s[k]),
        j > 0 ==> !white_space(s[j - 1]),
    decreases s.len(),
{
    if s.len() > 0 && white_space(s.last()) {
        let rest = s.drop_last();
        let j = lemma_trimmed_end(rest);
        assert(rest.take(j) == s.take(j));
        assert forall|k: int| j <= k < s.len() implies white_space(#[trigger] s[k]) by {
            if k < s.len() - 1 {
                assert(s[k] == rest[k]);
            }
        }
        j
    } else {
        assert(s.take(s.len() as int) == s);
        s.len() as int
    }
}

/// Where what is left of a trimmed text starts and ends in it.
pub(crate) proof fn lemma_trimmed(s: Seq<char>) -> (bounds: (int, int))
    ensures
        0 <= bounds.0 <= bounds.1 <= s.len(),
        trimmed(s) == s.subrange(bounds.0, bounds.1),
        forall|k: int|
            0 <= k < bounds.0 || bounds.1 <= k < s.len() ==> white_space(#[trigger] s[k]),
        bounds.0 < bounds.1 ==> !white_space(s[bounds.0]) && !white_space(s[bounds.1 - 1]),
{
    let i = lemma_trimmed_start(s);
    let rest = s.skip(i);
    let n = lemma_trimmed_end(rest);
    let j = i + n;
    assert(rest.take(n) == s.subrange(i, j));
    assert forall|k: int| 0 <= k < i || j <= k < s.len() implies white_space(#[trigger] s[k]) by {
        if k >= j {
            assert(s[k] == rest[k - i]);
        }
    }
    assert(n > 0 ==> rest[n - 1] == s[j - 1]);
    (i, j)
}

/// Of a text that is trimmed, white space goes at both ends and nothing else: what
/// is left is one part of it, unchanged, which has no white space at its ends.
pub proof fn law_trimmed(s: Seq<char>)
    ensures
        exists|i: int, j: int|
            {
                &&& 0 <= i <= j <= s.len()
                &&& trimmed(s) == #[trigger] s.subrange(i, j)
                &&& forall|k: int| 0 <= k < i || j <= k < s.len() ==> white_space(#[trigger] s[k])
                &&& i < j ==> !white_space(s[i]) && !white_space(s[j - 1])
            },
{
    let (i, j) = lemma_trimmed(s);
    assert(trimmed(s) == s.subrange(i, j));
}

/// A text without white space at its ends stays as it is when it is trimmed.
pub proof fn law_nothing_to_trim(s: Seq<char>)
    requires
        s.len() > 0 ==> !white_space(s.first()) && !white_space(s.last()),
    ensures
        trimmed(s) == s,
{
}

/// Of a text that is trimmed at its end, `c` goes there as often as it is repeated,
/// and nothing else.
pub proof fn law_trimmed_end_of(s: Seq<char>, c: char)
    ensures
        exists|j: int|
            {
                &&& 0 <= j <= s.len()
                &&& trimmed_end_of(s, c) == #[trigger] s.take(j)
                &&& forall|k: int| j <= k < s.len() ==> #[trigger] s[k] == c
                &&& j > 0 ==> s[j - 1] != c
            },
    decreases s.len(),
{
    if s.len() > 0 && s.last() == c {
        let rest = s.drop_last();
        law_trimmed_end_of(rest, c);
        let j = choose|j: int|
            {
                &&& 0 <= j <= rest.len()
                &&& trimmed_end_of(rest, c) == #[trigger] rest.take(j)
                &&& forall|k: int| j <= k < rest.len() ==> #[trigger] rest[k] == c
                &&& j > 0 ==> rest[j - 1] != c
            };
        assert(rest.take(j) == s.take(j));
        assert forall|k: int| j <= k < s.len() implies #[trigger] s[k] == c by {
            if k < s.len() - 1 {
                assert(s[k] == rest[k]);
            }
        }
    } else {
        assert(s.take(s.len() as int) == s);
    }
}

/// A capital letter of ASCII becomes the small one, whose code is greater by 32;
/// every other character stays as it is.
pub proof fn law_ascii_lower(c: char)
    ensures
        65 <= c as u32 <= 90 ==> ascii_lower(c) as u32 == c as u32 + 32,
        !(65 <= c as u32 <= 90) ==> ascii_lower(c) == c,
{
}

/// Nothing is joined to nothing and a single text to itself, and to join two lists
/// in a row is to set `sep` between what the two are joined to.
pub proof fn law_joined(a: Seq<Seq<char>>, b: Seq<Seq<char>>, text: Seq<char>, sep: Seq<char>)
    ensures
        joined(Seq::empty(), sep) == Seq::<char>::empty(),
        joined(seq![text], sep) == text,
        a.len() > 0 && b.len() > 0 ==> joined(a + b, sep) == joined(a, sep) + sep + joined(b, sep),
    decreases b.len(),
{
    if a.len() > 0 && b.len() > 0 {
        let all = a + b;
        if b.len() == 1 {
            assert(all.drop_last() == a);
            assert(all.last() == b[0]);
        } else {
            let init = b.drop_last();
            law_joined(a, init, text, sep);
            assert(all.drop_last() == a + init);
            assert(all.last() == b.last());
            assert(joined(a, sep) + sep + joined(init, sep) + sep + b.last() == joined(a, sep) + sep
                + (joined(init, sep) + sep + b.last()));
        }
    }
}

/// A number is written with one digit exactly if it is below ten; the last digit is
/// that of the remainder by ten, and those before it write the tenth part.
pub proof fn law_decimal(n: nat)
    ensures
        decimal(n).len() > 0,
        decimal(n).last() as u32 == 48 + n % 10,
        decimal(n).len() == 1 <==> n < 10,
        n >= 10 ==> decimal(n).drop_last() == decimal(n / 10),
    decreases n,
{
    if n >= 10 {
        law_decimal(n / 10);
        assert(decimal(n).drop_last() == decimal(n / 10));
    }
}

/// The texts of a list are those of its parts, in order.
pub proof fn law_texts(parts: Seq<String>)
    ensures
        texts(parts).len() == parts.len(),
        forall|i: int| 0 <= i < parts.len() ==> #[trigger] texts(parts)[i] == parts[i]@,
{
}

} // verus!
