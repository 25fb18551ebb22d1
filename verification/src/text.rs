//! Character sequences: white space, lines, joining, searching and replacing.
//!
//! Every function here works on `Vec<char>` and is specified over `Seq<char>`.
//! The two conversions at the top connect them to `&str` and `String`.

use vstd::prelude::*;

verus! {

/// Appends one character to a string: `String::push` of the standard library,
/// which adds exactly the given character at the end.
#[verifier::external_body]
pub(crate) fn push_char(s: &mut String, c: char)
    ensures
        final(s)@ == old(s)@.push(c),
{
    s.push(c);
}

/// The characters of `s`, in order.
pub fn chars_of(s: &str) -> (v: Vec<char>)
    ensures
        v@ == s@,
{
    let mut v: Vec<char> = Vec::new();
    for c in it: s.chars()
        invariant
            v@ == it.seq().take(it.index()),
            it.seq() == s@,
    {
        v.push(c);
    }
    v
}

/// The string made of the characters of `v`, in order.
pub fn string_of(v: &Vec<char>) -> (s: String)
    ensures
        s@ == v@,
{
    let mut s = String::new();
    let mut i: usize = 0;
    while i < v.len()
        invariant
            i <= v.len(),
            s@ == v@.take(i as int),
        decreases v.len() - i,
    {
        push_char(&mut s, v[i]);
        i = i + 1;
        assert(v@.take(i as int) == v@.take(i - 1).push(v@[i - 1]));
    }
    assert(v@.take(v.len() as int) == v@);
    s
}

/// The view of a vector of character vectors: one sequence per row.
pub open spec fn rows(v: Seq<Vec<char>>) -> Seq<Seq<char>> {
    v.map_values(|r: Vec<char>| r@)
}

/// White space: the code points that carry the Unicode property `White_Space`.
pub open spec fn is_space(c: char) -> bool {
    let n = c as u32;
    ||| 0x09 <= n <= 0x0D
    ||| n == 0x20
    ||| n == 0x85
    ||| n == 0xA0
    ||| n == 0x1680
    ||| 0x2000 <= n <= 0x200A
    ||| n == 0x2028
    ||| n == 0x2029
    ||| n == 0x202F
    ||| n == 0x205F
    ||| n == 0x3000
}

/// Whether `c` is white space.
pub fn is_whitespace(c: char) -> (b: bool)
    ensures
        b == is_space(c),
{
    let n: u32 = c as u32;
    (0x09 <= n && n <= 0x0D) || n == 0x20 || n == 0x85 || n == 0xA0 || n == 0x1680 || (0x2000 <= n
        && n <= 0x200A) || n == 0x2028 || n == 0x2029 || n == 0x202F || n == 0x205F || n == 0x3000
}

/// How many white-space characters `s` begins with.
pub open spec fn leading_spaces(s: Seq<char>) -> nat
    decreases s.len(),
{
    if s.len() > 0 && is_space(s[0]) {
        1 + leading_spaces(s.skip(1))
    } else {
        0
    }
}

/// `s` without the white space it begins with.
pub open spec fn trim_start(s: Seq<char>) -> Seq<char> {
    s.skip(leading_spaces(s) as int)
}

/// Whether `s` holds nothing but white space; the empty sequence is blank.
pub open spec fn is_blank(s: Seq<char>) -> bool {
    leading_spaces(s) == s.len()
}

/// `leading_spaces(s)` is the one `n` with white space before it and none at it.
pub proof fn lemma_leading_spaces(s: Seq<char>, n: int)
    requires
        0 <= n <= s.len(),
        forall|i: int| 0 <= i < n ==> is_space(#[trigger] s[i]),
        n == s.len() || !is_space(s[n]),
    ensures
        leading_spaces(s) == n,
    decreases n,
{
    if n > 0 {
        let t = s.skip(1);
        assert forall|i: int| 0 <= i < n - 1 implies is_space(#[trigger] t[i]) by {
            assert(t[i] == s[i + 1]);
        }
        lemma_leading_spaces(t, n - 1);
    }
}

/// Counts the white space that `v` holds from index `from` on, up to the first
/// other character.
pub fn count_leading_spaces(v: &Vec<char>, from: usize) -> (n: usize)
    requires
        from <= v.len(),
    ensures
        n == leading_spaces(v@.skip(from as int)),
        from + n <= v.len(),
{
    let mut i: usize = from;
    while i < v.len() && is_whitespace(v[i])
        invariant
            from <= i <= v.len(),
            forall|j: int| from <= j < i ==> is_space(#[trigger] v@[j]),
        decreases v.len() - i,
    {
        i = i + 1;
    }
    proof {
        let s = v@.skip(from as int);
        assert forall|j: int| 0 <= j < i - from implies is_space(#[trigger] s[j]) by {
            assert(s[j] == v@[from + j]);
        }
        lemma_leading_spaces(s, i - from);
    }
    i - from
}

/// Whether `v` holds nothing but white space.
pub fn blank(v: &Vec<char>) -> (b: bool)
    ensures
        b == is_blank(v@),
{
    let n = count_leading_spaces(v, 0);
    assert(v@.skip(0) == v@);
    n == v.len()
}

/// How many white-space characters `s` ends with.
pub open spec fn trailing_spaces(s: Seq<char>) -> nat
    decreases s.len(),
{
    if s.len() > 0 && is_space(s.last()) {
        1 + trailing_spaces(s.drop_last())
    } else {
        0
    }
}

/// `s` without the white space it begins and ends with.
pub open spec fn trimmed(s: Seq<char>) -> Seq<char> {
    let rest = trim_start(s);
    rest.take(rest.len() - trailing_spaces(rest))
}

/// `trailing_spaces(s)` is the one `n` with white space in the last `n`
/// places and none before them.
pub proof fn lemma_trailing_spaces(s: Seq<char>, n: int)
    requires
        0 <= n <= s.len(),
        forall|i: int| s.len() - n <= i < s.len() ==> is_space(#[trigger] s[i]),
        n == s.len() || !is_space(s[s.len() - n - 1]),
    ensures
        trailing_spaces(s) == n,
    decreases n,
{
    if n > 0 {
        let t = s.drop_last();
        assert forall|i: int| t.len() - (n - 1) <= i < t.len() implies is_space(#[trigger] t[i]) by {
            assert(t[i] == s[i]);
        }
        assert(is_space(s[s.len() - 1]));
        if n - 1 < t.len() {
            assert(t[t.len() - (n - 1) - 1] == s[s.len() - n - 1]);
        }
        lemma_trailing_spaces(t, n - 1);
    }
}

/// The characters of `v` without the white space at both ends.
pub fn trim(v: &Vec<char>) -> (r: Vec<char>)
    ensures
        r@ == trimmed(v@),
{
    let start: usize = count_leading_spaces(v, 0);
    assert(v@.skip(0) == v@);
    let mut end: usize = v.len();
    while end > start && is_whitespace(v[end - 1])
        invariant
            start <= end <= v.len(),
            forall|j: int| end <= j < v.len() ==> is_space(#[trigger] v@[j]),
        decreases end,
    {
        end = end - 1;
    }
    proof {
        let rest = v@.skip(start as int);
        assert forall|i: int| rest.len() - (v.len() - end) <= i < rest.len() implies is_space(
            #[trigger] rest[i],
        ) by {
            assert(rest[i] == v@[start + i]);
        }
        if end > start {
            assert(rest[end - start - 1] == v@[end - 1]);
        }
        lemma_trailing_spaces(rest, v.len() - end);
        assert(rest.take(end - start) == v@.subrange(start as int, end as int));
    }
    slice_of(v, start, end)
}

/// The pieces one behind the other.
pub open spec fn concatenated(pieces: Seq<Seq<char>>) -> Seq<char>
    decreases pieces.len(),
{
    if pieces.len() == 0 {
        Seq::empty()
    } else {
        concatenated(pieces.drop_last()) + pieces.last()
    }
}

/// The characters of `v` from index `from` up to, not including, index `to`.
pub fn slice_of(v: &Vec<char>, from: usize, to: usize) -> (r: Vec<char>)
    requires
        from <= to <= v.len(),
    ensures
        r@ == v@.subrange(from as int, to as int),
{
    let mut r: Vec<char> = Vec::new();
    let mut i: usize = from;
    while i < to
        invariant
            from <= i <= to <= v.len(),
            r@ == v@.subrange(from as int, i as int),
        decreases to - i,
    {
        r.push(v[i]);
        i = i + 1;
        assert(v@.subrange(from as int, i as int) == v@.subrange(from as int, i - 1).push(
            v@[i - 1],
        ));
    }
    r
}

/// Appends the characters of `src` to `dst`.
pub fn append_chars(dst: &mut Vec<char>, src: &Vec<char>)
    ensures
        final(dst)@ == old(dst)@ + src@,
{
    let mut i: usize = 0;
    while i < src.len()
        invariant
            i <= src.len(),
            dst@ == old(dst)@ + src@.take(i as int),
        decreases src.len() - i,
    {
        dst.push(src[i]);
        i = i + 1;
        assert(src@.take(i as int) == src@.take(i - 1).push(src@[i - 1]));
    }
    assert(src@.take(src.len() as int) == src@);
}

/// Whether `a` and `b` hold the same characters.
pub fn same_chars(a: &Vec<char>, b: &Vec<char>) -> (same: bool)
    ensures
        same == (a@ == b@),
{
    if a.len() != b.len() {
        return false;
    }
    let found = matches_at(a, 0, b);
    assert(a@.subrange(0, a.len() as int) == a@);
    found
}

/// Whether `v` begins with the characters of `prefix`.
pub fn starts_with(v: &Vec<char>, prefix: &Vec<char>) -> (b: bool)
    ensures
        b == prefix@.is_prefix_of(v@),
{
    matches_at(v, 0, prefix)
}

/// Whether `pattern` stands in `text` at index `at`.
pub open spec fn occurs_at(text: Seq<char>, at: int, pattern: Seq<char>) -> bool {
    0 <= at && at + pattern.len() <= text.len() && text.subrange(at, at + pattern.len())
        == pattern
}

/// Whether `pattern` stands in `v` at index `at`.
pub fn matches_at(v: &Vec<char>, at: usize, pattern: &Vec<char>) -> (b: bool)
    requires
        at <= v.len(),
    ensures
        b == occurs_at(v@, at as int, pattern@),
{
    if pattern.len() > v.len() - at {
        return false;
    }
    let mut i: usize = 0;
    while i < pattern.len()
        invariant
            i <= pattern.len(),
            at + pattern.len() <= v.len(),
            forall|j: int| 0 <= j < i ==> v@[at + j] == pattern@[j],
        decreases pattern.len() - i,
    {
        if v[at + i] != pattern[i] {
            proof {
                let sub = v@.subrange(at as int, at + pattern.len());
                assert(sub[i as int] == v@[at + i]);
            }
            return false;
        }
        i = i + 1;
    }
    assert(v@.subrange(at as int, at + pattern.len()) =~= pattern@);
    true
}

/// Whether the character `c` occurs in `v`.
pub fn contains_char(v: &Vec<char>, c: char) -> (b: bool)
    ensures
        b == v@.contains(c),
{
    let mut i: usize = 0;
    while i < v.len()
        invariant
            i <= v.len(),
            forall|j: int| 0 <= j < i ==> v@[j] != c,
        decreases v.len() - i,
    {
        if v[i] == c {
            return true;
        }
        i = i + 1;
    }
    false
}

/// The index of the first line feed of `s`, or the length of `s` if it has none.
pub open spec fn line_end(s: Seq<char>) -> nat
    decreases s.len(),
{
    if s.len() == 0 || s[0] == '\n' {
        0
    } else {
        1 + line_end(s.skip(1))
    }
}

/// `s` without one carriage return at its end, if it has one there.
pub open spec fn strip_cr(s: Seq<char>) -> Seq<char> {
    if s.len() > 0 && s.last() == '\r' {
        s.drop_last()
    } else {
        s
    }
}

/// The lines of `s`. A line ends at a line feed, or at a carriage return
/// directly followed by one; neither belongs to the line. What follows the
/// last line feed is a line of its own unless it is empty, and keeps a
/// carriage return at its end.
pub open spec fn lines_of(s: Seq<char>) -> Seq<Seq<char>>
    decreases s.len(),
{
    if s.len() == 0 {
        Seq::empty()
    } else {
        let k = line_end(s) as int;
        if k >= s.len() {
            seq![s]
        } else {
            seq![strip_cr(s.take(k))] + lines_of(s.skip(k + 1))
        }
    }
}

/// `line_end(s)` is the one `k` with a line feed at it, or the end, and none before it.
pub proof fn lemma_line_end(s: Seq<char>, k: int)
    requires
        0 <= k <= s.len(),
        forall|i: int| 0 <= i < k ==> #[trigger] s[i] != '\n',
        k == s.len() || s[k] == '\n',
    ensures
        line_end(s) == k,
    decreases k,
{
    if k > 0 {
        let t = s.skip(1);
        assert forall|i: int| 0 <= i < k - 1 implies #[trigger] t[i] != '\n' by {
            assert(t[i] == s[i + 1]);
        }
        lemma_line_end(t, k - 1);
    }
}

/// The lines of `s`, each with what ends it: a line feed, a carriage return
/// and a line feed, or nothing at the end of `s`. One behind the other they
/// give `s` again.
pub open spec fn whole_lines_of(s: Seq<char>) -> Seq<Seq<char>>
    decreases s.len(),
{
    if s.len() == 0 {
        Seq::empty()
    } else {
        let k = line_end(s) as int;
        if k >= s.len() {
            seq![s]
        } else {
            seq![s.take(k + 1)] + whole_lines_of(s.skip(k + 1))
        }
    }
}

/// The text of a line, without what ends the line.
pub open spec fn line_text(whole: Seq<char>) -> Seq<char> {
    if whole.len() > 0 && whole.last() == '\n' {
        strip_cr(whole.drop_last())
    } else {
        whole
    }
}

/// What ends a line: a line feed, a carriage return and a line feed, or
/// nothing.
pub open spec fn line_ending(whole: Seq<char>) -> Seq<char> {
    whole.skip(line_text(whole).len() as int)
}

/// The pieces behind a first piece come behind it.
pub proof fn lemma_concatenated_front(first: Seq<char>, rest: Seq<Seq<char>>)
    ensures
        concatenated(seq![first] + rest) == first + concatenated(rest),
    decreases rest.len(),
{
    let all = seq![first] + rest;
    if rest.len() == 0 {
        assert(all.drop_last() == Seq::<Seq<char>>::empty());
        assert(concatenated(all.drop_last()) == Seq::<char>::empty());
        assert(concatenated(all) == first);
        assert(first + Seq::<char>::empty() == first);
    } else {
        assert(all.drop_last() == seq![first] + rest.drop_last());
        assert(all.last() == rest.last());
        lemma_concatenated_front(first, rest.drop_last());
        assert(first + concatenated(rest.drop_last()) + rest.last() == first + (concatenated(
            rest.drop_last(),
        ) + rest.last()));
    }
}

/// The whole lines of a text, one behind the other, are the text.
pub proof fn lemma_whole_lines_give_text(s: Seq<char>)
    ensures
        concatenated(whole_lines_of(s)) == s,
    decreases s.len(),
{
    if s.len() > 0 {
        let k = line_end(s) as int;
        if k >= s.len() {
            lemma_concatenated_front(s, Seq::empty());
            assert(seq![s] + Seq::<Seq<char>>::empty() == seq![s]);
            assert(s + Seq::<char>::empty() == s);
        } else {
            lemma_whole_lines_give_text(s.skip(k + 1));
            lemma_concatenated_front(s.take(k + 1), whole_lines_of(s.skip(k + 1)));
            assert(s.take(k + 1) + s.skip(k + 1) == s);
        }
    }
}

/// Splits `text` into its lines, each with what ends it.
pub fn split_whole_lines(text: &Vec<char>) -> (lines: Vec<Vec<char>>)
    ensures
        rows(lines@) == whole_lines_of(text@),
{
    let mut lines: Vec<Vec<char>> = Vec::new();
    let mut start: usize = 0;
    assert(text@.skip(0) == text@);
    while start < text.len()
        invariant
            start <= text.len(),
            whole_lines_of(text@) == rows(lines@) + whole_lines_of(text@.skip(start as int)),
        decreases text.len() - start,
    {
        let ghost rest = text@.skip(start as int);
        let mut end: usize = start;
        while end < text.len() && text[end] != '\n'
            invariant
                start <= end <= text.len(),
                forall|j: int| start <= j < end ==> #[trigger] text@[j] != '\n',
            decreases text.len() - end,
        {
            end = end + 1;
        }
        proof {
            assert forall|j: int| 0 <= j < end - start implies #[trigger] rest[j] != '\n' by {
                assert(rest[j] == text@[start + j]);
            }
            lemma_line_end(rest, end - start);
        }
        let ghost before = lines@;
        let stop: usize = if end == text.len() {
            end
        } else {
            end + 1
        };
        let line = slice_of(text, start, stop);
        proof {
            if end == text.len() {
                assert(line@ == rest);
                assert(text@.skip(stop as int) == Seq::<char>::empty());
            } else {
                assert(line@ == rest.take(end - start + 1));
                assert(rest.skip(end - start + 1) == text@.skip(stop as int));
            }
        }
        lines.push(line);
        assert(rows(lines@) == rows(before) + seq![line@]);
        start = stop;
    }
    assert(whole_lines_of(text@.skip(start as int)) == Seq::<Seq<char>>::empty());
    lines
}

/// How many characters of a line are its text.
pub fn line_text_len(whole: &Vec<char>) -> (n: usize)
    ensures
        n <= whole.len(),
        whole@.take(n as int) == line_text(whole@),
        whole@.skip(n as int) == line_ending(whole@),
{
    let len = whole.len();
    if len > 0 && whole[len - 1] == '\n' {
        if len > 1 && whole[len - 2] == '\r' {
            assert(whole@.drop_last().drop_last() == whole@.take(len - 2));
            len - 2
        } else {
            assert(whole@.drop_last() == whole@.take(len - 1));
            len - 1
        }
    } else {
        assert(whole@.take(len as int) == whole@);
        len
    }
}

/// The lines joined into one sequence, with `between` between each two.
pub open spec fn joined_with(lines: Seq<Seq<char>>, between: Seq<char>) -> Seq<char>
    decreases lines.len(),
{
    if lines.len() == 0 {
        Seq::empty()
    } else if lines.len() == 1 {
        lines[0]
    } else {
        joined_with(lines.drop_last(), between) + between + lines.last()
    }
}

/// Splits `text` into its lines.
pub fn split_lines(text: &Vec<char>) -> (lines: Vec<Vec<char>>)
    ensures
        rows(lines@) == lines_of(text@),
{
    let mut lines: Vec<Vec<char>> = Vec::new();
    let mut start: usize = 0;
    assert(text@.skip(0) == text@);
    while start < text.len()
        invariant
            start <= text.len(),
            lines_of(text@) == rows(lines@) + lines_of(text@.skip(start as int)),
        decreases text.len() - start,
    {
        let ghost rest = text@.skip(start as int);
        let mut end: usize = start;
        while end < text.len() && text[end] != '\n'
            invariant
                start <= end <= text.len(),
                forall|j: int| start <= j < end ==> #[trigger] text@[j] != '\n',
            decreases text.len() - end,
        {
            end = end + 1;
        }
        proof {
            assert forall|j: int| 0 <= j < end - start implies #[trigger] rest[j] != '\n' by {
                assert(rest[j] == text@[start + j]);
            }
            lemma_line_end(rest, end - start);
        }
        let ghost before = lines@;
        if end == text.len() {
            let line = slice_of(text, start, end);
            assert(line@ == rest);
            lines.push(line);
            start = end;
            assert(lines_of(text@.skip(start as int)) == Seq::<Seq<char>>::empty());
            assert(rows(lines@) == rows(before) + seq![rest]);
        } else {
            let stop: usize = if end > start && text[end - 1] == '\r' {
                end - 1
            } else {
                end
            };
            let line = slice_of(text, start, stop);
            assert(rest.take(end - start) == text@.subrange(start as int, end as int));
            assert(line@ == strip_cr(rest.take(end - start)));
            lines.push(line);
            assert(rest.skip(end - start + 1) == text@.skip(end + 1));
            assert(rows(lines@) == rows(before) + seq![strip_cr(rest.take(end - start))]);
            start = end + 1;
        }
    }
    assert(lines_of(text@.skip(start as int)) == Seq::<Seq<char>>::empty());
    lines
}

/// The lines joined into one sequence, with one line feed between each two.
pub open spec fn joined(lines: Seq<Seq<char>>) -> Seq<char>
    decreases lines.len(),
{
    if lines.len() == 0 {
        Seq::empty()
    } else if lines.len() == 1 {
        lines[0]
    } else {
        joined(lines.drop_last()) + seq!['\n'] + lines.last()
    }
}

/// Joins the lines with one line feed between each two.
pub fn join_lines(lines: &Vec<Vec<char>>) -> (text: Vec<char>)
    ensures
        text@ == joined(rows(lines@)),
{
    let mut text: Vec<char> = Vec::new();
    let mut i: usize = 0;
    while i < lines.len()
        invariant
            i <= lines.len(),
            text@ == joined(rows(lines@).take(i as int)),
        decreases lines.len() - i,
    {
        if i > 0 {
            text.push('\n');
        }
        append_chars(&mut text, &lines[i]);
        i = i + 1;
        proof {
            let now = rows(lines@).take(i as int);
            assert(now.drop_last() == rows(lines@).take(i - 1));
            assert(now.last() == lines@[i - 1]@);
        }
    }
    assert(rows(lines@).take(lines.len() as int) == rows(lines@));
    text
}

/// The lines of `lines` that are not blank, in order.
pub open spec fn non_blank(lines: Seq<Seq<char>>) -> Seq<Seq<char>>
    decreases lines.len(),
{
    if lines.len() == 0 {
        Seq::empty()
    } else if is_blank(lines[0]) {
        non_blank(lines.skip(1))
    } else {
        seq![lines[0]] + non_blank(lines.skip(1))
    }
}

/// None of the lines that `non_blank` keeps is blank.
pub proof fn lemma_non_blank_keeps_no_blank(lines: Seq<Seq<char>>)
    ensures
        forall|i: int| 0 <= i < non_blank(lines).len() ==> !is_blank(#[trigger] non_blank(lines)[i]),
        non_blank(lines).len() <= lines.len(),
    decreases lines.len(),
{
    if lines.len() > 0 {
        lemma_non_blank_keeps_no_blank(lines.skip(1));
    }
}

/// Keeps the lines that are not blank.
pub fn drop_blank_lines(lines: Vec<Vec<char>>) -> (kept: Vec<Vec<char>>)
    ensures
        rows(kept@) == non_blank(rows(lines@)),
{
    let mut kept: Vec<Vec<char>> = Vec::new();
    let mut i: usize = 0;
    let ghost all = rows(lines@);
    assert(all.skip(0) == all);
    while i < lines.len()
        invariant
            i <= lines.len(),
            all == rows(lines@),
            non_blank(all) == rows(kept@) + non_blank(all.skip(i as int)),
        decreases lines.len() - i,
    {
        let ghost before = kept@;
        assert(all.skip(i as int).skip(1) == all.skip(i + 1));
        assert(all.skip(i as int)[0] == lines@[i as int]@);
        if !blank(&lines[i]) {
            let line = slice_of(&lines[i], 0, lines[i].len());
            assert(line@ == lines@[i as int]@);
            kept.push(line);
            assert(rows(kept@) == rows(before) + seq![lines@[i as int]@]);
        }
        i = i + 1;
    }
    kept
}

/// The decimal digit for `d`, which is below ten.
pub open spec fn digit(d: nat) -> char {
    if d == 0 {
        '0'
    } else if d == 1 {
        '1'
    } else if d == 2 {
        '2'
    } else if d == 3 {
        '3'
    } else if d == 4 {
        '4'
    } else if d == 5 {
        '5'
    } else if d == 6 {
        '6'
    } else if d == 7 {
        '7'
    } else if d == 8 {
        '8'
    } else {
        '9'
    }
}

/// `n` written in decimal, without sign or leading zeros.
pub open spec fn decimal(n: nat) -> Seq<char>
    decreases n,
{
    if n < 10 {
        seq![digit(n)]
    } else {
        decimal(n / 10).push(digit(n % 10))
    }
}

/// Different numbers are written differently.
pub proof fn lemma_decimal_injective(a: nat, b: nat)
    requires
        decimal(a) == decimal(b),
    ensures
        a == b,
    decreases a,
{
    lemma_decimal_len(a);
    lemma_decimal_len(b);
    if a >= 10 && b >= 10 {
        assert(decimal(a).drop_last() == decimal(a / 10));
        assert(decimal(b).drop_last() == decimal(b / 10));
        assert(decimal(a).last() == digit(a % 10));
        assert(decimal(b).last() == digit(b % 10));
        lemma_decimal_injective(a / 10, b / 10);
    } else if a < 10 && b < 10 {
        assert(decimal(a)[0] == digit(a));
        assert(decimal(b)[0] == digit(b));
    }
}

/// A number below ten is written with one digit, any other with more.
pub proof fn lemma_decimal_len(n: nat)
    ensures
        decimal(n).len() >= 1,
        n >= 10 ==> decimal(n).len() >= 2,
        n < 10 ==> decimal(n).len() == 1,
    decreases n,
{
    if n >= 10 {
        lemma_decimal_len(n / 10);
    }
}

fn digit_char(d: u64) -> (c: char)
    requires
        d < 10,
    ensures
        c == digit(d as nat),
{
    if d == 0 {
        '0'
    } else if d == 1 {
        '1'
    } else if d == 2 {
        '2'
    } else if d == 3 {
        '3'
    } else if d == 4 {
        '4'
    } else if d == 5 {
        '5'
    } else if d == 6 {
        '6'
    } else if d == 7 {
        '7'
    } else if d == 8 {
        '8'
    } else {
        '9'
    }
}

/// Writes `n` in decimal.
pub fn decimal_of(n: u64) -> (v: Vec<char>)
    ensures
        v@ == decimal(n as nat),
    decreases n,
{
    if n < 10 {
        let mut v: Vec<char> = Vec::new();
        v.push(digit_char(n));
        v
    } else {
        let mut v = decimal_of(n / 10);
        v.push(digit_char(n % 10));
        v
    }
}

/// `text` with each occurrence of `from` replaced by `to`, the occurrences
/// taken from left to right and none overlapping another. An empty `from`
/// occurs before each character and at the end.
pub open spec fn replaced_all(text: Seq<char>, from: Seq<char>, to: Seq<char>) -> Seq<char>
    decreases text.len(),
{
    if from.len() == 0 {
        if text.len() == 0 {
            to
        } else {
            to + seq![text[0]] + replaced_all(text.skip(1), from, to)
        }
    } else if text.len() < from.len() {
        text
    } else if occurs_at(text, 0, from) {
        to + replaced_all(text.skip(from.len() as int), from, to)
    } else {
        seq![text[0]] + replaced_all(text.skip(1), from, to)
    }
}

/// A text in which `from` occurs nowhere is left as it is.
pub proof fn lemma_replaced_all_without_occurrence(text: Seq<char>, from: Seq<char>, to: Seq<char>)
    requires
        from.len() > 0,
        forall|i: int| !occurs_at(text, i, from),
    ensures
        replaced_all(text, from, to) == text,
    decreases text.len(),
{
    if text.len() >= from.len() {
        assert(!occurs_at(text, 0, from));
        let rest = text.skip(1);
        assert forall|i: int| !occurs_at(rest, i, from) by {
            if occurs_at(rest, i, from) {
                assert(rest.subrange(i, i + from.len()) == text.subrange(i + 1, i + 1 + from.len()));
                assert(occurs_at(text, i + 1, from));
            }
        }
        lemma_replaced_all_without_occurrence(rest, from, to);
        assert(seq![text[0]] + rest == text);
    }
}

/// Whether `pattern` stands in `text` at index `at` and nowhere else.
pub open spec fn occurs_only_at(text: Seq<char>, at: int, pattern: Seq<char>) -> bool {
    occurs_at(text, at, pattern) && forall|i: int| occurs_at(text, i, pattern) ==> i == at
}

/// Replacing a pattern that occurs once changes that occurrence and nothing
/// before or behind it.
pub proof fn lemma_replaced_all_once(
    before: Seq<char>,
    after: Seq<char>,
    from: Seq<char>,
    to: Seq<char>,
)
    requires
        from.len() > 0,
        occurs_only_at(before + from + after, before.len() as int, from),
    ensures
        replaced_all(before + from + after, from, to) == before + to + after,
    decreases before.len(),
{
    let text = before + from + after;
    if before.len() == 0 {
        assert(text.skip(from.len() as int) == after);
        assert forall|i: int| !occurs_at(after, i, from) by {
            if occurs_at(after, i, from) {
                assert(after.subrange(i, i + from.len()) == text.subrange(
                    from.len() as int + i,
                    from.len() as int + i + from.len(),
                ));
                assert(occurs_at(text, from.len() + i, from));
            }
        }
        lemma_replaced_all_without_occurrence(after, from, to);
        assert(to + after == before + to + after);
    } else {
        let rest = before.skip(1);
        let tail = text.skip(1);
        assert(tail == rest + from + after);
        assert(occurs_at(tail, rest.len() as int, from)) by {
            assert(tail.subrange(rest.len() as int, (rest.len() + from.len()) as int)
                == text.subrange(before.len() as int, (before.len() + from.len()) as int));
        }
        assert forall|i: int| occurs_at(tail, i, from) implies i == rest.len() by {
            assert(tail.subrange(i, i + from.len()) == text.subrange(i + 1, i + 1 + from.len()));
            assert(occurs_at(text, i + 1, from));
        }
        lemma_replaced_all_once(rest, after, from, to);
        assert(!occurs_at(text, 0, from));
        assert(seq![text[0]] + (rest + to + after) == before + to + after);
    }
}

/// Replaces each occurrence of `from` in `text` by `to`.
pub fn replace_all(text: &Vec<char>, from: &Vec<char>, to: &Vec<char>) -> (out: Vec<char>)
    ensures
        out@ == replaced_all(text@, from@, to@),
{
    let mut out: Vec<char> = Vec::new();
    let mut i: usize = 0;
    assert(text@.skip(0) == text@);
    while i < text.len()
        invariant
            i <= text.len(),
            replaced_all(text@, from@, to@) == out@ + replaced_all(
                text@.skip(i as int),
                from@,
                to@,
            ),
        decreases text.len() - i,
    {
        let ghost rest = text@.skip(i as int);
        let ghost before = out@;
        assert(rest[0] == text@[i as int]);
        assert(rest.skip(1) == text@.skip(i + 1));
        if from.len() == 0 {
            append_chars(&mut out, to);
            out.push(text[i]);
            assert(out@ == before + (to@ + seq![text@[i as int]]));
            i = i + 1;
        } else if text.len() - i < from.len() {
            let tail = slice_of(text, i, text.len());
            assert(tail@ == rest);
            append_chars(&mut out, &tail);
            i = text.len();
            assert(text@.skip(i as int) == Seq::<char>::empty());
            assert(replaced_all(Seq::<char>::empty(), from@, to@) == Seq::<char>::empty());
            assert(out@ + Seq::<char>::empty() == out@);
        } else if matches_at(text, i, from) {
            assert(rest.subrange(0, from.len() as int) == text@.subrange(
                i as int,
                i + from.len(),
            ));
            assert(rest.skip(from.len() as int) == text@.skip(i + from.len()));
            append_chars(&mut out, to);
            i = i + from.len();
        } else {
            assert(rest.subrange(0, from.len() as int) == text@.subrange(
                i as int,
                i + from.len(),
            ));
            out.push(text[i]);
            assert(out@ == before + seq![text@[i as int]]);
            i = i + 1;
        }
    }
    assert(text@.skip(text.len() as int) == Seq::<char>::empty());
    if from.len() == 0 {
        append_chars(&mut out, to);
    } else {
        assert(out@ + Seq::<char>::empty() == out@);
    }
    out
}

} // verus!
