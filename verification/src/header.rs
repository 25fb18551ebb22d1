//! Rewriting the value of one field inside the text of a metadata header.
//!
//! The header is treated as lines of text. Only the lines that give the
//! field its value change; every other character is kept, line endings
//! included.

use crate::text::{
    append_chars, concatenated, contains_char, count_leading_spaces, drop_blank_lines, is_blank,
    is_space, joined_with, leading_spaces, lemma_concatenated_front, lemma_non_blank_keeps_no_blank,
    lemma_whole_lines_give_text, line_ending, line_text, line_text_len, lines_of, non_blank, rows,
    slice_of, split_lines, split_whole_lines, starts_with, trim_start, whole_lines_of,
};
use vstd::prelude::*;

verus! {

/// The shape of what stands behind `field:` on a line.
#[derive(Debug, Clone, Copy)]
pub enum ValueShape {
    /// A block indicator, `>` or `|`: the value is on the lines that follow.
    Block,
    /// A value between double quotes.
    DoubleQuoted,
    /// A value between single quotes.
    SingleQuoted,
    /// Any other value on the same line.
    Plain,
    /// Nothing.
    Empty,
}

/// Whether `line` begins with `field` and a colon.
pub open spec fn is_field_line(line: Seq<char>, field: Seq<char>) -> bool {
    field.push(':').is_prefix_of(line)
}

/// What a field line holds behind the colon, without leading white space.
pub open spec fn value_part(line: Seq<char>, field: Seq<char>) -> Seq<char> {
    trim_start(line.skip(field.len() as int + 1))
}

/// The shape of the value part `part` of a field line. A lone `>` or `|` is a
/// block indicator; a part that begins and ends with the same quote is
/// quoted, be it the quote alone.
pub open spec fn shape_of(part: Seq<char>) -> ValueShape {
    if part == seq!['>'] || part == seq!['|'] {
        ValueShape::Block
    } else if part.len() > 0 && part[0] == '"' && part.last() == '"' {
        ValueShape::DoubleQuoted
    } else if part.len() > 0 && part[0] == '\'' && part.last() == '\'' {
        ValueShape::SingleQuoted
    } else if part.len() > 0 {
        ValueShape::Plain
    } else {
        ValueShape::Empty
    }
}

/// Whether `line` continues a block: it is blank or begins with white space.
pub open spec fn is_continuation(line: Seq<char>) -> bool {
    is_blank(line) || leading_spaces(line) > 0
}

/// Each line behind two spaces.
pub open spec fn indented(lines: Seq<Seq<char>>) -> Seq<Seq<char>> {
    lines.map_values(|l: Seq<char>| seq![' ', ' '] + l)
}

/// `field: value` on one line.
pub open spec fn scalar_line(field: Seq<char>, value: Seq<char>) -> Seq<char> {
    field + seq![':', ' '] + value
}

/// The lines for a value that may span lines. Blank lines of the value are
/// dropped. One line left gives `field: line`; any other number gives
/// `field: >` and each line behind two spaces.
pub open spec fn block_form(field: Seq<char>, value: Seq<char>) -> Seq<Seq<char>> {
    let kept = non_blank(lines_of(value));
    if kept.len() == 1 {
        seq![scalar_line(field, kept[0])]
    } else {
        seq![field + seq![':', ' ', '>']] + indented(kept)
    }
}

/// The lines that take the place of a field line.
pub open spec fn replacement(line: Seq<char>, field: Seq<char>, value: Seq<char>) -> Seq<
    Seq<char>,
> {
    match shape_of(value_part(line, field)) {
        ValueShape::Block => block_form(field, value),
        ValueShape::DoubleQuoted => seq![field + seq![':', ' ', '"'] + value + seq!['"']],
        ValueShape::SingleQuoted => seq![field + seq![':', ' ', '\''] + value + seq!['\'']],
        ValueShape::Plain => if value.contains('\n') {
            block_form(field, value)
        } else {
            seq![scalar_line(field, value)]
        },
        ValueShape::Empty => seq![line],
    }
}

/// What stands between the lines that take the place of a field line: what
/// ends the field line, or a line feed where nothing ends it.
pub open spec fn between(ending: Seq<char>) -> Seq<char> {
    if ending.len() == 0 {
        seq!['\n']
    } else {
        ending
    }
}

/// The lines with `between(ending)` between each two and `ending` behind the
/// last: the text that takes the place of a field line with that ending.
pub open spec fn ended(lines: Seq<Seq<char>>, ending: Seq<char>) -> Seq<char> {
    joined_with(lines, between(ending)) + ending
}

/// The text of the header's lines with the field's value replaced. Each of
/// `wholes` is a line with what ends it. A line that is no field line is
/// kept whole. A field line gives way to its replacement, which ends as the
/// line did. `in_block` says that the lines come directly after a block
/// indicator of the field, so that continuation lines at their start belong
/// to the old value and are dropped.
pub open spec fn rewritten(
    wholes: Seq<Seq<char>>,
    field: Seq<char>,
    value: Seq<char>,
    in_block: bool,
) -> Seq<char>
    decreases wholes.len(),
{
    if wholes.len() == 0 {
        Seq::empty()
    } else {
        let whole = wholes[0];
        let line = line_text(whole);
        let rest = wholes.skip(1);
        if in_block && is_continuation(line) {
            rewritten(rest, field, value, true)
        } else if is_field_line(line, field) {
            ended(replacement(line, field, value), line_ending(whole)) + rewritten(
                rest,
                field,
                value,
                shape_of(value_part(line, field)) is Block,
            )
        } else {
            whole + rewritten(rest, field, value, false)
        }
    }
}

/// The header text with the field's value replaced: every character outside
/// the lines that give the field its value is kept, line endings included.
pub open spec fn rewritten_field(header: Seq<char>, field: Seq<char>, value: Seq<char>) -> Seq<
    char,
> {
    rewritten(whole_lines_of(header), field, value, false)
}

/// Whether none of the lines is a field line.
pub open spec fn no_field_line(wholes: Seq<Seq<char>>, field: Seq<char>) -> bool {
    forall|i: int| 0 <= i < wholes.len() ==> !is_field_line(line_text(#[trigger] wholes[i]), field)
}

/// Lines before the first field line are kept as they are.
pub proof fn lemma_lines_before_field_kept(
    before: Seq<Seq<char>>,
    rest: Seq<Seq<char>>,
    field: Seq<char>,
    value: Seq<char>,
)
    requires
        no_field_line(before, field),
    ensures
        rewritten(before + rest, field, value, false) == concatenated(before) + rewritten(
            rest,
            field,
            value,
            false,
        ),
    decreases before.len(),
{
    if before.len() == 0 {
        assert(before + rest == rest);
        assert(concatenated(before) + rewritten(rest, field, value, false) == rewritten(
            rest,
            field,
            value,
            false,
        ));
    } else {
        let all = before + rest;
        let tail = before.skip(1);
        assert(all[0] == before[0]);
        assert(all.skip(1) == tail + rest);
        assert forall|i: int| 0 <= i < tail.len() implies !is_field_line(
            line_text(#[trigger] tail[i]),
            field,
        ) by {
            assert(tail[i] == before[i + 1]);
        }
        lemma_lines_before_field_kept(tail, rest, field, value);
        lemma_concatenated_front(before[0], tail);
        assert(seq![before[0]] + tail == before);
        assert(before[0] + (concatenated(tail) + rewritten(rest, field, value, false)) == before[0]
            + concatenated(tail) + rewritten(rest, field, value, false));
    }
}

/// A header without a field line is kept as it is, character by character.
pub proof fn lemma_header_without_field_kept(header: Seq<char>, field: Seq<char>, value: Seq<char>)
    requires
        no_field_line(whole_lines_of(header), field),
    ensures
        rewritten_field(header, field, value) == header,
{
    let wholes = whole_lines_of(header);
    lemma_lines_before_field_kept(wholes, Seq::empty(), field, value);
    assert(wholes + Seq::<Seq<char>>::empty() == wholes);
    lemma_whole_lines_give_text(header);
    assert(header + Seq::<char>::empty() == header);
}

/// The continuation lines directly behind a block indicator are dropped, and
/// the first line that is no continuation is read as any other line.
pub proof fn lemma_block_lines_dropped(
    block: Seq<Seq<char>>,
    after: Seq<Seq<char>>,
    field: Seq<char>,
    value: Seq<char>,
)
    requires
        forall|i: int| 0 <= i < block.len() ==> is_continuation(line_text(#[trigger] block[i])),
        after.len() == 0 || !is_continuation(line_text(after[0])),
    ensures
        rewritten(block + after, field, value, true) == rewritten(after, field, value, false),
    decreases block.len(),
{
    if block.len() == 0 {
        assert(block + after == after);
    } else {
        let all = block + after;
        let tail = block.skip(1);
        assert(all[0] == block[0]);
        assert(all.skip(1) == tail + after);
        assert forall|i: int| 0 <= i < tail.len() implies is_continuation(
            line_text(#[trigger] tail[i]),
        ) by {
            assert(tail[i] == block[i + 1]);
        }
        lemma_block_lines_dropped(tail, after, field, value);
    }
}

/// Rewriting a field whose value stands on its own line changes that line
/// alone: where no other line is a field line, every character before and
/// behind the line is kept, and the line gives way to its replacement,
/// which ends as the line did. For a value between double quotes that is
/// `field: "value"`, for one between single quotes `field: 'value'`.
pub proof fn lemma_scalar_rewrite_changes_one_line(
    before: Seq<Seq<char>>,
    whole: Seq<char>,
    after: Seq<Seq<char>>,
    field: Seq<char>,
    value: Seq<char>,
)
    requires
        no_field_line(before, field),
        no_field_line(after, field),
        is_field_line(line_text(whole), field),
        !(shape_of(value_part(line_text(whole), field)) is Block),
    ensures
        rewritten(before + seq![whole] + after, field, value, false) == concatenated(before)
            + ended(replacement(line_text(whole), field, value), line_ending(whole))
            + concatenated(after),
        shape_of(value_part(line_text(whole), field)) is DoubleQuoted ==> ended(
            replacement(line_text(whole), field, value),
            line_ending(whole),
        ) == field + seq![':', ' ', '"'] + value + seq!['"'] + line_ending(whole),
        shape_of(value_part(line_text(whole), field)) is SingleQuoted ==> ended(
            replacement(line_text(whole), field, value),
            line_ending(whole),
        ) == field + seq![':', ' ', '\''] + value + seq!['\''] + line_ending(whole),
{
    let rest = seq![whole] + after;
    assert(before + seq![whole] + after == before + rest);
    lemma_lines_before_field_kept(before, rest, field, value);
    assert(rest[0] == whole);
    assert(rest.skip(1) == after);
    lemma_lines_before_field_kept(after, Seq::empty(), field, value);
    assert(after + Seq::<Seq<char>>::empty() == after);
    let put = ended(replacement(line_text(whole), field, value), line_ending(whole));
    assert(rewritten(after, field, value, false) == concatenated(after)) by {
        assert(concatenated(after) + Seq::<char>::empty() == concatenated(after));
    }
    assert(concatenated(before) + (put + concatenated(after)) == concatenated(before) + put
        + concatenated(after));
}

/// Rewriting a field given as a block replaces the indicator line and the
/// whole block by `block_form(field, value)`, which ends as the indicator
/// line did: where no other line is a field line, every character before
/// the field and behind its block is kept.
pub proof fn lemma_block_rewrite_replaces_block(
    before: Seq<Seq<char>>,
    whole: Seq<char>,
    block: Seq<Seq<char>>,
    after: Seq<Seq<char>>,
    field: Seq<char>,
    value: Seq<char>,
)
    requires
        no_field_line(before, field),
        no_field_line(after, field),
        is_field_line(line_text(whole), field),
        shape_of(value_part(line_text(whole), field)) is Block,
        forall|i: int| 0 <= i < block.len() ==> is_continuation(line_text(#[trigger] block[i])),
        after.len() == 0 || !is_continuation(line_text(after[0])),
    ensures
        rewritten(before + seq![whole] + block + after, field, value, false) == concatenated(
            before,
        ) + ended(block_form(field, value), line_ending(whole)) + concatenated(after),
{
    let rest = seq![whole] + block + after;
    assert(before + seq![whole] + block + after == before + rest);
    lemma_lines_before_field_kept(before, rest, field, value);
    assert(rest[0] == whole);
    assert(rest.skip(1) == block + after);
    lemma_block_lines_dropped(block, after, field, value);
    lemma_lines_before_field_kept(after, Seq::empty(), field, value);
    assert(after + Seq::<Seq<char>>::empty() == after);
    let put = ended(block_form(field, value), line_ending(whole));
    assert(rewritten(after, field, value, false) == concatenated(after)) by {
        assert(concatenated(after) + Seq::<char>::empty() == concatenated(after));
    }
    assert(concatenated(before) + (put + concatenated(after)) == concatenated(before) + put
        + concatenated(after));
}

/// A last line that is neither a field line nor a continuation line is
/// kept whole, with what ends it: the result ends as the header does.
pub proof fn lemma_last_line_kept(
    front: Seq<Seq<char>>,
    last: Seq<char>,
    field: Seq<char>,
    value: Seq<char>,
    in_block: bool,
)
    requires
        !is_field_line(line_text(last), field),
        !is_continuation(line_text(last)),
    ensures
        rewritten(front.push(last), field, value, in_block) == rewritten(
            front,
            field,
            value,
            in_block,
        ) + last,
    decreases front.len(),
{
    let all = front.push(last);
    if front.len() == 0 {
        assert(all[0] == last);
        assert(all.skip(1) == Seq::<Seq<char>>::empty());
        assert(rewritten(all.skip(1), field, value, false) == Seq::<char>::empty());
        assert(rewritten(all, field, value, in_block) == last + Seq::<char>::empty());
        assert(rewritten(front, field, value, in_block) == Seq::<char>::empty());
        assert(last + Seq::<char>::empty() == Seq::<char>::empty() + last);
    } else {
        let tail = front.skip(1);
        assert(all[0] == front[0]);
        assert(all.skip(1) == tail.push(last));
        let line = line_text(front[0]);
        if in_block && is_continuation(line) {
            lemma_last_line_kept(tail, last, field, value, true);
            assert(rewritten(all, field, value, in_block) == rewritten(
                tail.push(last),
                field,
                value,
                true,
            ));
        } else if is_field_line(line, field) {
            let then = shape_of(value_part(line, field)) is Block;
            lemma_last_line_kept(tail, last, field, value, then);
            let put = ended(replacement(line, field, value), line_ending(front[0]));
            assert(rewritten(all, field, value, in_block) == put + rewritten(
                tail.push(last),
                field,
                value,
                then,
            ));
            assert(rewritten(front, field, value, in_block) == put + rewritten(
                tail,
                field,
                value,
                then,
            ));
            assert(put + (rewritten(tail, field, value, then) + last) == put + rewritten(
                tail,
                field,
                value,
                then,
            ) + last);
        } else {
            lemma_last_line_kept(tail, last, field, value, false);
            assert(rewritten(all, field, value, in_block) == front[0] + rewritten(
                tail.push(last),
                field,
                value,
                false,
            ));
            assert(front[0] + (rewritten(tail, field, value, false) + last) == front[0]
                + rewritten(tail, field, value, false) + last);
        }
    }
}

/// The result ends as the header does: where the last line of the header is
/// neither a field line nor a continuation line, the result is what the
/// lines before it give, and behind that the last line whole, with what
/// ends it.
pub proof fn lemma_end_of_header_kept(header: Seq<char>, field: Seq<char>, value: Seq<char>)
    requires
        whole_lines_of(header).len() > 0,
        !is_field_line(line_text(whole_lines_of(header).last()), field),
        !is_continuation(line_text(whole_lines_of(header).last())),
    ensures
        rewritten_field(header, field, value) == rewritten(
            whole_lines_of(header).drop_last(),
            field,
            value,
            false,
        ) + whole_lines_of(header).last(),
{
    let wholes = whole_lines_of(header);
    assert(wholes.drop_last().push(wholes.last()) == wholes);
    lemma_last_line_kept(wholes.drop_last(), wholes.last(), field, value, false);
}

/// A line behind two spaces is blank exactly if the line is.
pub proof fn lemma_indented_blank(line: Seq<char>)
    ensures
        is_blank(seq![' ', ' '] + line) == is_blank(line),
        leading_spaces(seq![' ', ' '] + line) == 2 + leading_spaces(line),
{
    let a = seq![' ', ' '] + line;
    let b = seq![' '] + line;
    assert(a.skip(1) == b);
    assert(b.skip(1) == line);
    assert(' ' as u32 == 0x20);
    assert(is_space(' '));
    assert(a[0] == ' ' && b[0] == ' ');
    assert(leading_spaces(b) == 1 + leading_spaces(line));
    assert(leading_spaces(a) == 1 + leading_spaces(b));
}

/// The block form of a value that has other than one line that is not blank:
/// `field: >`, then each such line of the value behind two spaces, in order,
/// and no blank line among them. With exactly one such line the form is the
/// single line `field: line`.
pub proof fn lemma_block_form_lines(field: Seq<char>, value: Seq<char>)
    ensures
        non_blank(lines_of(value)).len() == 1 ==> block_form(field, value) == seq![
            scalar_line(field, non_blank(lines_of(value))[0]),
        ],
        non_blank(lines_of(value)).len() != 1 ==> {
            &&& block_form(field, value).len() == 1 + non_blank(lines_of(value)).len()
            &&& block_form(field, value)[0] == field + seq![':', ' ', '>']
            &&& forall|i: int|
                0 <= i < non_blank(lines_of(value)).len() ==> {
                    &&& #[trigger] block_form(field, value)[i + 1] == seq![' ', ' '] + non_blank(
                        lines_of(value),
                    )[i]
                    &&& !is_blank(block_form(field, value)[i + 1])
                }
        },
{
    let kept = non_blank(lines_of(value));
    lemma_non_blank_keeps_no_blank(lines_of(value));
    if kept.len() != 1 {
        assert forall|i: int| 0 <= i < kept.len() implies {
            &&& #[trigger] block_form(field, value)[i + 1] == seq![' ', ' '] + kept[i]
            &&& !is_blank(block_form(field, value)[i + 1])
        } by {
            lemma_indented_blank(kept[i]);
            assert(indented(kept)[i] == seq![' ', ' '] + kept[i]);
        }
    }
}

/// Tells the shape of the value part of `line`, which starts at index `from`.
pub fn classify(line: &Vec<char>, from: usize) -> (shape: ValueShape)
    requires
        from <= line.len(),
    ensures
        shape == shape_of(line@.skip(from as int)),
{
    let ghost part = line@.skip(from as int);
    let n = line.len() - from;
    if n == 0 {
        return ValueShape::Empty;
    }
    let first = line[from];
    let last = line[line.len() - 1];
    assert(part[0] == first && part.last() == last);
    if n == 1 && (first == '>' || first == '|') {
        assert(part =~= seq![first]);
        ValueShape::Block
    } else if first == '"' && last == '"' {
        ValueShape::DoubleQuoted
    } else if first == '\'' && last == '\'' {
        ValueShape::SingleQuoted
    } else {
        ValueShape::Plain
    }
}

/// Whether `line` is blank or begins with white space.
pub fn continues_block(line: &Vec<char>) -> (b: bool)
    ensures
        b == is_continuation(line@),
{
    let n = count_leading_spaces(line, 0);
    assert(line@.skip(0) == line@);
    n == line.len() || n > 0
}

/// Builds the lines for a value that may span lines.
pub fn block_lines(field: &Vec<char>, value: &Vec<char>) -> (lines: Vec<Vec<char>>)
    ensures
        rows(lines@) == block_form(field@, value@),
{
    let kept = drop_blank_lines(split_lines(value));
    let mut lines: Vec<Vec<char>> = Vec::new();
    let mut head = slice_of(field, 0, field.len());
    assert(head@ == field@);
    head.push(':');
    head.push(' ');
    if kept.len() == 1 {
        append_chars(&mut head, &kept[0]);
        assert(head@ == scalar_line(field@, kept@[0]@));
        lines.push(head);
        assert(rows(lines@) == seq![scalar_line(field@, rows(kept@)[0])]);
    } else {
        head.push('>');
        assert(head@ == field@ + seq![':', ' ', '>']);
        lines.push(head);
        let mut i: usize = 0;
        while i < kept.len()
            invariant
                i <= kept.len(),
                rows(lines@) == seq![field@ + seq![':', ' ', '>']] + indented(rows(kept@)).take(
                    i as int,
                ),
            decreases kept.len() - i,
        {
            let ghost before = lines@;
            let mut row: Vec<char> = Vec::new();
            row.push(' ');
            row.push(' ');
            append_chars(&mut row, &kept[i]);
            assert(row@ == seq![' ', ' '] + kept@[i as int]@);
            lines.push(row);
            i = i + 1;
            assert(indented(rows(kept@)).take(i as int) == indented(rows(kept@)).take(i - 1).push(
                seq![' ', ' '] + kept@[i - 1]@,
            ));
            assert(rows(lines@) == rows(before).push(seq![' ', ' '] + kept@[i - 1]@));
        }
        assert(indented(rows(kept@)).take(kept.len() as int) == indented(rows(kept@)));
    }
    lines
}

/// Builds the lines that take the place of a field line.
pub fn replacement_lines(line: &Vec<char>, field: &Vec<char>, value: &Vec<char>) -> (r: (
    Vec<Vec<char>>,
    bool,
))
    requires
        is_field_line(line@, field@),
    ensures
        rows(r.0@) == replacement(line@, field@, value@),
        r.1 == (shape_of(value_part(line@, field@)) is Block),
{
    assert(field@.push(':').len() <= line@.len());
    assert(field.len() + 1 <= line.len());
    let start: usize = field.len() + 1;
    let from: usize = start + count_leading_spaces(line, start);
    assert(line@.skip(from as int) == value_part(line@, field@));
    let mut head = slice_of(field, 0, field.len());
    assert(head@ == field@);
    head.push(':');
    head.push(' ');
    let mut lines: Vec<Vec<char>> = Vec::new();
    match classify(line, from) {
        ValueShape::Block => (block_lines(field, value), true),
        ValueShape::DoubleQuoted => {
            head.push('"');
            append_chars(&mut head, value);
            head.push('"');
            assert(head@ == field@ + seq![':', ' ', '"'] + value@ + seq!['"']);
            lines.push(head);
            assert(rows(lines@) == seq![field@ + seq![':', ' ', '"'] + value@ + seq!['"']]);
            (lines, false)
        },
        ValueShape::SingleQuoted => {
            head.push('\'');
            append_chars(&mut head, value);
            head.push('\'');
            assert(head@ == field@ + seq![':', ' ', '\''] + value@ + seq!['\'']);
            lines.push(head);
            assert(rows(lines@) == seq![field@ + seq![':', ' ', '\''] + value@ + seq!['\'']]);
            (lines, false)
        },
        ValueShape::Plain => {
            if contains_char(value, '\n') {
                (block_lines(field, value), false)
            } else {
                append_chars(&mut head, value);
                assert(head@ == scalar_line(field@, value@));
                lines.push(head);
                assert(rows(lines@) == seq![scalar_line(field@, value@)]);
                (lines, false)
            }
        },
        ValueShape::Empty => {
            let copy = slice_of(line, 0, line.len());
            assert(copy@ == line@);
            lines.push(copy);
            assert(rows(lines@) == seq![line@]);
            (lines, false)
        },
    }
}

/// Appends to `out` the lines with `between(ending)` between each two and
/// `ending` behind the last.
pub fn append_ended(out: &mut Vec<char>, lines: &Vec<Vec<char>>, ending: &Vec<char>)
    ensures
        final(out)@ == old(out)@ + ended(rows(lines@), ending@),
{
    let mut gap = slice_of(ending, 0, ending.len());
    assert(gap@ == ending@);
    if ending.len() == 0 {
        gap.push('\n');
        assert(gap@ == seq!['\n']);
    }
    let mut put: Vec<char> = Vec::new();
    let mut i: usize = 0;
    while i < lines.len()
        invariant
            i <= lines.len(),
            gap@ == between(ending@),
            put@ == joined_with(rows(lines@).take(i as int), gap@),
        decreases lines.len() - i,
    {
        if i > 0 {
            append_chars(&mut put, &gap);
        }
        append_chars(&mut put, &lines[i]);
        i = i + 1;
        proof {
            let now = rows(lines@).take(i as int);
            assert(now.drop_last() == rows(lines@).take(i - 1));
            assert(now.last() == lines@[i - 1]@);
        }
    }
    assert(rows(lines@).take(lines.len() as int) == rows(lines@));
    append_chars(&mut put, ending);
    append_chars(out, &put);
}

/// Replaces the value of `field` in the header text `header` by `value`.
/// Every character outside the lines that give the field its value is kept.
pub fn rewrite_field(header: &Vec<char>, field: &Vec<char>, value: &Vec<char>) -> (out: Vec<char>)
    ensures
        out@ == rewritten_field(header@, field@, value@),
{
    let wholes = split_whole_lines(header);
    let mut prefix = slice_of(field, 0, field.len());
    assert(prefix@ == field@);
    prefix.push(':');
    let mut out: Vec<char> = Vec::new();
    let mut in_block = false;
    let mut i: usize = 0;
    let ghost all = rows(wholes@);
    assert(all.skip(0) == all);
    assert(out@ + rewritten(all, field@, value@, false) == rewritten(all, field@, value@, false));
    while i < wholes.len()
        invariant
            i <= wholes.len(),
            all == rows(wholes@),
            prefix@ == field@.push(':'),
            rewritten(all, field@, value@, false) == out@ + rewritten(
                all.skip(i as int),
                field@,
                value@,
                in_block,
            ),
        decreases wholes.len() - i,
    {
        let ghost before = out@;
        let ghost was = in_block;
        assert(all.skip(i as int).skip(1) == all.skip(i + 1));
        assert(all.skip(i as int)[0] == wholes@[i as int]@);
        let n: usize = line_text_len(&wholes[i]);
        let line = slice_of(&wholes[i], 0, n);
        assert(line@ == line_text(wholes@[i as int]@));
        if in_block && continues_block(&line) {
        } else if starts_with(&line, &prefix) {
            let (more, block) = replacement_lines(&line, field, value);
            let ending = slice_of(&wholes[i], n, wholes[i].len());
            assert(ending@ == line_ending(wholes@[i as int]@));
            append_ended(&mut out, &more, &ending);
            in_block = block;
            assert(before + (ended(rows(more@), ending@) + rewritten(
                all.skip(i + 1),
                field@,
                value@,
                in_block,
            )) == out@ + rewritten(all.skip(i + 1), field@, value@, in_block));
        } else {
            append_chars(&mut out, &wholes[i]);
            in_block = false;
            assert(before + (wholes@[i as int]@ + rewritten(
                all.skip(i + 1),
                field@,
                value@,
                false,
            )) == out@ + rewritten(all.skip(i + 1), field@, value@, false));
        }
        i = i + 1;
    }
    assert(all.skip(wholes.len() as int) == Seq::<Seq<char>>::empty());
    assert(out@ + Seq::<char>::empty() == out@);
    out
}

} // verus!
