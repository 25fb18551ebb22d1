//! Taking a document apart: its metadata header, its body, and the fenced
//! code blocks of the body, which are kept from translation behind
//! placeholders.

use crate::fields::{fields_of, get_string_field, parse_yaml_frontmatter, string_field, FieldValue};
use crate::header::{rewrite_field, rewritten_field};
use crate::pattern::{
    all_match_groups, all_matches, escape, escaped, first_match, first_match_groups,
    first_replaced, groups_view, matches_view, replace_first,
};
use crate::text::{
    append_chars, chars_of, decimal, decimal_of, lemma_decimal_injective, lemma_replaced_all_once,
    occurs_only_at, replace_all, replaced_all, same_chars, slice_of, starts_with, string_of,
};
use vstd::prelude::*;

verus! {

/// The pattern of a metadata header: at the start of the document a line of
/// three dashes, the header's text, and again a line of three dashes.
pub open spec fn frontmatter_pattern() -> Seq<char> {
    "(?s)^---\\s*\\n(.*?)\\n---\\s*\\n"@
}

/// The pattern of a fenced code block: three backticks, a language tag that
/// may be empty, a line feed, the code, and three backticks.
pub open spec fn code_block_pattern() -> Seq<char> {
    "(?s)```(\\w*)\\n(.*?)```"@
}

/// A document taken apart.
#[derive(Debug)]
pub struct ParsedContent {
    /// The header as it stands in the document, delimiters included; empty
    /// where the document has none.
    pub frontmatter: String,
    /// The fields of the header.
    pub frontmatter_dict: Vec<(String, FieldValue)>,
    /// What follows the header.
    pub body: String,
    /// The code blocks of the body in order: language tag, code, placeholder.
    pub code_blocks: Vec<(String, String, String)>,
}

/// Takes documents apart and puts them together again.
pub struct ContentParser {}

/// The code blocks as mathematical values.
pub open spec fn blocks_view(blocks: Seq<(String, String, String)>) -> Seq<
    (Seq<char>, Seq<char>, Seq<char>),
> {
    blocks.map_values(|b: (String, String, String)| (b.0@, b.1@, b.2@))
}

/// The header that a match of the header pattern gives: the whole match
/// and the text between the delimiters, where the match has both and the
/// whole match stands at the start of the document.
pub open spec fn header_in(content: Seq<char>, groups: Option<Seq<Option<Seq<char>>>>) -> Option<
    (Seq<char>, Seq<char>),
> {
    match groups {
        Some(groups) => if groups.len() >= 2 && groups[0] is Some && groups[1] is Some
            && groups[0]->0.is_prefix_of(content) {
            Some((groups[0]->0, groups[1]->0))
        } else {
            None
        },
        None => None,
    }
}

/// The header match of a document: the whole header and the text between
/// its delimiters.
pub open spec fn header_match(content: Seq<char>) -> Option<(Seq<char>, Seq<char>)> {
    header_in(content, first_match_groups(frontmatter_pattern(), content))
}

/// The groups of a match, if there is one, as mathematical values.
pub open spec fn found_view(groups: Option<Vec<Option<String>>>) -> Option<
    Seq<Option<Seq<char>>>,
> {
    match groups {
        Some(groups) => Some(groups_view(groups@)),
        None => None,
    }
}

/// The header of a document; empty where it has none.
pub open spec fn frontmatter_of(content: Seq<char>) -> Seq<char> {
    match header_match(content) {
        Some((whole, _)) => whole,
        None => Seq::empty(),
    }
}

/// What follows the header of a document; the document where it has none.
pub open spec fn body_of(content: Seq<char>) -> Seq<char> {
    match header_match(content) {
        Some((whole, _)) => content.skip(whole.len() as int),
        None => content,
    }
}

/// The placeholder of the code block with index `i`.
pub open spec fn placeholder(i: nat) -> Seq<char> {
    "___CODE_BLOCK_"@ + decimal(i) + "___"@
}

/// What a group matched; empty for a group that is missing or took no part.
pub open spec fn group_text(groups: Seq<Option<Seq<char>>>, i: int) -> Seq<char> {
    if 0 <= i < groups.len() {
        match groups[i] {
            Some(text) => text,
            None => Seq::empty(),
        }
    } else {
        Seq::empty()
    }
}

/// The code blocks that the matches of the code block pattern give: of
/// each match the language tag and the code, with the placeholder of the
/// match's index.
pub open spec fn blocks_from(found: Seq<Seq<Option<Seq<char>>>>) -> Seq<
    (Seq<char>, Seq<char>, Seq<char>),
> {
    Seq::new(
        found.len(),
        |i: int| (group_text(found[i], 1), group_text(found[i], 2), placeholder(i as nat)),
    )
}

/// The code blocks of a body, each with the placeholder of its index.
pub open spec fn blocks_of(body: Seq<char>) -> Seq<(Seq<char>, Seq<char>, Seq<char>)> {
    blocks_from(all_match_groups(code_block_pattern(), body))
}

/// Header and body, one behind the other, are the document.
pub proof fn lemma_header_and_body_give_document(content: Seq<char>)
    ensures
        frontmatter_of(content) + body_of(content) == content,
{
    match header_match(content) {
        Some((whole, _)) => {
            assert(whole + content.skip(whole.len() as int) =~= content);
        },
        None => {
            assert(Seq::<char>::empty() + content =~= content);
        },
    }
}

/// Three backticks.
pub open spec fn fence() -> Seq<char> {
    seq!['`', '`', '`']
}

/// A code block as it stands in a document.
pub open spec fn fenced(language: Seq<char>, code: Seq<char>) -> Seq<char> {
    fence() + language + seq!['\n'] + code + fence()
}

/// The pattern that matches a code block as it stands in a document.
pub open spec fn block_pattern(language: Seq<char>, code: Seq<char>) -> Seq<char> {
    fence() + escaped(language) + seq!['\n'] + escaped(code) + fence()
}

/// The body with the first occurrence of each block replaced by the block's
/// placeholder, the blocks taken in order. A block whose pattern does not
/// compile is left in the body.
pub open spec fn substituted(body: Seq<char>, blocks: Seq<(Seq<char>, Seq<char>, Seq<char>)>) -> Seq<
    char,
>
    decreases blocks.len(),
{
    if blocks.len() == 0 {
        body
    } else {
        let before = substituted(body, blocks.drop_last());
        let block = blocks.last();
        match first_replaced(block_pattern(block.0, block.1), before, block.2) {
            Some(after) => after,
            None => before,
        }
    }
}

/// The body with each occurrence of each block's placeholder replaced by the
/// block as it stood in the document, the blocks taken in order.
pub open spec fn restored(body: Seq<char>, blocks: Seq<(Seq<char>, Seq<char>, Seq<char>)>) -> Seq<
    char,
>
    decreases blocks.len(),
{
    if blocks.len() == 0 {
        body
    } else {
        let block = blocks.last();
        replaced_all(restored(body, blocks.drop_last()), block.2, fenced(block.0, block.1))
    }
}

/// Whether `parsed` is the document `content` taken apart.
pub open spec fn is_parse_of(content: Seq<char>, parsed: ParsedContent) -> bool {
    &&& parsed.frontmatter@ == frontmatter_of(content)
    &&& parsed.body@ == body_of(content)
    &&& match header_match(content) {
        Some((_, inner)) => fields_of(inner, parsed.frontmatter_dict@),
        None => parsed.frontmatter_dict@.len() == 0,
    }
    &&& blocks_view(parsed.code_blocks@) == blocks_of(parsed.body@)
}

/// Whether a field of the header is one whose value gets translated.
pub open spec fn translatable(field: Seq<char>) -> bool {
    field == "description"@
}

/// The placeholders of different blocks differ.
pub proof fn lemma_placeholders_differ(i: nat, j: nat)
    requires
        i != j,
    ensures
        placeholder(i) != placeholder(j),
{
    let head = "___CODE_BLOCK_"@;
    let tail = "___"@;
    if placeholder(i) == placeholder(j) {
        let a = head + decimal(i) + tail;
        let b = head + decimal(j) + tail;
        assert(a.len() == b.len());
        assert(decimal(i).len() == decimal(j).len());
        assert forall|k: int| 0 <= k < decimal(i).len() implies decimal(i)[k] == decimal(j)[k] by {
            assert(a[head.len() + k] == decimal(i)[k]);
            assert(b[head.len() + k] == decimal(j)[k]);
        }
        assert(decimal(i) =~= decimal(j));
        lemma_decimal_injective(i, j);
    }
}

/// No two code blocks of a body have the same placeholder.
pub proof fn lemma_blocks_have_own_placeholders(body: Seq<char>, i: int, j: int)
    requires
        0 <= i < j < blocks_of(body).len(),
    ensures
        blocks_of(body)[i].2 != blocks_of(body)[j].2,
{
    lemma_placeholders_differ(i as nat, j as nat);
}

/// Restoring undoes a substitution: where a placeholder stands in the place
/// of a block and occurs nowhere else, restoring the block puts it back
/// where it stood and leaves the text around it as it is.
pub proof fn lemma_restore_undoes_substitution(
    before: Seq<char>,
    after: Seq<char>,
    block: (Seq<char>, Seq<char>, Seq<char>),
)
    requires
        block.2.len() > 0,
        occurs_only_at(before + block.2 + after, before.len() as int, block.2),
    ensures
        restored(before + block.2 + after, seq![block]) == before + fenced(block.0, block.1)
            + after,
{
    let blocks = seq![block];
    assert(blocks.drop_last() == Seq::<(Seq<char>, Seq<char>, Seq<char>)>::empty());
    assert(restored(before + block.2 + after, blocks.drop_last()) == before + block.2 + after);
    lemma_replaced_all_once(before, after, block.2, fenced(block.0, block.1));
}

/// The text up to the placeholder of block `k`: the texts between the
/// blocks up to there, with the blocks before `k` in their places.
pub open spec fn restored_before(
    between: Seq<Seq<char>>,
    blocks: Seq<(Seq<char>, Seq<char>, Seq<char>)>,
    k: int,
) -> Seq<char>
    decreases k,
{
    if k <= 0 {
        between[0]
    } else {
        restored_before(between, blocks, k - 1) + fenced(blocks[k - 1].0, blocks[k - 1].1)
            + between[k]
    }
}

/// The text behind the placeholder of block `k`: the texts between the
/// blocks from there on, with the placeholders of the blocks behind `k` in
/// their places.
pub open spec fn waiting_behind(
    between: Seq<Seq<char>>,
    blocks: Seq<(Seq<char>, Seq<char>, Seq<char>)>,
    k: int,
) -> Seq<char>
    decreases blocks.len() - k,
{
    if k >= blocks.len() - 1 {
        between[k + 1]
    } else {
        between[k + 1] + blocks[k + 1].2 + waiting_behind(between, blocks, k + 1)
    }
}

/// The text with the blocks before `k` in their places and the placeholders
/// of block `k` and the blocks behind it in theirs.
pub open spec fn restored_up_to(
    between: Seq<Seq<char>>,
    blocks: Seq<(Seq<char>, Seq<char>, Seq<char>)>,
    k: int,
) -> Seq<char> {
    restored_before(between, blocks, k) + blocks[k].2 + waiting_behind(between, blocks, k)
}

/// Whether, when the turn of each block comes, its placeholder stands in its
/// own place and nowhere else.
pub open spec fn placeholders_stand_alone(
    between: Seq<Seq<char>>,
    blocks: Seq<(Seq<char>, Seq<char>, Seq<char>)>,
) -> bool {
    forall|k: int|
        0 <= k < blocks.len() ==> (#[trigger] blocks[k]).2.len() > 0 && occurs_only_at(
            restored_up_to(between, blocks, k),
            restored_before(between, blocks, k).len() as int,
            blocks[k].2,
        )
}

/// Restoring the first `k` blocks puts each of them in its place.
proof fn lemma_restored_in_turn(
    between: Seq<Seq<char>>,
    blocks: Seq<(Seq<char>, Seq<char>, Seq<char>)>,
    k: int,
)
    requires
        blocks.len() >= 1,
        between.len() == blocks.len() + 1,
        placeholders_stand_alone(between, blocks),
        0 <= k <= blocks.len(),
    ensures
        restored(restored_up_to(between, blocks, 0), blocks.take(k)) == if k < blocks.len() {
            restored_up_to(between, blocks, k)
        } else {
            restored_before(between, blocks, k)
        },
    decreases k,
{
    let text = restored_up_to(between, blocks, 0);
    if k == 0 {
        assert(blocks.take(0).len() == 0);
    } else {
        lemma_restored_in_turn(between, blocks, k - 1);
        let done = blocks.take(k);
        assert(done.drop_last() == blocks.take(k - 1));
        assert(done.last() == blocks[k - 1]);
        let block = blocks[k - 1];
        let head = restored_before(between, blocks, k - 1);
        let tail = waiting_behind(between, blocks, k - 1);
        assert(restored(text, blocks.take(k - 1)) == head + block.2 + tail);
        lemma_replaced_all_once(head, tail, block.2, fenced(block.0, block.1));
        if k < blocks.len() {
            assert(head + fenced(block.0, block.1) + tail =~= restored_up_to(between, blocks, k));
        } else {
            assert(head + fenced(block.0, block.1) + tail =~= restored_before(between, blocks, k));
        }
    }
}

/// Restoring puts every block back: in a text that holds the placeholders
/// of the blocks in their order, each in the place of its block, restoring
/// gives the text with every block in its place and everything between the
/// blocks as it was, provided that the placeholder of each block stands
/// nowhere but in its own place when the block's turn comes.
pub proof fn lemma_restore_puts_every_block_back(
    between: Seq<Seq<char>>,
    blocks: Seq<(Seq<char>, Seq<char>, Seq<char>)>,
)
    requires
        blocks.len() >= 1,
        between.len() == blocks.len() + 1,
        placeholders_stand_alone(between, blocks),
    ensures
        restored(restored_up_to(between, blocks, 0), blocks) == restored_before(
            between,
            blocks,
            blocks.len() as int,
        ),
{
    lemma_restored_in_turn(between, blocks, blocks.len() as int);
    assert(blocks.take(blocks.len() as int) == blocks);
}

fn owned_group(groups: &Vec<Option<String>>, i: usize) -> (text: String)
    ensures
        text@ == group_text(groups_view(groups@), i as int),
{
    if i < groups.len() {
        match &groups[i] {
            Some(text) => text.clone(),
            None => String::new(),
        }
    } else {
        String::new()
    }
}

impl ContentParser {
    /// A parser; it holds no state.
    pub fn new() -> ContentParser {
        ContentParser {  }
    }

    /// Takes a document apart.
    ///
    /// The header is what the header pattern matches at the start; the body
    /// is the rest, so that header and body together are the document. The
    /// fields are read from the text between the header's delimiters, and
    /// are none where that is no mapping. The code blocks are the matches of
    /// the code block pattern in the body.
    pub fn parse(&self, content: &str) -> (parsed: ParsedContent)
        ensures
            is_parse_of(content@, parsed),
            parsed.frontmatter@ + parsed.body@ == content@,
    {
        let groups = first_match("(?s)^---\\s*\\n(.*?)\\n---\\s*\\n", content);
        let (frontmatter, inner, body) = self.split_header(content, &groups);
        let frontmatter_dict = match inner {
            Some(inner) => parse_yaml_frontmatter(inner.as_str()),
            None => Vec::new(),
        };
        let code_blocks = self.extract_code_blocks(body.as_str());
        ParsedContent { frontmatter, frontmatter_dict, body, code_blocks }
    }

    /// Splits a document at the end of its header, given the groups of the
    /// header pattern's match in it: the header, the text between the
    /// header's delimiters, and the body. A match that lacks a group, or
    /// that does not stand at the start of the document, counts as none:
    /// the header is then empty and the body is the document.
    pub fn split_header(&self, content: &str, groups: &Option<Vec<Option<String>>>) -> (r: (
        String,
        Option<String>,
        String,
    ))
        ensures
            r.0@ + r.2@ == content@,
            match header_in(content@, found_view(*groups)) {
                Some((whole, inner)) => {
                    &&& r.0@ == whole
                    &&& r.1 matches Some(text) && text@ == inner
                    &&& r.2@ == content@.skip(whole.len() as int)
                },
                None => {
                    &&& r.0@ == Seq::<char>::empty()
                    &&& r.1 is None
                    &&& r.2@ == content@
                },
            },
    {
        let text = chars_of(content);
        match groups {
            Some(groups) => {
                if groups.len() >= 2 {
                    assert(groups_view(groups@)[0] == match groups@[0] {
                        Some(t) => Some(t@),
                        None => None,
                    });
                    assert(groups_view(groups@)[1] == match groups@[1] {
                        Some(t) => Some(t@),
                        None => None,
                    });
                    match (&groups[0], &groups[1]) {
                        (Some(whole), Some(inner)) => {
                            let taken = chars_of(whole.as_str());
                            if starts_with(&text, &taken) {
                                let rest = slice_of(&text, taken.len(), text.len());
                                assert(rest@ == content@.skip(taken.len() as int));
                                assert(taken@ + rest@ =~= content@);
                                return (whole.clone(), Some(inner.clone()), string_of(&rest));
                            }
                        },
                        _ => {},
                    }
                }
            },
            None => {},
        }
        assert(Seq::<char>::empty() + content@ =~= content@);
        (String::new(), None, content.to_owned())
    }

    /// The code blocks of a body, in order, each with its placeholder.
    pub fn extract_code_blocks(&self, body: &str) -> (blocks: Vec<(String, String, String)>)
        ensures
            blocks_view(blocks@) == blocks_of(body@),
    {
        let found = all_matches("(?s)```(\\w*)\\n(.*?)```", body);
        self.blocks_from_matches(&found)
    }

    /// The code blocks that the matches of the code block pattern give, each
    /// match given by its groups: the first group is the language tag, the
    /// second the code, and the placeholder goes by the match's index. A
    /// group that is missing counts as empty.
    pub fn blocks_from_matches(&self, found: &Vec<Vec<Option<String>>>) -> (blocks: Vec<
        (String, String, String),
    >)
        ensures
            blocks_view(blocks@) == blocks_from(matches_view(found@)),
    {
        let mut blocks: Vec<(String, String, String)> = Vec::new();
        let mut i: usize = 0;
        while i < found.len()
            invariant
                i <= found.len(),
                blocks.len() == i,
                forall|j: int|
                    0 <= j < i ==> (#[trigger] blocks@[j]).0@ == group_text(
                        groups_view(found@[j]@),
                        1,
                    ) && blocks@[j].1@ == group_text(groups_view(found@[j]@), 2) && blocks@[j].2@
                        == placeholder(j as nat),
            decreases found.len() - i,
        {
            let language = owned_group(&found[i], 1);
            let code = owned_group(&found[i], 2);
            let mut token = chars_of("___CODE_BLOCK_");
            append_chars(&mut token, &decimal_of(i as u64));
            append_chars(&mut token, &chars_of("___"));
            blocks.push((language, code, string_of(&token)));
            i = i + 1;
        }
        assert(blocks_view(blocks@) =~= blocks_from(matches_view(found@))) by {
            let all = matches_view(found@);
            assert forall|j: int| 0 <= j < blocks.len() implies blocks_view(blocks@)[j]
                == blocks_from(all)[j] by {
                assert(all[j] == groups_view(found@[j]@));
            }
        }
        blocks
    }

    /// Puts the placeholder of each block in the place of the block's first
    /// occurrence in the body.
    pub fn replace_code_blocks(&self, body: &str, code_blocks: &Vec<(String, String, String)>) -> (out:
        String)
        ensures
            out@ == substituted(body@, blocks_view(code_blocks@)),
    {
        let mut result = body.to_owned();
        let mut i: usize = 0;
        let ghost blocks = blocks_view(code_blocks@);
        while i < code_blocks.len()
            invariant
                i <= code_blocks.len(),
                blocks == blocks_view(code_blocks@),
                result@ == substituted(body@, blocks.take(i as int)),
            decreases code_blocks.len() - i,
        {
            let mut pattern = chars_of("```");
            proof {
                reveal_strlit("```");
                assert(pattern@ =~= fence());
            }
            append_chars(&mut pattern, &chars_of(escape(code_blocks[i].0.as_str()).as_str()));
            pattern.push('\n');
            append_chars(&mut pattern, &chars_of(escape(code_blocks[i].1.as_str()).as_str()));
            append_chars(&mut pattern, &chars_of("```"));
            proof {
                assert(blocks[i as int] == (
                    code_blocks@[i as int].0@,
                    code_blocks@[i as int].1@,
                    code_blocks@[i as int].2@,
                ));
                assert(pattern@ =~= block_pattern(blocks[i as int].0, blocks[i as int].1));
                assert(blocks.take(i + 1).drop_last() == blocks.take(i as int));
                assert(blocks.take(i + 1).last() == blocks[i as int]);
            }
            match replace_first(
                string_of(&pattern).as_str(),
                result.as_str(),
                code_blocks[i].2.as_str(),
            ) {
                Some(changed) => {
                    result = changed;
                },
                None => {},
            }
            i = i + 1;
        }
        assert(blocks.take(code_blocks.len() as int) == blocks);
        result
    }

    /// Puts each block back in the place of each occurrence of its
    /// placeholder.
    pub fn restore_code_blocks(&self, body: &str, code_blocks: &Vec<(String, String, String)>) -> (out:
        String)
        ensures
            out@ == restored(body@, blocks_view(code_blocks@)),
    {
        let mut result = chars_of(body);
        let mut i: usize = 0;
        let ghost blocks = blocks_view(code_blocks@);
        while i < code_blocks.len()
            invariant
                i <= code_blocks.len(),
                blocks == blocks_view(code_blocks@),
                result@ == restored(body@, blocks.take(i as int)),
            decreases code_blocks.len() - i,
        {
            let mut block = chars_of("```");
            proof {
                reveal_strlit("```");
                assert(block@ =~= fence());
            }
            append_chars(&mut block, &chars_of(code_blocks[i].0.as_str()));
            block.push('\n');
            append_chars(&mut block, &chars_of(code_blocks[i].1.as_str()));
            append_chars(&mut block, &chars_of("```"));
            proof {
                assert(blocks[i as int] == (
                    code_blocks@[i as int].0@,
                    code_blocks@[i as int].1@,
                    code_blocks@[i as int].2@,
                ));
                assert(block@ =~= fenced(blocks[i as int].0, blocks[i as int].1));
                assert(blocks.take(i + 1).drop_last() == blocks.take(i as int));
                assert(blocks.take(i + 1).last() == blocks[i as int]);
            }
            result = replace_all(&result, &chars_of(code_blocks[i].2.as_str()), &block);
            i = i + 1;
        }
        assert(blocks.take(code_blocks.len() as int) == blocks);
        string_of(&result)
    }

    /// Replaces the value of `field` in the header text by `translated_value`.
    pub fn translate_frontmatter_field(
        &self,
        frontmatter: &str,
        field: &str,
        translated_value: &str,
    ) -> (out: String)
        ensures
            out@ == rewritten_field(frontmatter@, field@, translated_value@),
    {
        let out = rewrite_field(
            &chars_of(frontmatter),
            &chars_of(field),
            &chars_of(translated_value),
        );
        string_of(&out)
    }

    /// The description of the header, if it has one that is a string.
    pub fn get_description_field(&self, frontmatter_dict: &Vec<(String, FieldValue)>) -> (r: Option<
        String,
    >)
        ensures
            match r {
                Some(text) => string_field(frontmatter_dict@, "description"@) == Some(text@),
                None => string_field(frontmatter_dict@, "description"@) is None,
            },
    {
        get_string_field(frontmatter_dict, "description")
    }

    /// Whether a field of the header is one whose value gets translated:
    /// the description is, and no other field.
    pub fn is_translatable_field(&self, field: &str) -> (b: bool)
        ensures
            b == translatable(field@),
    {
        let wanted = chars_of("description");
        let given = chars_of(field);
        same_chars(&given, &wanted)
    }
}

} // verus!
