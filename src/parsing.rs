//! Turns the lines of a text into a document, resolving the nesting level of
//! each header and list item from the structure read so far.
use vstd::prelude::*;

use crate::consts::{
    MARKER_FENCED_FILETYPE_BACKTICK, MARKER_FENCED_FILETYPE_TILDE, PREFIX_LIST_CONTINUATION,
};
use crate::text::{chars_of, is_blank, lines_of, push_chars, split_lines, starts_with, trim};
use crate::{
    initial_document, is_list_kind, latest_block_with_indent, latest_line_with_indent,
    latest_of_type, line_from_raw, line_type_of, new_block, raw_line_of, Block, BlockModel,
    Document, FormattedLine, LineModel, LineType, RawLine, RawLineModel,
};

verus! {

/// Level of a new header whose raw line has `n` leading whitespace characters,
/// read after the blocks `d`: the previous header's level when the indentation
/// is the same; one deeper when it grew, however much; on a dedent, the level
/// of the latest block whose header had exactly that indentation, else 0.
pub open spec fn header_indent(d: Seq<BlockModel>, n: nat) -> nat {
    let prev = d.last().header;
    if prev.original_raw.num_indent == n {
        prev.indent_level
    } else if prev.original_raw.num_indent > n {
        match latest_block_with_indent(d, n, d.len() as int) {
            Some(j) => d[j].header.indent_level,
            None => 0,
        }
    } else {
        prev.indent_level + 1
    }
}

/// Level of a new bullet point whose raw line has `n` leading whitespace
/// characters, in the block `b`. It is set against the block's latest bullet
/// point: the same level at the same indentation, one deeper when indented
/// further, and on a dedent the level of the latest line of any kind with
/// exactly that indentation, else one below the block's header. Without an
/// earlier bullet point it takes the latest plain text line's level, else 0.
pub open spec fn bullet_indent(b: BlockModel, n: nat) -> nat {
    let ls = b.contents;
    match latest_of_type(ls, LineType::ListBulletPoint, ls.len() as int) {
        Some(j) => {
            let prev = ls[j];
            if prev.original_raw.num_indent == n {
                prev.indent_level
            } else if prev.original_raw.num_indent > n {
                match latest_line_with_indent(ls, n, ls.len() as int) {
                    Some(k) => ls[k].indent_level,
                    None => b.header.indent_level + 1,
                }
            } else {
                prev.indent_level + 1
            }
        },
        None => match latest_of_type(ls, LineType::Text, ls.len() as int) {
            Some(k) => ls[k].indent_level,
            None => 0,
        },
    }
}

/// True when the line `l` opens or closes a fenced block.
pub open spec fn is_fence_line(l: Seq<char>) -> bool {
    starts_with(trim(l), MARKER_FENCED_FILETYPE_BACKTICK@) || starts_with(
        trim(l),
        MARKER_FENCED_FILETYPE_TILDE@,
    )
}

/// True when a fenced block is open after the lines `ls`: an odd number of
/// them are fence lines.
pub open spec fn fence_open(ls: Seq<Seq<char>>) -> bool
    decreases ls.len(),
{
    if ls.len() == 0 {
        false
    } else {
        fence_open(ls.drop_last()) != is_fence_line(ls.last())
    }
}

/// The line that `r` gives at nesting level `level` in the body of a block,
/// kept even after a blank line when it is blank inside a fenced block
/// (`open`).
pub open spec fn body_line(r: RawLineModel, level: nat, open: bool) -> LineModel {
    LineModel { keep_blank: open && is_blank(r.raw), ..line_from_raw(r, level) }
}

/// The line that a raw line `r` other than a header or a bullet point becomes
/// in the block `b`, with `open` telling whether a fenced block is open.
/// After a list item a non-blank line continues it, at its level. Otherwise
/// the line goes one below the block's header, or, in the block before the
/// first header, at the block's own level.
pub open spec fn text_line(b: BlockModel, r: RawLineModel, open: bool) -> LineModel {
    if b.contents.len() > 0 && is_list_kind(b.contents.last().line_type) && !is_blank(r.raw) {
        LineModel {
            contents: PREFIX_LIST_CONTINUATION@ + r.trimmed,
            indent_level: b.contents.last().indent_level,
            line_type: LineType::ListContinuousLine,
            original_raw: r,
            keep_blank: false,
        }
    } else if b.header.contents.len() > 0 {
        body_line(r, b.header.indent_level + 1, open)
    } else {
        body_line(r, b.header.indent_level, open)
    }
}

/// `d` with `line` added to the body of its last block.
pub open spec fn add_to_last(d: Seq<BlockModel>, line: LineModel) -> Seq<BlockModel> {
    let b = d.last();
    d.update(d.len() - 1, BlockModel { contents: b.contents.push(line), ..b })
}

/// The document `d` after reading one more line `l`, with `open` telling
/// whether a fenced block is open before it.
pub open spec fn parse_step(d: Seq<BlockModel>, l: Seq<char>, open: bool) -> Seq<BlockModel> {
    let r = raw_line_of(l);
    let t = line_type_of(r.trimmed);
    if t == LineType::Header {
        d.push(new_block(line_from_raw(r, header_indent(d, r.num_indent))))
    } else if t == LineType::ListBulletPoint {
        add_to_last(d, line_from_raw(r, bullet_indent(d.last(), r.num_indent)))
    } else {
        add_to_last(d, text_line(d.last(), r, open))
    }
}

/// The document read from the lines `ls`, in order.
pub open spec fn parse_lines(ls: Seq<Seq<char>>) -> Seq<BlockModel>
    decreases ls.len(),
{
    if ls.len() == 0 {
        initial_document()
    } else {
        parse_step(parse_lines(ls.drop_last()), ls.last(), fence_open(ls.drop_last()))
    }
}

/// The document read from the text `s`.
pub open spec fn parse_text(s: Seq<char>) -> Seq<BlockModel> {
    parse_lines(lines_of(s))
}

pub open spec fn block_levels_at_most(b: BlockModel, k: nat) -> bool {
    &&& b.header.indent_level <= k
    &&& forall|j: int| 0 <= j < b.contents.len() ==> #[trigger] b.contents[j].indent_level <= k
}

/// No level in `d` exceeds `k`.
pub open spec fn levels_at_most(d: Seq<BlockModel>, k: nat) -> bool {
    forall|i: int| 0 <= i < d.len() ==> block_levels_at_most(#[trigger] d[i], k)
}

proof fn lemma_latest_block_in_range(bs: Seq<BlockModel>, n: nat, end: int)
    ensures
        latest_block_with_indent(bs, n, end) is Some ==> 0 <= latest_block_with_indent(
            bs,
            n,
            end,
        )->0 < end && end <= bs.len(),
    decreases end,
{
    if 0 < end <= bs.len() && bs[end - 1].header.original_raw.num_indent != n {
        lemma_latest_block_in_range(bs, n, end - 1);
    }
}

proof fn lemma_latest_type_in_range(ls: Seq<LineModel>, t: LineType, end: int)
    ensures
        latest_of_type(ls, t, end) is Some ==> 0 <= latest_of_type(ls, t, end)->0 < end && end
            <= ls.len(),
    decreases end,
{
    if 0 < end <= ls.len() && ls[end - 1].line_type != t {
        lemma_latest_type_in_range(ls, t, end - 1);
    }
}

proof fn lemma_latest_indent_in_range(ls: Seq<LineModel>, n: nat, end: int)
    ensures
        latest_line_with_indent(ls, n, end) is Some ==> 0 <= latest_line_with_indent(
            ls,
            n,
            end,
        )->0 < end && end <= ls.len(),
    decreases end,
{
    if 0 < end <= ls.len() && ls[end - 1].original_raw.num_indent != n {
        lemma_latest_indent_in_range(ls, n, end - 1);
    }
}

/// One step of reading keeps levels within one more than before.
proof fn lemma_step_levels(d: Seq<BlockModel>, l: Seq<char>, open: bool, k: nat)
    requires
        d.len() >= 1,
        levels_at_most(d, k),
    ensures
        parse_step(d, l, open).len() >= 1,
        levels_at_most(parse_step(d, l, open), k + 1),
{
    let r = raw_line_of(l);
    let b = d.last();
    let n = r.num_indent;
    assert(block_levels_at_most(b, k));
    lemma_latest_block_in_range(d, n, d.len() as int);
    lemma_latest_type_in_range(b.contents, LineType::ListBulletPoint, b.contents.len() as int);
    lemma_latest_type_in_range(b.contents, LineType::Text, b.contents.len() as int);
    lemma_latest_indent_in_range(b.contents, n, b.contents.len() as int);
    let d2 = parse_step(d, l, open);
    assert forall|i: int| 0 <= i < d2.len() implies block_levels_at_most(#[trigger] d2[i], k + 1) by {
        if i < d.len() {
            assert(block_levels_at_most(d[i], k));
        }
        if i == d.len() - 1 && line_type_of(r.trimmed) != LineType::Header {
            if latest_of_type(b.contents, LineType::ListBulletPoint, b.contents.len() as int) is Some {
                let j = latest_of_type(b.contents, LineType::ListBulletPoint, b.contents.len() as int)->0;
                assert(b.contents[j].indent_level <= k);
            }
        }
    }
}

/// Level of the header `raw_line` starts, read after `document`.
fn determine_new_header_indent(document: &Document, raw_line: &RawLine) -> (r: usize)
    requires
        document.blocks.len() >= 1,
        levels_at_most(document@, (usize::MAX - 1) as nat),
    ensures
        r == header_indent(document@, raw_line.num_indent as nat),
        document@.last().header.original_raw.num_indent < raw_line.num_indent ==> r
            == document@.last().header.indent_level + 1,
        document@.last().header.original_raw.num_indent >= raw_line.num_indent ==> r == match latest_block_with_indent(
            document@,
            raw_line.num_indent as nat,
            document@.len() as int,
        ) {
            Some(j) => document@[j].header.indent_level,
            None => 0,
        },
{
    let previous_block = document.last_block();
    proof {
        assert(block_levels_at_most(document@[document@.len() - 1], (usize::MAX - 1) as nat));
    }
    let previous_raw = previous_block.raw_header_indent();
    if previous_raw == raw_line.num_indent {
        previous_block.indent_level()
    } else if previous_raw > raw_line.num_indent {
        match document.find_latest_block_with_raw_indent(raw_line.num_indent) {
            Some(block) => block.indent_level(),
            None => 0,
        }
    } else {
        previous_block.indent_level() + 1
    }
}

/// Level of the bullet point `raw_line` in `current_block`.
fn determine_new_bullet_point_indent(current_block: &Block, raw_line: &RawLine) -> (r: usize)
    requires
        block_levels_at_most(current_block@, (usize::MAX - 1) as nat),
    ensures
        r == bullet_indent(current_block@, raw_line.num_indent as nat),
{
    let ghost ls = current_block@.contents;
    proof {
        lemma_latest_type_in_range(ls, LineType::ListBulletPoint, ls.len() as int);
    }
    if let Some(previous_bullet_point) = current_block.find_previous_of(LineType::ListBulletPoint) {
        let previous_raw = previous_bullet_point.original_raw.num_indent;
        proof {
            let j = latest_of_type(ls, LineType::ListBulletPoint, ls.len() as int)->0;
            assert(ls[j].indent_level <= usize::MAX - 1);
        }
        if previous_raw == raw_line.num_indent {
            previous_bullet_point.indent_level
        } else if previous_raw > raw_line.num_indent {
            match current_block.find_latest_line_with_raw_indent(raw_line.num_indent) {
                Some(line) => line.indent_level,
                None => current_block.indent_level() + 1,
            }
        } else {
            previous_bullet_point.indent_level + 1
        }
    } else if let Some(previous_text) = current_block.find_previous_of(LineType::Text) {
        previous_text.indent_level
    } else {
        0
    }
}

/// The line that `raw_line`, neither a header nor a bullet point, becomes in
/// `current_block`: a quote, a preformatted or plain line, a to-do item, or
/// the continuation of a list item. `in_fence` tells whether a fenced block
/// is open.
fn parse_text_line(current_block: &Block, raw_line: RawLine, in_fence: bool) -> (r: FormattedLine)
    requires
        block_levels_at_most(current_block@, (usize::MAX - 1) as nat),
    ensures
        r@ == text_line(current_block@, raw_line@, in_fence),
{
    let continues_list = match current_block.last_line() {
        Some(previous_line) => previous_line.is_list_item() && !raw_line.is_empty(),
        None => false,
    };
    if continues_list {
        let previous_line = current_block.last_line().unwrap();
        let mut contents = chars_of(LineType::ListContinuousLine.get_prefix());
        push_chars(&mut contents, &raw_line.trimmed);
        FormattedLine {
            contents,
            indent_level: previous_line.indent_level,
            line_type: LineType::ListContinuousLine,
            original_raw: raw_line,
            keep_blank: false,
        }
    } else {
        let keep_blank = in_fence && raw_line.is_empty();
        let indent_level = if current_block.has_header() {
            current_block.indent_level() + 1
        } else {
            current_block.indent_level()
        };
        let mut line = FormattedLine::from_raw(raw_line, indent_level);
        line.keep_blank = keep_blank;
        line
    }
}

/// Reads the lines of `contents`, telling each line's kind and resolving the
/// nesting level it is written at.
pub fn parse_document(contents: &str) -> (r: Document)
    ensures
        r@ == parse_text(contents@),
        r.blocks.len() >= 1,
{
    let chars = chars_of(contents);
    let lines = split_lines(&chars);
    let ghost all = lines_of(contents@);
    let mut document = Document::new();
    let mut in_fence = false;
    let mut k: usize = 0;
    while k < lines.len()
        invariant
            k <= lines.len(),
            lines@.len() == all.len(),
            forall|i: int| 0 <= i < lines@.len() ==> #[trigger] lines@[i]@ == all[i],
            document@ == parse_lines(all.take(k as int)),
            in_fence == fence_open(all.take(k as int)),
            document.blocks.len() >= 1,
            levels_at_most(document@, k as nat),
        decreases lines.len() - k,
    {
        let ghost before = document@;
        let raw_line = RawLine::from_chars(lines[k].clone());
        let is_fence = raw_line.contains_marker();
        proof {
            assert(lines[k as int]@ == all[k as int]);
            assert(raw_line@ == raw_line_of(all[k as int]));
            assert(all.take(k + 1).drop_last() =~= all.take(k as int));
            assert(all.take(k + 1).last() == all[k as int]);
            lemma_step_levels(before, all[k as int], in_fence, k as nat);
        }
        if raw_line.is_header() {
            let indent_level = determine_new_header_indent(&document, &raw_line);
            let header = FormattedLine::from_raw(raw_line, indent_level);
            document.add_block(Block::new(header));
        } else if raw_line.is_bullet_point() {
            proof {
                assert(block_levels_at_most(before[before.len() - 1], k as nat));
            }
            let current_block = document.last_block_mut();
            let indent_level = determine_new_bullet_point_indent(current_block, &raw_line);
            let line = FormattedLine::from_raw(raw_line, indent_level);
            current_block.add_line(line);
            proof {
                assert(document@ =~= parse_step(before, all[k as int], in_fence));
            }
        } else {
            proof {
                assert(block_levels_at_most(before[before.len() - 1], k as nat));
            }
            let current_block = document.last_block_mut();
            let line = parse_text_line(current_block, raw_line, in_fence);
            current_block.add_line(line);
            proof {
                assert(document@ =~= parse_step(before, all[k as int], in_fence));
            }
        }
        if is_fence {
            in_fence = !in_fence;
        }
        k += 1;
    }
    assert(all.take(k as int) =~= all);
    document
}

} // verus!
