//! Wraps long body lines at word boundaries and writes a document back out
//! as text.
use vstd::prelude::*;

use crate::consts::INDENT_SHIFT;
use crate::text::{
    chars_of, is_whitespace, is_ws, leading_ws, lemma_skip_ws_bounds, push_chars,
    skip_spaces_back, slice_chars, trim, trim_end_spaces, trim_start, trimmed,
};
use crate::{
    is_list_kind, lines_view, prefix_length_of, prefix_of, BlockModel, Document, FormattedLine,
    LineModel, LineType,
};

verus! {

/// Most passes the wrap engine makes over the lines of one block.
pub const MAX_WRAP_PASSES: usize = 100;

/// Index of the last whitespace character of `c[lo..hi]`.
pub open spec fn last_ws_in(c: Seq<char>, lo: int, hi: int) -> Option<int>
    decreases hi - lo,
{
    if hi <= lo {
        None
    } else if is_ws(c[hi - 1]) {
        Some(hi - 1)
    } else {
        last_ws_in(c, lo, hi - 1)
    }
}

/// Index of the first whitespace character of `c` at or after `i`.
pub open spec fn first_ws_from(c: Seq<char>, i: int) -> Option<int>
    decreases c.len() - i,
{
    if i < 0 || i >= c.len() {
        None
    } else if is_ws(c[i]) {
        Some(i)
    } else {
        first_ws_from(c, i + 1)
    }
}

/// Where the line `l` is split to fit `max` characters: the last whitespace
/// at or before position `max` that lies past the line's marker, else the
/// first whitespace at or after position `max`.
pub open spec fn word_boundary(l: LineModel, max: nat) -> Option<int> {
    let hi = if l.contents.len() <= max {
        l.contents.len() as int
    } else {
        (max + 1) as int
    };
    match last_ws_in(l.contents, prefix_length_of(l.line_type) as int, hi) {
        Some(j) => Some(j),
        None => first_ws_from(l.contents, max as int),
    }
}

/// The kind of the part that splitting a line of kind `t` moves to a new line.
pub open spec fn split_kind(t: LineType) -> LineType {
    if is_list_kind(t) {
        LineType::ListContinuousLine
    } else {
        t
    }
}

/// What stays of `l` when it is split at `pos`.
pub open spec fn split_head(l: LineModel, pos: int) -> LineModel {
    LineModel { contents: l.contents.subrange(0, pos), ..l }
}

/// The new line that splitting `l` at `pos` makes: the rest of the text,
/// trimmed, after the marker of its kind.
pub open spec fn split_tail(l: LineModel, pos: int) -> LineModel {
    let t = split_kind(l.line_type);
    LineModel {
        contents: prefix_of(t) + trim(l.contents.subrange(pos, l.contents.len() as int)),
        line_type: t,
        ..l
    }
}

/// A line that is neither preformatted nor within `max` characters.
pub open spec fn too_long(l: LineModel, max: nat) -> bool {
    l.line_type != LineType::Preformatted && l.contents.len() > max
}

/// A line too long that has a place to be split.
pub open spec fn splittable(l: LineModel, max: nat) -> bool {
    too_long(l, max) && word_boundary(l, max) is Some
}

/// What one pass makes of the line `l`: the line itself, or its two parts.
pub open spec fn wrap_line(l: LineModel, max: nat) -> Seq<LineModel> {
    if splittable(l, max) {
        let pos = word_boundary(l, max)->0;
        seq![split_head(l, pos), split_tail(l, pos)]
    } else {
        seq![l]
    }
}

/// One pass over `ls`: each line that can be split is split once.
pub open spec fn wrap_pass(ls: Seq<LineModel>, max: nat) -> Seq<LineModel>
    decreases ls.len(),
{
    if ls.len() == 0 {
        Seq::empty()
    } else {
        wrap_pass(ls.drop_last(), max) + wrap_line(ls.last(), max)
    }
}

/// No line of `ls` is too long.
pub open spec fn all_fit(ls: Seq<LineModel>, max: nat) -> bool {
    forall|i: int| 0 <= i < ls.len() ==> !too_long(#[trigger] ls[i], max)
}

/// No line of `ls` can be split any further.
pub open spec fn settled(ls: Seq<LineModel>, max: nat) -> bool {
    forall|i: int| 0 <= i < ls.len() ==> !splittable(#[trigger] ls[i], max)
}

/// Up to `n` passes over `ls`, stopping once every line fits or a pass
/// splits nothing.
pub open spec fn wrap_rounds(ls: Seq<LineModel>, max: nat, n: nat) -> Seq<LineModel>
    decreases n,
{
    if n == 0 || all_fit(ls, max) {
        ls
    } else {
        let next = wrap_pass(ls, max);
        if next.len() == ls.len() {
            next
        } else {
            wrap_rounds(next, max, (n - 1) as nat)
        }
    }
}

/// The lines `ls` once wrapped to `max` characters.
pub open spec fn wrapped(ls: Seq<LineModel>, max: nat) -> Seq<LineModel> {
    wrap_rounds(ls, max, MAX_WRAP_PASSES as nat)
}

/// The blocks `bs`, each with its body wrapped to `max` characters.
pub open spec fn wrap_blocks(bs: Seq<BlockModel>, max: nat) -> Seq<BlockModel> {
    Seq::new(
        bs.len(),
        |i: int| BlockModel { contents: wrapped(bs[i].contents, max), ..bs[i] },
    )
}

/// Finds where `line` is to be split to fit `max_line_length` characters.
fn find_word_boundary(line: &FormattedLine, max_line_length: usize) -> (r: Option<usize>)
    ensures
        r matches Some(p) ==> word_boundary(line@, max_line_length as nat) == Some(p as int),
        r is None ==> word_boundary(line@, max_line_length as nat) is None,
{
    let c = &line.contents;
    let prefix_length = line.line_type.get_prefix_length();
    let hi = if c.len() <= max_line_length {
        c.len()
    } else {
        max_line_length + 1
    };
    let mut j = hi;
    while j > prefix_length
        invariant
            j <= hi <= c.len(),
            c == &line.contents,
            prefix_length == prefix_length_of(line.line_type),
            hi == (if c.len() <= max_line_length {
                c.len() as int
            } else {
                max_line_length + 1
            }),
            last_ws_in(c@, prefix_length as int, hi as int) == last_ws_in(
                c@,
                prefix_length as int,
                j as int,
            ),
        decreases j,
    {
        if is_whitespace(c[j - 1]) {
            assert(last_ws_in(c@, prefix_length as int, j as int) == Some(j - 1));
            return Some(j - 1);
        }
        j -= 1;
    }
    let mut i = max_line_length;
    while i < c.len()
        invariant
            max_line_length <= i,
            c == &line.contents,
            prefix_length == prefix_length_of(line.line_type),
            hi == (if c.len() <= max_line_length {
                c.len() as int
            } else {
                max_line_length + 1
            }),
            last_ws_in(c@, prefix_length as int, hi as int) is None,
            first_ws_from(c@, max_line_length as int) == first_ws_from(c@, i as int),
        decreases c.len() - i,
    {
        if is_whitespace(c[i]) {
            assert(last_ws_in(c@, prefix_length as int, hi as int) is None);
            assert(first_ws_from(c@, i as int) == Some(i as int));
            return Some(i);
        }
        i += 1;
    }
    None
}

pub(crate) proof fn lemma_boundary_in_range(l: LineModel, max: nat)
    ensures
        word_boundary(l, max) matches Some(p) ==> 0 <= p < l.contents.len(),
{
    let hi = if l.contents.len() <= max {
        l.contents.len() as int
    } else {
        (max + 1) as int
    };
    lemma_last_ws_in_range(l.contents, prefix_length_of(l.line_type) as int, hi);
    lemma_first_ws_in_range(l.contents, max as int);
}

proof fn lemma_last_ws_in_range(c: Seq<char>, lo: int, hi: int)
    requires
        hi <= c.len(),
        0 <= lo,
    ensures
        last_ws_in(c, lo, hi) matches Some(p) ==> lo <= p < hi,
    decreases hi - lo,
{
    if hi > lo && !is_ws(c[hi - 1]) {
        lemma_last_ws_in_range(c, lo, hi - 1);
    }
}

proof fn lemma_first_ws_in_range(c: Seq<char>, i: int)
    ensures
        first_ws_from(c, i) matches Some(p) ==> i <= p < c.len() && 0 <= p,
    decreases c.len() - i,
{
    if 0 <= i < c.len() && !is_ws(c[i]) {
        lemma_first_ws_in_range(c, i + 1);
    }
}

/// Splits `long_line` at `split_pos`: it keeps the text before, and the
/// returned line holds the rest.
fn split_line(long_line: &mut FormattedLine, split_pos: usize) -> (r: FormattedLine)
    requires
        split_pos <= old(long_line).contents.len(),
    ensures
        final(long_line)@ == split_head(old(long_line)@, split_pos as int),
        r@ == split_tail(old(long_line)@, split_pos as int),
{
    let n = long_line.contents.len();
    let line_a = slice_chars(&long_line.contents, 0, split_pos);
    let line_b = slice_chars(&long_line.contents, split_pos, n);
    let line_type = if long_line.is_list_item() {
        LineType::ListContinuousLine
    } else {
        long_line.line_type
    };
    let mut contents = chars_of(line_type.get_prefix());
    let rest = trimmed(&line_b);
    push_chars(&mut contents, &rest);
    let split_line = FormattedLine {
        contents,
        line_type,
        indent_level: long_line.indent_level,
        original_raw: long_line.original_raw.copy_of(),
        keep_blank: long_line.keep_blank,
    };
    long_line.contents = line_a;
    split_line
}

/// One pass of the wrap engine over `lines`.
fn wrap_pass_once(lines: &Vec<FormattedLine>, max_line_length: usize) -> (r: Vec<FormattedLine>)
    ensures
        lines_view(r@) == wrap_pass(lines_view(lines@), max_line_length as nat),
{
    let ghost ls = lines_view(lines@);
    let ghost max = max_line_length as nat;
    let mut out: Vec<FormattedLine> = Vec::new();
    let mut i: usize = 0;
    while i < lines.len()
        invariant
            i <= lines.len(),
            ls == lines_view(lines@),
            max == max_line_length as nat,
            lines_view(out@) == wrap_pass(ls.take(i as int), max),
        decreases lines.len() - i,
    {
        let ghost before = out@;
        let mut line = lines[i].copy_of();
        proof {
            assert(ls.take(i + 1).drop_last() =~= ls.take(i as int));
            assert(ls.take(i + 1).last() == line@);
            lemma_boundary_in_range(line@, max);
        }
        if line.line_type != LineType::Preformatted && line.contents.len() > max_line_length {
            match find_word_boundary(&line, max_line_length) {
                Some(split_pos) => {
                    let tail = split_line(&mut line, split_pos);
                    out.push(line);
                    out.push(tail);
                    proof {
                        assert(lines_view(out@) =~= lines_view(before) + wrap_line(
                            ls[i as int],
                            max,
                        ));
                    }
                },
                None => {
                    out.push(line);
                    proof {
                        assert(lines_view(out@) =~= lines_view(before) + wrap_line(
                            ls[i as int],
                            max,
                        ));
                    }
                },
            }
        } else {
            out.push(line);
            proof {
                assert(lines_view(out@) =~= lines_view(before) + wrap_line(ls[i as int], max));
            }
        }
        i += 1;
    }
    assert(ls.take(i as int) =~= ls);
    out
}

/// True when no line of `lines` is too long.
fn lines_fit(lines: &Vec<FormattedLine>, max_line_length: usize) -> (r: bool)
    ensures
        r == all_fit(lines_view(lines@), max_line_length as nat),
{
    let mut i: usize = 0;
    while i < lines.len()
        invariant
            i <= lines.len(),
            forall|j: int|
                0 <= j < i ==> !too_long(#[trigger] lines_view(lines@)[j], max_line_length as nat),
        decreases lines.len() - i,
    {
        if lines[i].line_type != LineType::Preformatted && lines[i].contents.len()
            > max_line_length {
            assert(too_long(lines_view(lines@)[i as int], max_line_length as nat));
            return false;
        }
        i += 1;
    }
    true
}

/// True when no line of `lines` can be split any further.
fn lines_settled(lines: &Vec<FormattedLine>, max_line_length: usize) -> (r: bool)
    ensures
        r == settled(lines_view(lines@), max_line_length as nat),
{
    let mut i: usize = 0;
    while i < lines.len()
        invariant
            i <= lines.len(),
            forall|j: int|
                0 <= j < i ==> !splittable(
                    #[trigger] lines_view(lines@)[j],
                    max_line_length as nat,
                ),
        decreases lines.len() - i,
    {
        let line = &lines[i];
        if line.line_type != LineType::Preformatted && line.contents.len() > max_line_length {
            if find_word_boundary(line, max_line_length).is_some() {
                assert(splittable(lines_view(lines@)[i as int], max_line_length as nat));
                return false;
            }
        }
        i += 1;
    }
    true
}

/// Splits lines longer than `max_line_length` at the nearest word boundary,
/// pass after pass, until every line fits or no line can be split, within
/// `MAX_WRAP_PASSES` passes. Preformatted lines are left as they are.
/// Returns whether no line is left that could be split further.
pub fn wrap_long_lines(formatted_lines: &mut Vec<FormattedLine>, max_line_length: usize) -> (r:
    bool)
    ensures
        lines_view(final(formatted_lines)@) == wrapped(
            lines_view(old(formatted_lines)@),
            max_line_length as nat,
        ),
        r == settled(lines_view(final(formatted_lines)@), max_line_length as nat),
{
    let ghost target = wrapped(lines_view(formatted_lines@), max_line_length as nat);
    let mut iteration: usize = 0;
    let mut done = false;
    while iteration < MAX_WRAP_PASSES && !done
        invariant
            iteration <= MAX_WRAP_PASSES,
            target == wrapped(lines_view(old(formatted_lines)@), max_line_length as nat),
            !done ==> wrap_rounds(
                lines_view(formatted_lines@),
                max_line_length as nat,
                (MAX_WRAP_PASSES - iteration) as nat,
            ) == target,
            done ==> lines_view(formatted_lines@) == target,
        decreases MAX_WRAP_PASSES - iteration,
    {
        if lines_fit(formatted_lines, max_line_length) {
            done = true;
            iteration += 1;
        } else {
            let next = wrap_pass_once(formatted_lines, max_line_length);
            let changed = next.len() != formatted_lines.len();
            *formatted_lines = next;
            if !changed {
                done = true;
            }
            iteration += 1;
        }
    }
    lines_settled(formatted_lines, max_line_length)
}

/// Wraps the body of every block of `document` to `max_line_length`
/// characters. Returns whether every block settled.
pub fn wrap_document(document: &mut Document, max_line_length: usize) -> (r: bool)
    ensures
        final(document)@ == wrap_blocks(old(document)@, max_line_length as nat),
        r == (forall|i: int|
            0 <= i < final(document)@.len() ==> settled(
                #[trigger] final(document)@[i].contents,
                max_line_length as nat,
            )),
{
    let ghost start = document@;
    let ghost max = max_line_length as nat;
    let mut all_settled = true;
    let mut i: usize = 0;
    while i < document.blocks.len()
        invariant
            i <= document.blocks.len() == start.len(),
            max == max_line_length as nat,
            forall|j: int|
                0 <= j < i ==> #[trigger] document@[j] == wrap_blocks(start, max)[j],
            forall|j: int| i <= j < start.len() ==> #[trigger] document@[j] == start[j],
            all_settled == (forall|j: int|
                0 <= j < i ==> settled(#[trigger] document@[j].contents, max)),
        decreases start.len() - i,
    {
        let ghost before = document@;
        let ghost old_block = document.blocks@[i as int];
        let block = document.block_mut(i);
        let s = wrap_long_lines(&mut block.contents, max_line_length);
        proof {
            assert(before[i as int] == old_block@);
            assert(start[i as int] == old_block@);
            assert(block.header == old_block.header);
            assert(document@[i as int] == document.blocks@[i as int]@);
            assert(document@[i as int] == wrap_blocks(start, max)[i as int]);
            assert(document@ =~= before.update(i as int, document@[i as int]));
            assert(s == settled(document@[i as int].contents, max));
            assert forall|j: int| 0 <= j < i implies #[trigger] document@[j] == before[j] by {}
            if !s {
                assert(!settled(document@[i as int].contents, max));
            }
            if !all_settled {
                let j = choose|j: int| 0 <= j < i && !settled(#[trigger] before[j].contents, max);
                assert(!settled(document@[j].contents, max));
            }
        }
        all_settled = all_settled && s;
        i += 1;
    }
    assert(document@ =~= wrap_blocks(start, max));
    all_settled
}

/// What the renderer wrote last.
#[derive(Debug, Eq, PartialEq, Structural, Clone, Copy)]
pub enum Action {
    Start,
    InsertBlankLine,
    InsertBodyText,
}

/// `k` spaces.
pub open spec fn spaces(k: nat) -> Seq<char> {
    Seq::new(k, |i: int| ' ')
}

/// The indentation of a line at nesting level `level`.
pub open spec fn indentation(level: nat) -> Seq<char> {
    spaces(level * INDENT_SHIFT as nat)
}

/// The text `out` and last action after writing the body line `l`: a blank
/// line right after a blank line is left out, unless it is preformatted or
/// lies inside a fenced block.
pub open spec fn render_line(out: Seq<char>, last: Action, l: LineModel) -> (Seq<char>, Action) {
    if !l.keep_blank && l.line_type != LineType::Preformatted && last == Action::InsertBlankLine && l.contents.len()
        == 0 {
        (out, last)
    } else if l.contents.len() == 0 {
        (out + seq!['\n'], Action::InsertBlankLine)
    } else {
        (out + indentation(l.indent_level) + l.contents + seq!['\n'], Action::InsertBodyText)
    }
}

pub open spec fn render_lines(out: Seq<char>, last: Action, ls: Seq<LineModel>) -> (
    Seq<char>,
    Action,
)
    decreases ls.len(),
{
    if ls.len() == 0 {
        (out, last)
    } else {
        let (o, a) = render_lines(out, last, ls.drop_last());
        render_line(o, a, ls.last())
    }
}

/// The text after writing the block `b`: a blank line to close body text
/// before it, its header and one blank line, then its body.
pub open spec fn render_block(out: Seq<char>, last: Action, b: BlockModel) -> (Seq<char>, Action) {
    let o = if last == Action::InsertBodyText {
        out + seq!['\n']
    } else {
        out
    };
    render_lines(
        o + indentation(b.header.indent_level) + b.header.contents + seq!['\n', '\n'],
        Action::InsertBlankLine,
        b.contents,
    )
}

pub open spec fn render_blocks(bs: Seq<BlockModel>) -> (Seq<char>, Action)
    decreases bs.len(),
{
    if bs.len() == 0 {
        (Seq::empty(), Action::Start)
    } else {
        let (o, a) = render_blocks(bs.drop_last());
        render_block(o, a, bs.last())
    }
}

/// The text of the blocks `bs`, without leading whitespace or trailing spaces.
pub open spec fn document_text(bs: Seq<BlockModel>) -> Seq<char> {
    trim_end_spaces(trim_start(render_blocks(bs).0))
}

/// Relies on std's `impl FromIterator<&char> for String`: the string
/// collected from the characters of `v` holds exactly those characters, in
/// order.
#[verifier::external_body]
fn string_from_chars(v: &Vec<char>) -> (r: String)
    ensures
        r@ == v@,
{
    v.iter().collect()
}

/// Appends the indentation of nesting level `level` to `out`.
fn push_indentation(out: &mut Vec<char>, level: usize)
    ensures
        final(out)@ == old(out)@ + indentation(level as nat),
{
    let ghost start = out@;
    let mut l: usize = 0;
    while l < level
        invariant
            l <= level,
            out@ == start + spaces((l * INDENT_SHIFT) as nat),
        decreases level - l,
    {
        let mut k: usize = 0;
        while k < INDENT_SHIFT
            invariant
                k <= INDENT_SHIFT,
                l < level,
                out@ == start + spaces((l * INDENT_SHIFT + k) as nat),
            decreases INDENT_SHIFT - k,
        {
            out.push(' ');
            k += 1;
            assert(out@ =~= start + spaces((l * INDENT_SHIFT + k) as nat));
        }
        l += 1;
        assert(out@ =~= start + spaces((l * INDENT_SHIFT) as nat));
    }
}

/// Writes `document` out as text: each header at its indentation followed by
/// one blank line, its body lines at theirs, with runs of blank lines
/// collapsed to one outside fenced blocks. Leading whitespace and
/// trailing spaces of the whole are left out.
pub fn format_to_string(document: &Document) -> (r: String)
    ensures
        r@ == document_text(document@),
{
    let ghost bs = document@;
    let mut formatted: Vec<char> = Vec::new();
    let mut last_action = Action::Start;
    let mut bi: usize = 0;
    while bi < document.blocks.len()
        invariant
            bi <= document.blocks.len(),
            bs == document@,
            (formatted@, last_action) == render_blocks(bs.take(bi as int)),
        decreases document.blocks.len() - bi,
    {
        let block = &document.blocks[bi];
        proof {
            assert(bs.take(bi + 1).drop_last() =~= bs.take(bi as int));
            assert(bs.take(bi + 1).last() == block@);
        }
        if last_action == Action::InsertBodyText {
            formatted.push('\n');
        }
        push_indentation(&mut formatted, block.header.indent_level);
        push_chars(&mut formatted, &block.header.contents);
        formatted.push('\n');
        formatted.push('\n');
        last_action = Action::InsertBlankLine;
        let ghost head = formatted@;
        let ghost ls = block@.contents;
        proof {
            let o = if render_blocks(bs.take(bi as int)).1 == Action::InsertBodyText {
                render_blocks(bs.take(bi as int)).0 + seq!['\n']
            } else {
                render_blocks(bs.take(bi as int)).0
            };
            assert(head =~= o + indentation(block@.header.indent_level) + block@.header.contents
                + seq!['\n', '\n']);
        }
        let mut li: usize = 0;
        while li < block.contents.len()
            invariant
                li <= block.contents.len(),
                ls == block@.contents,
                (formatted@, last_action) == render_lines(
                    head,
                    Action::InsertBlankLine,
                    ls.take(li as int),
                ),
            decreases block.contents.len() - li,
        {
            let line = &block.contents[li];
            proof {
                assert(ls.take(li + 1).drop_last() =~= ls.take(li as int));
                assert(ls.take(li + 1).last() == line@);
            }
            if !line.keep_blank && line.line_type != LineType::Preformatted && last_action == Action::InsertBlankLine
                && line.is_empty() {
            } else if line.is_empty() {
                formatted.push('\n');
                last_action = Action::InsertBlankLine;
            } else {
                let ghost o = formatted@;
                push_indentation(&mut formatted, line.indent_level);
                push_chars(&mut formatted, &line.contents);
                formatted.push('\n');
                last_action = Action::InsertBodyText;
                assert(formatted@ =~= o + indentation(line@.indent_level) + line@.contents
                    + seq!['\n']);
            }
            li += 1;
        }
        assert(ls.take(li as int) =~= ls);
        bi += 1;
    }
    assert(bs.take(bi as int) =~= bs);
    let start = leading_ws(&formatted);
    proof {
        lemma_skip_ws_bounds(formatted@, 0);
    }
    let rest = slice_chars(&formatted, start, formatted.len());
    let mut end = rest.len();
    while end > 0 && rest[end - 1] == ' '
        invariant
            end <= rest.len(),
            skip_spaces_back(rest@, end as int) == skip_spaces_back(rest@, rest.len() as int),
        decreases end,
    {
        end -= 1;
    }
    let out = slice_chars(&rest, 0, end);
    string_from_chars(&out)
}

} // verus!
