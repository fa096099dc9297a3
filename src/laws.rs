//! Properties of the canonical form, proved over the models of the parser,
//! the wrap engine and the renderer.
use vstd::prelude::*;

use crate::consts::{
    MARKER_FENCED_FILETYPE_BACKTICK, MARKER_FENCED_FILETYPE_TILDE, PREFIX_BULLET_POINT,
    PREFIX_HEADER, PREFIX_LIST_CONTINUATION, PREFIX_PREFORMATTED, PREFIX_QUOTE, PREFIX_TODO_ITEM,
};
use crate::formatting::{
    document_text, first_ws_from, indentation, last_ws_in, render_block, render_blocks,
    render_line, render_lines, settled, split_head, split_kind, split_tail, splittable,
    word_boundary, wrap_blocks, wrap_line, wrap_pass, wrap_rounds, wrapped, Action,
};
use crate::parsing::{fence_open, parse_lines, parse_step, parse_text, text_line};
use crate::text::{
    is_blank, is_ws, lemma_next_newline_bounds, lemma_skip_spaces_back_bounds, lemma_skip_ws_back_bounds,
    lemma_skip_ws_bounds, lines_from, lines_of, next_newline, skip_ws, trim, trim_end_spaces,
    trim_start,
};
use crate::{
    format_text, latest_block_with_indent, line_type_of, prefix_length_of, prefix_of, raw_line_of,
    BlockModel, LineModel, LineType,
};

verus! {

proof fn lemma_no_ws_below(c: Seq<char>, lo: int, hi: int)
    requires
        last_ws_in(c, lo, hi) is None,
    ensures
        forall|j: int| lo <= j < hi ==> !is_ws(#[trigger] c[j]),
    decreases hi - lo,
{
    if hi > lo {
        lemma_no_ws_below(c, lo, hi - 1);
    }
}

proof fn lemma_no_ws_after(c: Seq<char>, i: int)
    requires
        first_ws_from(c, i) is None,
        0 <= i,
    ensures
        forall|j: int| i <= j < c.len() ==> !is_ws(#[trigger] c[j]),
    decreases c.len() - i,
{
    if i < c.len() {
        lemma_no_ws_after(c, i + 1);
    }
}

/// Width bound: once wrapping has settled, every line that is not
/// preformatted fits in `max` characters, or is its marker followed by a
/// single token with no whitespace in it.
pub proof fn law_width_bound(ls: Seq<LineModel>, max: nat, i: int)
    requires
        settled(wrapped(ls, max), max),
        0 <= i < wrapped(ls, max).len(),
    ensures
        ({
            let l = wrapped(ls, max)[i];
            ||| l.line_type == LineType::Preformatted
            ||| l.contents.len() <= max
            ||| forall|j: int|
                prefix_length_of(l.line_type) <= j < l.contents.len() ==> !is_ws(
                    #[trigger] l.contents[j],
                )
        }),
{
    let l = wrapped(ls, max)[i];
    if l.line_type != LineType::Preformatted && l.contents.len() > max {
        assert(word_boundary(l, max) is None);
        lemma_no_ws_below(l.contents, prefix_length_of(l.line_type) as int, (max + 1) as int);
        lemma_no_ws_after(l.contents, max as int);
    }
}

/// Header nesting: a header indented further than the header of the last
/// block read nests exactly one level below it, however far it is indented.
pub proof fn law_header_nesting(ls: Seq<Seq<char>>, l: Seq<char>)
    requires
        line_type_of(trim(l)) == LineType::Header,
        skip_ws(l, 0) > parse_lines(ls).last().header.original_raw.num_indent,
    ensures
        parse_lines(ls.push(l)).len() == parse_lines(ls).len() + 1,
        parse_lines(ls.push(l)).last().header.indent_level == parse_lines(ls).last().header.indent_level
            + 1,
{
    assert(ls.push(l).drop_last() =~= ls);
}

proof fn lemma_latest_block_is(d: Seq<crate::BlockModel>, n: nat, end: int, j: int)
    requires
        0 <= j < end <= d.len(),
        d[j].header.original_raw.num_indent == n,
        forall|k: int| j < k < end ==> #[trigger] d[k].header.original_raw.num_indent != n,
    ensures
        latest_block_with_indent(d, n, end) == Some(j),
    decreases end,
{
    if end - 1 > j {
        lemma_latest_block_is(d, n, end - 1, j);
    }
}

/// Dedent reuse: a header indented no further than the header of the last
/// block read takes the level of the latest block whose header had exactly
/// its indentation.
pub proof fn law_header_dedent(ls: Seq<Seq<char>>, l: Seq<char>, j: int)
    requires
        line_type_of(trim(l)) == LineType::Header,
        skip_ws(l, 0) <= parse_lines(ls).last().header.original_raw.num_indent,
        0 <= j < parse_lines(ls).len(),
        parse_lines(ls)[j].header.original_raw.num_indent == skip_ws(l, 0),
        forall|k: int|
            j < k < parse_lines(ls).len() ==> #[trigger] parse_lines(
                ls,
            )[k].header.original_raw.num_indent != skip_ws(l, 0),
    ensures
        parse_lines(ls.push(l)).last().header.indent_level == parse_lines(ls)[j].header.indent_level,
{
    assert(ls.push(l).drop_last() =~= ls);
    let d = parse_lines(ls);
    lemma_latest_block_is(d, skip_ws(l, 0) as nat, d.len() as int, j);
}

/// No line feed in `s`.
spec fn no_newline(s: Seq<char>) -> bool {
    forall|i: int| 0 <= i < s.len() ==> #[trigger] s[i] != '\n'
}

/// No three line feeds in a row in `s`: no two blank lines follow each other.
pub open spec fn no_double_blank(s: Seq<char>) -> bool {
    forall|i: int|
        0 <= i && i + 2 < s.len() ==> !(#[trigger] s[i] == '\n' && s[i + 1] == '\n' && s[i + 2]
            == '\n')
}

spec fn line_shaped(l: LineModel) -> bool {
    &&& no_newline(l.contents)
    &&& !l.keep_blank
    &&& l.line_type == LineType::Preformatted ==> l.contents.len() > 0
}

spec fn lines_shaped(ls: Seq<LineModel>) -> bool {
    forall|j: int| 0 <= j < ls.len() ==> line_shaped(#[trigger] ls[j])
}

spec fn block_shaped(b: BlockModel, first: bool) -> bool {
    &&& no_newline(b.header.contents)
    &&& !first ==> b.header.contents.len() > 0
    &&& lines_shaped(b.contents)
}

/// Headers past the first block are not empty, no text holds a line feed, no
/// preformatted line is empty, and no line is a blank kept inside a fence.
spec fn doc_shaped(d: Seq<BlockModel>) -> bool {
    forall|i: int| 0 <= i < d.len() ==> block_shaped(#[trigger] d[i], i == 0)
}

proof fn lemma_markers()
    ensures
        forall|t: LineType| no_newline(#[trigger] prefix_of(t)),
        forall|t: Seq<char>|
            #[trigger] line_type_of(t) == LineType::Preformatted || line_type_of(t)
                == LineType::Header ==> t.len() > 0,
{
    reveal_strlit("=== ");
    reveal_strlit("* ");
    reveal_strlit("  ");
    reveal_strlit("| ");
    reveal_strlit("> ");
    reveal_strlit("[");
    reveal_strlit("```");
    reveal_strlit("~~~");
    assert forall|t: LineType| no_newline(#[trigger] prefix_of(t)) by {
        match t {
            LineType::Header => assert(prefix_of(t) == PREFIX_HEADER@),
            LineType::ListBulletPoint => assert(prefix_of(t) == PREFIX_BULLET_POINT@),
            LineType::ListContinuousLine => assert(prefix_of(t) == PREFIX_LIST_CONTINUATION@),
            LineType::ListTodoItem => assert(prefix_of(t) == PREFIX_TODO_ITEM@),
            LineType::Preformatted => assert(prefix_of(t) == PREFIX_PREFORMATTED@),
            LineType::Quote => assert(prefix_of(t) == PREFIX_QUOTE@),
            LineType::Text => {},
        }
    }
    assert(MARKER_FENCED_FILETYPE_BACKTICK@.len() > 0);
    assert(MARKER_FENCED_FILETYPE_TILDE@.len() > 0);
}

proof fn lemma_lines_no_newline(s: Seq<char>, i: int)
    ensures
        forall|k: int| 0 <= k < lines_from(s, i).len() ==> no_newline(#[trigger] lines_from(s, i)[k]),
    decreases s.len() - i,
{
    if 0 <= i < s.len() {
        lemma_next_newline_bounds(s, i);
        let k = next_newline(s, i);
        if k < s.len() {
            lemma_lines_no_newline(s, k + 1);
            let first = s.subrange(i, k);
            assert(no_newline(first));
            if first.len() > 0 && first.last() == '\r' {
                assert(no_newline(first.drop_last()));
            }
            assert forall|m: int| 0 <= m < lines_from(s, i).len() implies no_newline(
                #[trigger] lines_from(s, i)[m],
            ) by {
                if m > 0 {
                    assert(lines_from(s, i)[m] == lines_from(s, k + 1)[m - 1]);
                }
            }
        } else {
            assert(no_newline(s.subrange(i, s.len() as int)));
        }
    }
}

proof fn lemma_trim_no_newline(l: Seq<char>)
    requires
        no_newline(l),
    ensures
        no_newline(trim(l)),
{
    lemma_skip_ws_bounds(l, 0);
    let t = trim_start(l);
    assert(no_newline(t));
    lemma_skip_ws_back_bounds(t, t.len() as int);
}

/// No blank line among `ls` lies inside a fenced block.
pub open spec fn no_fenced_blank(ls: Seq<Seq<char>>) -> bool {
    forall|k: int| 0 <= k < ls.len() && is_blank(#[trigger] ls[k]) ==> !fence_open(ls.take(k))
}

proof fn lemma_parse_shaped(ls: Seq<Seq<char>>)
    requires
        forall|k: int| 0 <= k < ls.len() ==> no_newline(#[trigger] ls[k]),
        no_fenced_blank(ls),
    ensures
        doc_shaped(parse_lines(ls)),
        parse_lines(ls).len() >= 1,
    decreases ls.len(),
{
    lemma_markers();
    if ls.len() == 0 {
        let d = parse_lines(ls);
        assert(block_shaped(d[0], true));
    } else {
        let rest = ls.drop_last();
        assert forall|k: int| 0 <= k < rest.len() implies no_newline(#[trigger] rest[k]) by {
            assert(rest[k] == ls[k]);
        }
        assert forall|k: int| 0 <= k < rest.len() && is_blank(#[trigger] rest[k]) implies !fence_open(
            rest.take(k),
        ) by {
            assert(rest[k] == ls[k]);
            assert(rest.take(k) =~= ls.take(k));
        }
        lemma_parse_shaped(rest);
        let open = fence_open(rest);
        assert(ls.take(ls.len() - 1) =~= rest);
        assert(is_blank(ls[ls.len() - 1]) ==> !open);
        let d = parse_lines(rest);
        let l = ls.last();
        assert(no_newline(l));
        lemma_trim_no_newline(l);
        let r = raw_line_of(l);
        let d2 = parse_step(d, l, open);
        let b = d.last();
        assert(block_shaped(b, d.len() - 1 == 0));
        let tl = text_line(b, r, open);
        assert(line_shaped(tl)) by {
            assert(no_newline(prefix_of(LineType::ListContinuousLine)));
            assert(prefix_of(LineType::ListContinuousLine) == PREFIX_LIST_CONTINUATION@);
            assert(no_newline(PREFIX_LIST_CONTINUATION@ + r.trimmed));
        }
        assert forall|i: int| 0 <= i < d2.len() implies block_shaped(#[trigger] d2[i], i == 0) by {
            if i < d.len() {
                assert(block_shaped(d[i], i == 0));
                if i == d.len() - 1 && line_type_of(r.trimmed) != LineType::Header {
                    let nb = d2[i];
                    assert forall|j: int| 0 <= j < nb.contents.len() implies line_shaped(
                        #[trigger] nb.contents[j],
                    ) by {
                        if j < b.contents.len() {
                            assert(nb.contents[j] == b.contents[j]);
                        }
                    }
                }
            }
        }
    }
}

proof fn lemma_wrap_line_shaped(l: LineModel, max: nat)
    requires
        line_shaped(l),
    ensures
        lines_shaped(wrap_line(l, max)),
{
    lemma_markers();
    if splittable(l, max) {
        let pos = word_boundary(l, max)->0;
        crate::formatting::lemma_boundary_in_range(l, max);
        let h = split_head(l, pos);
        let t = split_tail(l, pos);
        assert(no_newline(h.contents));
        let rest = l.contents.subrange(pos, l.contents.len() as int);
        assert(no_newline(rest));
        lemma_trim_no_newline(rest);
        assert(no_newline(prefix_of(split_kind(l.line_type))));
        assert(no_newline(t.contents));
        let w = wrap_line(l, max);
        assert(w[0] == h && w[1] == t);
    } else {
        assert(wrap_line(l, max)[0] == l);
    }
}

proof fn lemma_wrap_pass_shaped(ls: Seq<LineModel>, max: nat)
    requires
        lines_shaped(ls),
    ensures
        lines_shaped(wrap_pass(ls, max)),
    decreases ls.len(),
{
    if ls.len() > 0 {
        let rest = ls.drop_last();
        assert forall|j: int| 0 <= j < rest.len() implies line_shaped(#[trigger] rest[j]) by {
            assert(rest[j] == ls[j]);
        }
        lemma_wrap_pass_shaped(rest, max);
        assert(line_shaped(ls.last()));
        lemma_wrap_line_shaped(ls.last(), max);
        let a = wrap_pass(rest, max);
        let b = wrap_line(ls.last(), max);
        assert forall|j: int| 0 <= j < (a + b).len() implies line_shaped(#[trigger] (a + b)[j]) by {
            if j >= a.len() {
                assert((a + b)[j] == b[j - a.len()]);
            }
        }
    }
}

proof fn lemma_wrap_rounds_shaped(ls: Seq<LineModel>, max: nat, n: nat)
    requires
        lines_shaped(ls),
    ensures
        lines_shaped(wrap_rounds(ls, max, n)),
    decreases n,
{
    if n > 0 {
        lemma_wrap_pass_shaped(ls, max);
        lemma_wrap_rounds_shaped(wrap_pass(ls, max), max, (n - 1) as nat);
    }
}

proof fn lemma_wrap_blocks_shaped(d: Seq<BlockModel>, max: nat)
    requires
        doc_shaped(d),
    ensures
        doc_shaped(wrap_blocks(d, max)),
{
    let w = wrap_blocks(d, max);
    assert forall|i: int| 0 <= i < w.len() implies block_shaped(#[trigger] w[i], i == 0) by {
        assert(block_shaped(d[i], i == 0));
        lemma_wrap_rounds_shaped(d[i].contents, max, crate::formatting::MAX_WRAP_PASSES as nat);
    }
}

/// Appending `b` to `a` adds no run of three line feeds where none was.
proof fn lemma_append(a: Seq<char>, b: Seq<char>)
    requires
        no_double_blank(a),
        no_double_blank(b),
        !(a.len() >= 2 && a[a.len() - 2] == '\n' && a[a.len() - 1] == '\n' && b.len() >= 1
            && b[0] == '\n'),
        !(a.len() >= 1 && a[a.len() - 1] == '\n' && b.len() >= 2 && b[0] == '\n' && b[1]
            == '\n'),
    ensures
        no_double_blank(a + b),
{
    let s = a + b;
    assert forall|i: int| 0 <= i && i + 2 < s.len() implies !(#[trigger] s[i] == '\n' && s[i + 1]
        == '\n' && s[i + 2] == '\n') by {
        if i + 2 < a.len() {
            assert(s[i] == a[i] && s[i + 1] == a[i + 1] && s[i + 2] == a[i + 2]);
        } else if i >= a.len() {
            assert(s[i] == b[i - a.len()] && s[i + 1] == b[i + 1 - a.len()] && s[i + 2] == b[i
                + 2 - a.len()]);
        } else if i == a.len() - 2 {
            assert(s[i] == a[i] && s[i + 1] == a[i + 1] && s[i + 2] == b[0]);
        } else {
            assert(s[i] == a[i] && s[i + 1] == b[0] && s[i + 2] == b[1]);
        }
    }
}

/// Text without line feeds, closed by `tail`, holds no blank line run.
proof fn lemma_piece(q: Seq<char>, tail: Seq<char>)
    requires
        no_newline(q),
        q.len() > 0,
        tail.len() <= 2,
    ensures
        no_double_blank(q + tail),
        (q + tail)[0] != '\n',
{
    let s = q + tail;
    assert(s[0] == q[0]);
    assert forall|i: int| 0 <= i && i + 2 < s.len() implies !(#[trigger] s[i] == '\n' && s[i + 1]
        == '\n' && s[i + 2] == '\n') by {
        assert(s[i] == q[i]);
    }
}

/// What holds of the renderer's text and last action between steps.
spec fn render_state_ok(out: Seq<char>, last: Action) -> bool {
    &&& no_double_blank(out)
    &&& last == Action::Start ==> out.len() == 0
    &&& last == Action::InsertBodyText ==> out.len() >= 2 && out[out.len() - 1] == '\n'
        && out[out.len() - 2] != '\n'
}

proof fn lemma_indented_no_newline(level: nat, c: Seq<char>)
    requires
        no_newline(c),
    ensures
        no_newline(indentation(level) + c),
{
    let s = indentation(level) + c;
    assert forall|i: int| 0 <= i < s.len() implies #[trigger] s[i] != '\n' by {
        if i < indentation(level).len() {
            assert(s[i] == ' ');
        } else {
            assert(s[i] == c[i - indentation(level).len()]);
        }
    }
}

proof fn lemma_render_line(out: Seq<char>, last: Action, l: LineModel)
    requires
        render_state_ok(out, last),
        last != Action::Start,
        line_shaped(l),
    ensures
        render_state_ok(render_line(out, last, l).0, render_line(out, last, l).1),
        render_line(out, last, l).1 != Action::Start,
{
    if l.line_type != LineType::Preformatted && last == Action::InsertBlankLine && l.contents.len()
        == 0 {
    } else if l.contents.len() == 0 {
        lemma_append(out, seq!['\n']);
    } else {
        let q = indentation(l.indent_level) + l.contents;
        lemma_indented_no_newline(l.indent_level, l.contents);
        lemma_piece(q, seq!['\n']);
        lemma_append(out, q + seq!['\n']);
        assert(out + indentation(l.indent_level) + l.contents + seq!['\n'] =~= out + (q + seq![
            '\n',
        ]));
        let s = out + (q + seq!['\n']);
        assert(s[s.len() - 2] == q[q.len() - 1]);
    }
}

proof fn lemma_render_lines(out: Seq<char>, last: Action, ls: Seq<LineModel>)
    requires
        render_state_ok(out, last),
        last != Action::Start,
        lines_shaped(ls),
    ensures
        render_state_ok(render_lines(out, last, ls).0, render_lines(out, last, ls).1),
        render_lines(out, last, ls).1 != Action::Start,
    decreases ls.len(),
{
    if ls.len() > 0 {
        let rest = ls.drop_last();
        assert forall|j: int| 0 <= j < rest.len() implies line_shaped(#[trigger] rest[j]) by {
            assert(rest[j] == ls[j]);
        }
        lemma_render_lines(out, last, rest);
        let (o, a) = render_lines(out, last, rest);
        lemma_render_line(o, a, ls.last());
    }
}

proof fn lemma_render_block(out: Seq<char>, last: Action, b: BlockModel)
    requires
        render_state_ok(out, last),
        block_shaped(b, last == Action::Start),
    ensures
        render_state_ok(render_block(out, last, b).0, render_block(out, last, b).1),
        render_block(out, last, b).1 != Action::Start,
{
    let o = if last == Action::InsertBodyText {
        out + seq!['\n']
    } else {
        out
    };
    if last == Action::InsertBodyText {
        lemma_append(out, seq!['\n']);
    }
    let q = indentation(b.header.indent_level) + b.header.contents;
    lemma_indented_no_newline(b.header.indent_level, b.header.contents);
    let head = o + indentation(b.header.indent_level) + b.header.contents + seq!['\n', '\n'];
    assert(head =~= o + (q + seq!['\n', '\n']));
    if q.len() > 0 {
        lemma_piece(q, seq!['\n', '\n']);
        lemma_append(o, q + seq!['\n', '\n']);
    } else {
        assert(o.len() == 0);
        assert(q + seq!['\n', '\n'] =~= seq!['\n', '\n']);
        assert(head =~= seq!['\n', '\n']);
    }
    lemma_render_lines(head, Action::InsertBlankLine, b.contents);
}

proof fn lemma_render_blocks(bs: Seq<BlockModel>)
    requires
        doc_shaped(bs),
    ensures
        render_state_ok(render_blocks(bs).0, render_blocks(bs).1),
        bs.len() > 0 ==> render_blocks(bs).1 != Action::Start,
        bs.len() == 0 ==> render_blocks(bs).1 == Action::Start,
    decreases bs.len(),
{
    if bs.len() > 0 {
        let rest = bs.drop_last();
        assert forall|i: int| 0 <= i < rest.len() implies block_shaped(#[trigger] rest[i], i == 0) by {
            assert(rest[i] == bs[i]);
            assert(block_shaped(bs[i], i == 0));
        }
        lemma_render_blocks(rest);
        let (o, a) = render_blocks(rest);
        assert(block_shaped(bs[bs.len() - 1], bs.len() - 1 == 0));
        lemma_render_block(o, a, bs.last());
    }
}

/// Blank-line collapse: outside fenced blocks runs of blank lines are
/// collapsed, so the canonical text of an input with no blank line inside a
/// fenced block never holds two blank lines in a row.
pub proof fn law_no_double_blank_lines(s: Seq<char>)
    requires
        no_fenced_blank(lines_of(s)),
    ensures
        no_double_blank(format_text(s)),
{
    let ls = lines_of(s);
    lemma_lines_no_newline(s, 0);
    lemma_parse_shaped(ls);
    let d = wrap_blocks(parse_text(s), crate::consts::MAX_LINE_LENGTH as nat);
    lemma_wrap_blocks_shaped(parse_text(s), crate::consts::MAX_LINE_LENGTH as nat);
    lemma_render_blocks(d);
    let out = render_blocks(d).0;
    lemma_skip_ws_bounds(out, 0);
    let t = trim_start(out);
    lemma_skip_spaces_back_bounds(t, t.len() as int);
    let r = trim_end_spaces(t);
    assert(r == document_text(d));
    assert forall|i: int| 0 <= i && i + 2 < r.len() implies !(#[trigger] r[i] == '\n' && r[i + 1]
        == '\n' && r[i + 2] == '\n') by {
        let k = i + skip_ws(out, 0);
        assert(r[i] == out[k] && r[i + 1] == out[k + 1] && r[i + 2] == out[k + 2]);
    }
}

proof fn lemma_parse_nonempty(ls: Seq<Seq<char>>)
    ensures
        parse_lines(ls).len() >= 1,
    decreases ls.len(),
{
    if ls.len() > 0 {
        lemma_parse_nonempty(ls.drop_last());
    }
}

/// Blank lines inside a fenced block are kept: a blank line read while a
/// fence is open becomes an empty body line that wrapping leaves alone and
/// the renderer writes as a line of its own, whatever was written before it.
pub proof fn law_fenced_blank_lines_kept(ls: Seq<Seq<char>>, l: Seq<char>, max: nat)
    requires
        is_blank(l),
        fence_open(ls),
    ensures
        ({
            let d = parse_lines(ls.push(l));
            let line = d.last().contents.last();
            &&& d.len() == parse_lines(ls).len()
            &&& d.last().contents.len() == parse_lines(ls).last().contents.len() + 1
            &&& line.contents.len() == 0
            &&& line.keep_blank
            &&& wrap_line(line, max) == seq![line]
            &&& forall|out: Seq<char>, last: Action|
                #[trigger] render_line(out, last, line) == (out + seq!['\n'], Action::InsertBlankLine)
        }),
{
    assert(ls.push(l).drop_last() =~= ls);
    lemma_parse_nonempty(ls);
    lemma_markers();
    reveal_strlit("* ");
    lemma_skip_ws_bounds(l, 0);
    assert(skip_ws(l, 0) == l.len());
    assert(trim(l).len() == 0);
    let t = trim(l);
    assert(!crate::text::starts_with(t, PREFIX_BULLET_POINT@));
    assert(line_type_of(t) != LineType::ListBulletPoint);
}

} // verus!
