//! Normalises plain-text outline documents: headers, lists, quotes and
//! preformatted lines get indentation from their nesting, blank lines are
//! collapsed and long body lines are wrapped at word boundaries.
use vstd::prelude::*;

pub mod consts;
pub mod text;
pub mod parsing;
pub mod formatting;
pub mod laws;

pub use formatting::{format_to_string, wrap_document, wrap_long_lines};
pub use parsing::parse_document;

use crate::consts::{
    INDENT_SHIFT, MARKER_FENCED_FILETYPE_BACKTICK, MARKER_FENCED_FILETYPE_TILDE, MAX_LINE_LENGTH,
    PREFIX_BULLET_POINT, PREFIX_HEADER, PREFIX_LIST_CONTINUATION, PREFIX_PREFORMATTED,
    PREFIX_QUOTE, PREFIX_TODO_ITEM,
};
use crate::text::{
    all_whitespace, chars_of, has_prefix, is_blank, leading_ws, skip_ws, starts_with, trim,
    trimmed,
};

verus! {

/// The canonical form of the outline text `s`: its document, with the body
/// lines of each block wrapped to `MAX_LINE_LENGTH` characters, written out.
pub open spec fn format_text(s: Seq<char>) -> Seq<char> {
    formatting::document_text(
        formatting::wrap_blocks(parsing::parse_text(s), MAX_LINE_LENGTH as nat),
    )
}

/// Normalises the outline text `contents`.
pub fn format(contents: &str) -> (r: String)
    ensures
        r@ == format_text(contents@),
{
    let mut document = parse_document(contents);
    wrap_document(&mut document, MAX_LINE_LENGTH);
    format_to_string(&document)
}

/// The kind of a line, from its first characters or, for a continuation
/// line, from the line before it.
#[derive(Debug, Eq, PartialEq, Structural, Default, Clone, Copy)]
pub enum LineType {
    #[default]
    Text,
    Header,
    /// A list item that starts with `* `.
    ListBulletPoint,
    /// A line that continues a list item begun on an earlier line.
    ListContinuousLine,
    /// An item on a to-do list, starting with `[`.
    ListTodoItem,
    /// A line that starts with `| ` or a fence marker; it may exceed the
    /// maximum width and is never wrapped.
    Preformatted,
    /// A line that starts with `> `.
    Quote,
}

/// The kind that the trimmed text `t` announces by its first characters.
pub open spec fn line_type_of(t: Seq<char>) -> LineType {
    if starts_with(t, PREFIX_HEADER@) {
        LineType::Header
    } else if starts_with(t, PREFIX_BULLET_POINT@) {
        LineType::ListBulletPoint
    } else if starts_with(t, PREFIX_TODO_ITEM@) {
        LineType::ListTodoItem
    } else if starts_with(t, MARKER_FENCED_FILETYPE_BACKTICK@) || starts_with(
        t,
        MARKER_FENCED_FILETYPE_TILDE@,
    ) || starts_with(t, PREFIX_PREFORMATTED@) {
        LineType::Preformatted
    } else if starts_with(t, PREFIX_QUOTE@) {
        LineType::Quote
    } else {
        LineType::Text
    }
}

/// The marker that a line of kind `t` starts with.
pub open spec fn prefix_of(t: LineType) -> Seq<char> {
    match t {
        LineType::Header => PREFIX_HEADER@,
        LineType::ListBulletPoint => PREFIX_BULLET_POINT@,
        LineType::ListContinuousLine => PREFIX_LIST_CONTINUATION@,
        LineType::ListTodoItem => PREFIX_TODO_ITEM@,
        LineType::Preformatted => PREFIX_PREFORMATTED@,
        LineType::Quote => PREFIX_QUOTE@,
        LineType::Text => Seq::empty(),
    }
}

/// How many characters of a line of kind `t` belong to its marker; a to-do
/// item's marker is `[ ] ` or `[x] `.
pub open spec fn prefix_length_of(t: LineType) -> nat {
    match t {
        LineType::ListTodoItem => 4,
        _ => prefix_of(t).len(),
    }
}

pub open spec fn is_list_kind(t: LineType) -> bool {
    t == LineType::ListBulletPoint || t == LineType::ListTodoItem || t
        == LineType::ListContinuousLine
}

impl LineType {
    /// Detects the kind of the trimmed line `line` by its first characters. A
    /// continuation line cannot be told from its own text: that takes the
    /// line before it.
    pub fn from_raw(line: &Vec<char>) -> (r: LineType)
        ensures
            r == line_type_of(line@),
    {
        if has_prefix(line, PREFIX_HEADER) {
            LineType::Header
        } else if has_prefix(line, PREFIX_BULLET_POINT) {
            LineType::ListBulletPoint
        } else if has_prefix(line, PREFIX_TODO_ITEM) {
            LineType::ListTodoItem
        } else if has_prefix(line, MARKER_FENCED_FILETYPE_BACKTICK) || has_prefix(
            line,
            MARKER_FENCED_FILETYPE_TILDE,
        ) || has_prefix(line, PREFIX_PREFORMATTED) {
            LineType::Preformatted
        } else if has_prefix(line, PREFIX_QUOTE) {
            LineType::Quote
        } else {
            LineType::Text
        }
    }

    pub fn get_prefix(&self) -> (r: &'static str)
        ensures
            r@ == prefix_of(*self),
    {
        match self {
            LineType::Header => PREFIX_HEADER,
            LineType::ListBulletPoint => PREFIX_BULLET_POINT,
            LineType::ListContinuousLine => PREFIX_LIST_CONTINUATION,
            LineType::ListTodoItem => PREFIX_TODO_ITEM,
            LineType::Preformatted => PREFIX_PREFORMATTED,
            LineType::Quote => PREFIX_QUOTE,
            LineType::Text => {
                proof {
                    reveal_strlit("");
                }
                ""
            },
        }
    }

    pub fn get_prefix_length(&self) -> (r: usize)
        ensures
            r == prefix_length_of(*self),
    {
        match self {
            LineType::ListTodoItem => 4,
            _ => self.get_prefix().unicode_len(),
        }
    }
}

/// One physical line of input.
#[derive(Debug, Default, Clone, Eq, PartialEq)]
pub struct RawLine {
    /// How many whitespace characters the line starts with.
    pub num_indent: usize,
    pub raw: Vec<char>,
    /// The line without leading and trailing whitespace.
    pub trimmed: Vec<char>,
}

pub struct RawLineModel {
    pub num_indent: nat,
    pub raw: Seq<char>,
    pub trimmed: Seq<char>,
}

impl View for RawLine {
    type V = RawLineModel;

    open spec fn view(&self) -> RawLineModel {
        RawLineModel { num_indent: self.num_indent as nat, raw: self.raw@, trimmed: self.trimmed@ }
    }
}

/// What `RawLine::from_string` makes of the line `l`.
pub open spec fn raw_line_of(l: Seq<char>) -> RawLineModel {
    RawLineModel { num_indent: skip_ws(l, 0) as nat, raw: l, trimmed: trim(l) }
}

impl RawLine {
    pub fn from_string(raw: &str) -> (r: RawLine)
        ensures
            r@ == raw_line_of(raw@),
    {
        RawLine::from_chars(chars_of(raw))
    }

    pub fn from_chars(raw: Vec<char>) -> (r: RawLine)
        ensures
            r@ == raw_line_of(raw@),
    {
        let num_indent = leading_ws(&raw);
        let trimmed = trimmed(&raw);
        RawLine { num_indent, raw, trimmed }
    }

    /// A copy of this line.
    pub fn copy_of(&self) -> (r: RawLine)
        ensures
            r@ == self@,
    {
        let raw = self.raw.clone();
        let trimmed = self.trimmed.clone();
        assert(raw@ =~= self.raw@);
        assert(trimmed@ =~= self.trimmed@);
        RawLine { num_indent: self.num_indent, raw, trimmed }
    }

    /// True when the line holds nothing but whitespace.
    pub fn is_empty(&self) -> (r: bool)
        ensures
            r == is_blank(self.raw@),
    {
        all_whitespace(&self.raw)
    }

    pub fn is_bullet_point(&self) -> (r: bool)
        ensures
            r == (line_type_of(self.trimmed@) == LineType::ListBulletPoint),
    {
        LineType::from_raw(&self.trimmed) == LineType::ListBulletPoint
    }

    /// True when the line starts a bullet point or a to-do item.
    pub fn is_list_item(&self) -> (r: bool)
        ensures
            r == (line_type_of(self.trimmed@) == LineType::ListBulletPoint || line_type_of(
                self.trimmed@,
            ) == LineType::ListTodoItem),
    {
        match LineType::from_raw(&self.trimmed) {
            LineType::ListBulletPoint | LineType::ListTodoItem => true,
            _ => false,
        }
    }

    /// True when the line opens or closes a fenced block.
    pub fn contains_marker(&self) -> (r: bool)
        ensures
            r == (starts_with(self.trimmed@, MARKER_FENCED_FILETYPE_BACKTICK@) || starts_with(
                self.trimmed@,
                MARKER_FENCED_FILETYPE_TILDE@,
            )),
    {
        has_prefix(&self.trimmed, MARKER_FENCED_FILETYPE_BACKTICK) || has_prefix(
            &self.trimmed,
            MARKER_FENCED_FILETYPE_TILDE,
        )
    }

    pub fn is_header(&self) -> (r: bool)
        ensures
            r == (line_type_of(self.trimmed@) == LineType::Header),
    {
        LineType::from_raw(&self.trimmed) == LineType::Header
    }
}

/// A line as it will be written: its kind, its nesting level and its text,
/// with the raw line it came from.
#[derive(Debug, Default, Clone, Eq, PartialEq)]
pub struct FormattedLine {
    pub contents: Vec<char>,
    pub indent_level: usize,
    pub line_type: LineType,
    pub original_raw: RawLine,
    /// A blank line inside a fenced block: written even right after another
    /// blank line.
    pub keep_blank: bool,
}

pub struct LineModel {
    pub contents: Seq<char>,
    pub indent_level: nat,
    pub line_type: LineType,
    pub original_raw: RawLineModel,
    pub keep_blank: bool,
}

impl View for FormattedLine {
    type V = LineModel;

    open spec fn view(&self) -> LineModel {
        LineModel {
            contents: self.contents@,
            indent_level: self.indent_level as nat,
            line_type: self.line_type,
            original_raw: self.original_raw@,
            keep_blank: self.keep_blank,
        }
    }
}

/// The empty line, which stands as header before the first real header.
pub open spec fn empty_line() -> LineModel {
    LineModel {
        contents: Seq::empty(),
        indent_level: 0,
        line_type: LineType::Text,
        original_raw: RawLineModel { num_indent: 0, raw: Seq::empty(), trimmed: Seq::empty() },
        keep_blank: false,
    }
}

/// The line that `r` gives at nesting level `level`, of the kind its text announces.
pub open spec fn line_from_raw(r: RawLineModel, level: nat) -> LineModel {
    LineModel {
        contents: r.trimmed,
        indent_level: level,
        line_type: line_type_of(r.trimmed),
        original_raw: r,
        keep_blank: false,
    }
}

/// The views of a sequence of lines.
pub open spec fn lines_view(v: Seq<FormattedLine>) -> Seq<LineModel> {
    v.map_values(|l: FormattedLine| l@)
}

impl FormattedLine {
    pub fn empty() -> (r: FormattedLine)
        ensures
            r@ == empty_line(),
    {
        let r = FormattedLine {
            contents: Vec::new(),
            indent_level: 0,
            line_type: LineType::Text,
            original_raw: RawLine { num_indent: 0, raw: Vec::new(), trimmed: Vec::new() },
            keep_blank: false,
        };
        assert(r@.contents =~= Seq::<char>::empty());
        assert(r@.original_raw.raw =~= Seq::<char>::empty());
        assert(r@.original_raw.trimmed =~= Seq::<char>::empty());
        r
    }

    pub fn from_raw(raw_line: RawLine, indent_level: usize) -> (r: FormattedLine)
        ensures
            r@ == line_from_raw(raw_line@, indent_level as nat),
    {
        let contents = raw_line.trimmed.clone();
        assert(contents@ =~= raw_line.trimmed@);
        let line_type = LineType::from_raw(&raw_line.trimmed);
        FormattedLine {
            contents,
            indent_level,
            line_type,
            original_raw: raw_line,
            keep_blank: false,
        }
    }

    /// A copy of this line.
    pub fn copy_of(&self) -> (r: FormattedLine)
        ensures
            r@ == self@,
    {
        let contents = self.contents.clone();
        assert(contents@ =~= self.contents@);
        FormattedLine {
            contents,
            indent_level: self.indent_level,
            line_type: self.line_type,
            original_raw: self.original_raw.copy_of(),
            keep_blank: self.keep_blank,
        }
    }

    pub fn is_empty(&self) -> (r: bool)
        ensures
            r == (self.contents@.len() == 0),
    {
        self.contents.len() == 0
    }

    /// Spaces of indentation the line is written with.
    pub fn num_indent(&self) -> (r: usize)
        requires
            self.indent_level * INDENT_SHIFT <= usize::MAX,
        ensures
            r == self.indent_level * INDENT_SHIFT,
    {
        self.indent_level * INDENT_SHIFT
    }

    pub fn is_list_item(&self) -> (r: bool)
        ensures
            r == is_list_kind(self.line_type),
    {
        match self.line_type {
            LineType::ListBulletPoint | LineType::ListTodoItem | LineType::ListContinuousLine => true,
            _ => false,
        }
    }
}

/// A header and the body lines under it.
#[derive(Debug)]
pub struct Block {
    pub contents: Vec<FormattedLine>,
    pub header: FormattedLine,
    /// True for the block of the lines before the first header.
    pub is_before_first_header: bool,
}

pub struct BlockModel {
    pub contents: Seq<LineModel>,
    pub header: LineModel,
    pub is_before_first_header: bool,
}

impl View for Block {
    type V = BlockModel;

    open spec fn view(&self) -> BlockModel {
        BlockModel {
            contents: lines_view(self.contents@),
            header: self.header@,
            is_before_first_header: self.is_before_first_header,
        }
    }
}

/// A block with header `h` and no body yet.
pub open spec fn new_block(h: LineModel) -> BlockModel {
    BlockModel { contents: Seq::empty(), header: h, is_before_first_header: h.contents.len() == 0 }
}

/// Index of the last line of `ls[..end]` of kind `t`.
pub open spec fn latest_of_type(ls: Seq<LineModel>, t: LineType, end: int) -> Option<int>
    decreases end,
{
    if end <= 0 || end > ls.len() {
        None
    } else if ls[end - 1].line_type == t {
        Some(end - 1)
    } else {
        latest_of_type(ls, t, end - 1)
    }
}

/// Index of the last line of `ls[..end]` whose raw line had `n` leading whitespace characters.
pub open spec fn latest_line_with_indent(ls: Seq<LineModel>, n: nat, end: int) -> Option<int>
    decreases end,
{
    if end <= 0 || end > ls.len() {
        None
    } else if ls[end - 1].original_raw.num_indent == n {
        Some(end - 1)
    } else {
        latest_line_with_indent(ls, n, end - 1)
    }
}

/// Index of the last block of `bs[..end]` whose header's raw line had `n`
/// leading whitespace characters.
pub open spec fn latest_block_with_indent(bs: Seq<BlockModel>, n: nat, end: int) -> Option<int>
    decreases end,
{
    if end <= 0 || end > bs.len() {
        None
    } else if bs[end - 1].header.original_raw.num_indent == n {
        Some(end - 1)
    } else {
        latest_block_with_indent(bs, n, end - 1)
    }
}

impl Block {
    pub fn new(header: FormattedLine) -> (r: Block)
        ensures
            r@ == new_block(header@),
    {
        let is_before_first_header = header.is_empty();
        let r = Block { header, contents: Vec::new(), is_before_first_header };
        assert(r@.contents =~= Seq::<LineModel>::empty());
        r
    }

    pub fn add_line(&mut self, line: FormattedLine)
        ensures
            final(self)@ == (BlockModel {
                contents: old(self)@.contents.push(line@),
                ..old(self)@
            }),
    {
        self.contents.push(line);
        assert(self@.contents =~= old(self)@.contents.push(line@));
    }

    /// The nesting level of the block's body text: 0 before the first
    /// header, else one below the header.
    pub fn contents_indent_level(&self) -> (r: usize)
        requires
            self.header.indent_level < usize::MAX,
        ensures
            r == if self.is_before_first_header {
                0
            } else {
                self.header.indent_level + 1
            },
    {
        if self.is_before_first_header {
            0
        } else {
            self.header.indent_level + 1
        }
    }

    /// The nesting level of the block's header.
    fn indent_level(&self) -> (r: usize)
        ensures
            r == self@.header.indent_level,
    {
        self.header.indent_level
    }

    fn has_header(&self) -> (r: bool)
        ensures
            r == (self@.header.contents.len() > 0),
    {
        !self.header.is_empty()
    }

    fn raw_header_indent(&self) -> (r: usize)
        ensures
            r == self@.header.original_raw.num_indent,
    {
        self.header.original_raw.num_indent
    }

    fn last_line(&self) -> (r: Option<&FormattedLine>)
        ensures
            r.is_some() == (self@.contents.len() > 0),
            r.is_some() ==> r.unwrap()@ == self@.contents.last(),
    {
        if self.contents.len() == 0 {
            None
        } else {
            Some(&self.contents[self.contents.len() - 1])
        }
    }

    fn find_previous_of(&self, line_type: LineType) -> (r: Option<&FormattedLine>)
        ensures
            ({
                let found = latest_of_type(self@.contents, line_type, self@.contents.len() as int);
                &&& r.is_some() == found.is_some()
                &&& r.is_some() ==> r.unwrap()@ == self@.contents[found.unwrap()]
            }),
    {
        let mut i = self.contents.len();
        while i > 0
            invariant
                i <= self.contents.len(),
                latest_of_type(self@.contents, line_type, self@.contents.len() as int)
                    == latest_of_type(self@.contents, line_type, i as int),
            decreases i,
        {
            if self.contents[i - 1].line_type == line_type {
                return Some(&self.contents[i - 1]);
            }
            i -= 1;
        }
        None
    }

    fn find_latest_line_with_raw_indent(&self, num_indent: usize) -> (r: Option<&FormattedLine>)
        ensures
            ({
                let found = latest_line_with_indent(
                    self@.contents,
                    num_indent as nat,
                    self@.contents.len() as int,
                );
                &&& r.is_some() == found.is_some()
                &&& r.is_some() ==> r.unwrap()@ == self@.contents[found.unwrap()]
            }),
    {
        let mut i = self.contents.len();
        while i > 0
            invariant
                i <= self.contents.len(),
                latest_line_with_indent(self@.contents, num_indent as nat, self@.contents.len() as int)
                    == latest_line_with_indent(self@.contents, num_indent as nat, i as int),
            decreases i,
        {
            if self.contents[i - 1].original_raw.num_indent == num_indent {
                return Some(&self.contents[i - 1]);
            }
            i -= 1;
        }
        None
    }
}

/// A document: its blocks in reading order. The first block holds the lines
/// before the first header.
#[derive(Debug)]
pub struct Document {
    pub blocks: Vec<Block>,
}

impl View for Document {
    type V = Seq<BlockModel>;

    open spec fn view(&self) -> Seq<BlockModel> {
        self.blocks@.map_values(|b: Block| b@)
    }
}

/// The document before any line is read: one block, with the empty header.
pub open spec fn initial_document() -> Seq<BlockModel> {
    seq![new_block(empty_line())]
}

impl Document {
    pub fn new() -> (r: Document)
        ensures
            r@ == initial_document(),
            r.blocks.len() == 1,
    {
        let empty_header = FormattedLine::empty();
        let first_block = Block::new(empty_header);
        let r = Document { blocks: vec![first_block] };
        assert(r@ =~= initial_document());
        r
    }

    pub fn add_block(&mut self, block: Block)
        ensures
            final(self)@ == old(self)@.push(block@),
    {
        self.blocks.push(block);
        assert(self@ =~= old(self)@.push(block@));
    }

    fn last_block(&self) -> (r: &Block)
        requires
            self.blocks.len() > 0,
        ensures
            r@ == self@.last(),
    {
        &self.blocks[self.blocks.len() - 1]
    }

    fn last_block_mut(&mut self) -> (r: &mut Block)
        requires
            old(self).blocks.len() > 0,
        ensures
            *r == old(self).blocks@.last(),
            final(self).blocks@ == old(self).blocks@.update(
                old(self).blocks.len() - 1,
                *final(r),
            ),
    {
        let n = self.blocks.len();
        &mut self.blocks[n - 1]
    }

    /// The block at `i`, to change in place.
    pub fn block_mut(&mut self, i: usize) -> (r: &mut Block)
        requires
            i < old(self).blocks.len(),
        ensures
            *r == old(self).blocks@[i as int],
            final(self).blocks@ == old(self).blocks@.update(i as int, *final(r)),
    {
        &mut self.blocks[i]
    }

    fn find_latest_block_with_raw_indent(&self, num_indent: usize) -> (r: Option<&Block>)
        ensures
            ({
                let found = latest_block_with_indent(self@, num_indent as nat, self@.len() as int);
                &&& r.is_some() == found.is_some()
                &&& r.is_some() ==> r.unwrap()@ == self@[found.unwrap()]
            }),
    {
        let mut i = self.blocks.len();
        while i > 0
            invariant
                i <= self.blocks.len(),
                latest_block_with_indent(self@, num_indent as nat, self@.len() as int)
                    == latest_block_with_indent(self@, num_indent as nat, i as int),
            decreases i,
        {
            if self.blocks[i - 1].raw_header_indent() == num_indent {
                return Some(&self.blocks[i - 1]);
            }
            i -= 1;
        }
        None
    }
}

impl Default for Document {
    fn default() -> (r: Document)
        ensures
            r@ == initial_document(),
    {
        Document::new()
    }
}

} // verus!
