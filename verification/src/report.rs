//! The text report of the diagnostics of a failed compilation.
//!
//! Each diagnostic becomes one block: the word "Error", its message, and
//! the line of the text it points to with the position marked. The position
//! is given to the report renderer in characters, so each diagnostic's
//! range of bytes is mapped first.
use crate::span::{boundary_at_or_after, byte_span_to_char_span, char_span};
use std::ops::Range;
use vstd::prelude::*;
use vstd::string::*;

verus! {

/// The name under which the text appears in a report. It stands for the
/// text that was handed in, not for a file.
pub const FILE_NAME: &'static str = "<user input>";

/// The number of columns that a tab takes in a report.
pub const TAB_WIDTH: u8 = 2;

/// The number of characters below which the report renderer can number the
/// lines of a text.
pub const SOURCE_LIMIT: usize = 1_000_000_000;

/// Which part of a diagnostic's range a report marks.
#[derive(Debug, Clone, Copy, PartialEq, Eq, Structural)]
pub enum ErrorPos {
    /// The whole range.
    Full,
    /// The point at which the range starts.
    Start,
    /// The point at which the range ends.
    End,
}

/// One diagnostic of a failed compilation.
#[derive(Debug)]
pub struct SourceError {
    /// The range of bytes of the text that the diagnostic is about.
    pub span: Range<usize>,
    /// The part of the range to mark.
    pub pos: ErrorPos,
    /// What went wrong.
    pub message: String,
}

impl Clone for SourceError {
    fn clone(&self) -> (copy: Self)
        ensures
            copy == *self,
    {
        SourceError {
            span: self.span.start..self.span.end,
            pos: self.pos,
            message: self.message.clone(),
        }
    }
}

/// The diagnostics of a failed compilation, with the text they point into.
#[derive(Debug)]
pub struct SourceErrorsWithSource {
    /// The text that was compiled.
    pub source: String,
    /// The diagnostics, in the order in which they are reported.
    pub errors: Vec<SourceError>,
}

/// Why no report could be written: a diagnostic points to where the text
/// has no character.
#[derive(Debug, Clone, Copy, PartialEq, Eq, Structural)]
pub struct FormatFault;

/// The range that is marked for a diagnostic with range `span`: the range
/// itself, or the empty range at its start or at its end.
pub open spec fn marked_span(span: Range<usize>, pos: ErrorPos) -> Range<usize> {
    match pos {
        ErrorPos::Full => span,
        ErrorPos::Start => Range { start: span.start, end: span.start },
        ErrorPos::End => Range { start: span.end, end: span.end },
    }
}

/// Narrows the range of a diagnostic to the part that is marked.
pub fn mark(span: &Range<usize>, pos: ErrorPos) -> (marked: Range<usize>)
    ensures
        marked == marked_span(*span, pos),
{
    match pos {
        ErrorPos::Full => span.start..span.end,
        ErrorPos::Start => span.start..span.start,
        ErrorPos::End => span.end..span.end,
    }
}

/// The characters of a text `chars` that a report marks for `error`, if its
/// range maps to any.
pub open spec fn label_span(chars: Seq<char>, error: SourceError) -> Option<(int, int)> {
    char_span(chars, marked_span(error.span, error.pos))
}

/// The first line of a block: the word "Error", the message, and a line
/// break.
pub open spec fn heading(message: Seq<char>) -> Seq<char> {
    seq!['E', 'r', 'r', 'o', 'r', ':', ' '] + message + seq!['\n']
}

/// `part` stands somewhere in `text`.
pub open spec fn occurs_in(part: Seq<char>, text: Seq<char>) -> bool {
    exists|at: int|
        0 <= at && at + part.len() <= text.len() && #[trigger] text.subrange(
            at,
            at + part.len(),
        ) == part
}

/// What ariadne writes for an error report without colour: the report has
/// the message `message` and one label without a message of its own, from
/// character `start` to character `end` of the text `text`, which is shown
/// under the name `name`, with tabs `tab_width` columns wide.
pub uninterp spec fn report_block(
    name: Seq<char>,
    text: Seq<char>,
    message: Seq<char>,
    start: int,
    end: int,
    tab_width: int,
) -> Seq<char>;

/// Writes one error report with ariadne: `Report::build` for an error at
/// `start`, configured with `Config::with_tab_width` and
/// `Config::with_color`, given `message` and one label over `start..end`,
/// and written by `Report::write` against the text `text` under the name
/// `name`.
///
/// The contract claims that what is written depends on these arguments
/// alone, and that it starts with the line that `Report::write` writes
/// first: the kind of the report and a colon, a space, and the message.
/// It leaves out what ariadne does not take: a label that ends
/// before it starts or lies outside the text, a text without a line, tabs
/// of no width, and a text of so many characters that its line numbers
/// outgrow ariadne's 32-bit count of digits. With colour the output would
/// depend on the process-wide switch of the styling crate, so the contract
/// covers the plain output only.
#[verifier::external_body]
fn write_block(
    name: &str,
    text: &str,
    message: &str,
    start: usize,
    end: usize,
    tab_width: u8,
    color: bool,
) -> (block: String)
    requires
        start <= end < text@.len() < SOURCE_LIMIT,
        tab_width > 0,
        !color,
    ensures
        block@ == report_block(
            name@,
            text@,
            message@,
            start as int,
            end as int,
            tab_width as int,
        ),
        heading(message@).is_prefix_of(block@),
{
    let config =
        ariadne::Config::default().with_tab_width(usize::from(tab_width)).with_color(color);
    let report = ariadne::Report::build(ariadne::ReportKind::Error, name, start)
        .with_config(config)
        .with_message(message)
        .with_label(ariadne::Label::new((name, start..end)))
        .finish();
    let mut bytes = Vec::new();
    report.write((name, ariadne::Source::from(text)), &mut bytes).unwrap();
    String::from_utf8(bytes).unwrap()
}

/// The block of the report for `error`, whose range maps to characters of
/// `chars`.
pub open spec fn block_of(chars: Seq<char>, error: SourceError) -> Seq<char>
    recommends
        label_span(chars, error) is Some,
{
    let span = label_span(chars, error)->0;
    report_block(FILE_NAME@, chars, error.message@, span.0, span.1, TAB_WIDTH as int)
}

/// The characters of each of `blocks`.
pub open spec fn texts(blocks: Seq<String>) -> Seq<Seq<char>> {
    blocks.map_values(|block: String| block@)
}

/// The report for `errors`, all of which map to characters of `chars`: one
/// block for each, in order, with nothing in between.
pub open spec fn report_text(chars: Seq<char>, errors: Seq<SourceError>) -> Seq<char> {
    errors.map_values(|error: SourceError| block_of(chars, error)).flatten()
}

/// Each of the texts that are joined stands in the whole, and so does
/// whatever it starts with.
pub proof fn lemma_block_occurs(blocks: Seq<Seq<char>>, i: int, start: Seq<char>)
    requires
        0 <= i < blocks.len(),
        start.is_prefix_of(blocks[i]),
    ensures
        occurs_in(blocks[i], blocks.flatten()),
        occurs_in(start, blocks.flatten()),
{
    let before = blocks.take(i);
    let single = seq![blocks[i]];
    let after = blocks.skip(i + 1);
    let at = before.flatten().len() as int;
    assert(blocks =~= before + single + after);
    vstd::seq_lib::lemma_flatten_concat(before + single, after);
    vstd::seq_lib::lemma_flatten_concat(before, single);
    single.lemma_flatten_one_element();
    assert(blocks.flatten().subrange(at, at + blocks[i].len()) =~= blocks[i]);
    assert(blocks.flatten().subrange(at, at + start.len()) =~= start);
}

/// Joins the blocks of a report, in order and with nothing in between.
pub fn concat_blocks(blocks: &Vec<String>) -> (text: String)
    ensures
        text@ == texts(blocks@).flatten(),
{
    let mut text = String::new();
    let mut i: usize = 0;
    assert(texts(blocks@.take(0)) =~= Seq::<Seq<char>>::empty());
    while i < blocks.len()
        invariant
            i <= blocks.len(),
            text@ == texts(blocks@.take(i as int)).flatten(),
        decreases blocks.len() - i,
    {
        text.append(blocks[i].as_str());
        proof {
            broadcast use Seq::lemma_flatten_push;

            assert(texts(blocks@.take(i + 1)) =~= texts(blocks@.take(i as int)).push(
                blocks@[i as int]@,
            ));
        }
        i += 1;
    }
    assert(blocks@.take(i as int) =~= blocks@);
    text
}

impl SourceError {
    /// The characters of `source` that a report marks for this
    /// diagnostic: the marked part of its range, mapped from bytes to
    /// characters. `None` when that part does not map: when it is not
    /// empty, as a whole range with distinct bounds, or when no character
    /// starts at or after it.
    pub fn label(&self, source: &str) -> (span: Option<Range<usize>>)
        ensures
            match span {
                Some(range) => label_span(source@, *self) == Some(
                    (range.start as int, range.end as int),
                ),
                None => label_span(source@, *self) is None,
            },
            span matches Some(range) ==> range.start == range.end < source@.len(),
            span is Some <==> {
                let marked = marked_span(self.span, self.pos);
                &&& marked.start == marked.end
                &&& boundary_at_or_after(source@, marked.start as int) is Some
            },
            self.pos == ErrorPos::Full && self.span.start != self.span.end ==> span is None,
    {
        byte_span_to_char_span(source, mark(&self.span, self.pos))
    }
}

impl SourceErrorsWithSource {
    /// Every diagnostic has characters of the text to mark.
    pub open spec fn all_marked(&self) -> bool {
        forall|i: int|
            0 <= i < self.errors@.len() ==> label_span(self.source@, #[trigger] self.errors@[i])
                is Some
    }

    /// `result` is what formatting comes to: the report if every
    /// diagnostic has characters to mark, and a fault otherwise. The
    /// report holds the heading of every diagnostic.
    pub open spec fn formatted(&self, result: Result<String, FormatFault>) -> bool {
        &&& result is Ok <==> self.all_marked()
        &&& result matches Ok(text) ==> {
            &&& text@ == report_text(self.source@, self.errors@)
            &&& forall|i: int|
                0 <= i < self.errors@.len() ==> occurs_in(
                    heading(#[trigger] self.errors@[i].message@),
                    text@,
                )
        }
    }

    /// Writes the report: one block for each diagnostic, in the order in
    /// which they stand.
    ///
    /// Each block is an error report of the diagnostic's message with a
    /// label at the characters that its range marks, against the text
    /// under the name [`FILE_NAME`], with tabs [`TAB_WIDTH`] columns wide
    /// and without colour. If the range of any diagnostic does not map to
    /// characters of the text, there is no report at all.
    ///
    /// The text must be shorter than [`SOURCE_LIMIT`] characters;
    /// [`try_format`](Self::try_format) tests that first.
    pub fn format(&self) -> (result: Result<String, FormatFault>)
        requires
            self.source@.len() < SOURCE_LIMIT,
        ensures
            self.formatted(result),
    {
        let source = self.source.as_str();
        let mut blocks: Vec<String> = Vec::new();
        let mut i: usize = 0;
        while i < self.errors.len()
            invariant
                source@ == self.source@,
                source@.len() < SOURCE_LIMIT,
                i <= self.errors.len(),
                forall|j: int|
                    0 <= j < i ==> label_span(self.source@, #[trigger] self.errors@[j]) is Some,
                texts(blocks@) =~= self.errors@.take(i as int).map_values(
                    |error: SourceError| block_of(self.source@, error),
                ),
                forall|j: int|
                    0 <= j < i ==> heading(#[trigger] self.errors@[j].message@).is_prefix_of(
                        texts(blocks@)[j],
                    ),
            decreases self.errors.len() - i,
        {
            let error = &self.errors[i];
            let span = match error.label(source) {
                Some(span) => span,
                None => {
                    return Err(FormatFault);
                },
            };
            let block = write_block(
                FILE_NAME,
                source,
                error.message.as_str(),
                span.start,
                span.end,
                TAB_WIDTH,
                false,
            );
            proof {
                let done = self.errors@.take(i as int);
                assert(block@ == block_of(self.source@, self.errors@[i as int]));
                assert(self.errors@.take(i + 1) =~= done.push(self.errors@[i as int]));
                assert(texts(blocks@.push(block)) =~= texts(blocks@).push(block@));
            }
            blocks.push(block);
            i += 1;
        }
        assert(self.errors@.take(i as int) =~= self.errors@);
        let text = concat_blocks(&blocks);
        assert forall|j: int| 0 <= j < self.errors@.len() implies occurs_in(
            heading(#[trigger] self.errors@[j].message@),
            text@,
        ) by {
            lemma_block_occurs(texts(blocks@), j, heading(self.errors@[j].message@));
        }
        Ok(text)
    }

    /// Writes the report as [`format`](Self::format) does, unless the text
    /// has [`SOURCE_LIMIT`] characters or more: then nothing is written and
    /// the result is `None`.
    pub fn try_format(&self) -> (result: Option<Result<String, FormatFault>>)
        ensures
            result is Some <==> self.source@.len() < SOURCE_LIMIT,
            result matches Some(report) ==> self.formatted(report),
    {
        if self.source.as_str().unicode_len() < SOURCE_LIMIT {
            Some(self.format())
        } else {
            None
        }
    }
}

} // verus!
