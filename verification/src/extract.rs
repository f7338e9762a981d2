//! The block extractor: a state machine that reads a file line by line and
//! emits the documentation blocks its comments hold.
//!
//! A block is emitted when it is complete. A block that the end of the file
//! cuts short is dropped, and is no error.

use crate::text::{
    chars_of, has_prefix, join, join_lines, lemma_space_makes_no_difference,
    lemma_without_spaces_keeps_the_rest, lines_of, not_space, push_str, split_lines,
    starts_with, string_of, strip_spaces, trim_start, trimmed_tail, views, without_spaces,
};
use vstd::prelude::*;

verus! {

/// The prefixes that the extractor looks for, made from the comment
/// delimiters of a language.
pub struct Markers {
    /// Starts the one-line header of a block.
    pub header: Seq<char>,
    /// Opens the summary of the file.
    pub file_open: Seq<char>,
    /// Opens the summary of a block; expected on the line after a header.
    pub item_open: Seq<char>,
    /// Ends a summary.
    pub summary_end: Seq<char>,
    /// Ends the code of a block, compared with a line without its spaces.
    pub code_end: Seq<char>,
}

/// The markers for an inline comment delimiter and a pair of multi-line
/// comment delimiters.
pub open spec fn markers(inline: Seq<char>, open: Seq<char>, close: Seq<char>) -> Markers {
    Markers {
        header: inline + "!"@,
        file_open: open + "filesummary"@,
        item_open: open + "startsummary"@,
        summary_end: "endsummary"@ + close,
        code_end: inline + "ENDVEXDOC"@,
    }
}

/// The markers, ready to be compared with lines.
pub struct MarkerSet {
    pub header: Vec<char>,
    pub file_open: Vec<char>,
    pub item_open: Vec<char>,
    pub summary_end: Vec<char>,
    pub code_end: Vec<char>,
}

impl View for MarkerSet {
    type V = Markers;

    open spec fn view(&self) -> Markers {
        Markers {
            header: self.header@,
            file_open: self.file_open@,
            item_open: self.item_open@,
            summary_end: self.summary_end@,
            code_end: self.code_end@,
        }
    }
}

impl MarkerSet {
    /// The markers for an inline comment delimiter and a pair of multi-line
    /// comment delimiters.
    pub fn new(inline: &str, open: &str, close: &str) -> (set: MarkerSet)
        ensures
            set@ == markers(inline@, open@, close@),
    {
        let mut header = chars_of(inline);
        push_str(&mut header, "!");
        let mut file_open = chars_of(open);
        push_str(&mut file_open, "filesummary");
        let mut item_open = chars_of(open);
        push_str(&mut item_open, "startsummary");
        let mut summary_end = chars_of("endsummary");
        push_str(&mut summary_end, close);
        let mut code_end = chars_of(inline);
        push_str(&mut code_end, "ENDVEXDOC");
        MarkerSet { header, file_open, item_open, summary_end, code_end }
    }
}

/// One extracted unit of documentation.
#[derive(Debug, Clone, PartialEq, Eq)]
pub struct DocBlock {
    /// The title of the block; empty for the summary of a file.
    pub heading: String,
    /// The summary lines, joined by single spaces.
    pub summary: String,
    /// The code lines, joined by line feeds; `None` for the summary of a file.
    pub code: Option<String>,
}

/// The mathematical value of a `DocBlock`.
pub struct BlockText {
    pub heading: Seq<char>,
    pub summary: Seq<char>,
    pub code: Option<Seq<char>>,
}

impl View for DocBlock {
    type V = BlockText;

    open spec fn view(&self) -> BlockText {
        BlockText {
            heading: self.heading@,
            summary: self.summary@,
            code: match self.code {
                Some(c) => Some(c@),
                None => None,
            },
        }
    }
}

/// The values of a sequence of blocks, element by element.
pub open spec fn block_views(blocks: Seq<DocBlock>) -> Seq<BlockText> {
    Seq::new(blocks.len(), |i: int| blocks[i]@)
}

/// Where the extractor stands between two lines.
#[derive(Debug, Clone, Copy, PartialEq, Eq)]
pub enum ParserState {
    /// Outside any block: lines are skipped until a header or the opener of
    /// a file summary comes.
    Ignore,
    /// Inside the summary of the file.
    FileSummary,
    /// After a header: the next line must open a summary.
    Title,
    /// Inside the summary of a block.
    ItemSummary,
    /// Inside the code of a block.
    Code,
}

/// The whole state of the extractor between two lines.
pub struct Machine {
    pub state: ParserState,
    /// Whether the opener of a file summary is still recognised. It is until
    /// the first header.
    pub file_summary_enabled: bool,
    /// The heading of the block under way.
    pub heading: Seq<char>,
    /// The summary of the block under way, once it has ended.
    pub summary: Seq<char>,
    /// The lines gathered for the section under way.
    pub included: Seq<Seq<char>>,
    /// The blocks emitted so far, in the order of the file.
    pub blocks: Seq<BlockText>,
    /// The number of lines read.
    pub consumed: nat,
    /// The position of the line that broke the structure, if one did.
    pub failed_at: Option<nat>,
}

/// The extractor before the first line.
pub open spec fn initial() -> Machine {
    Machine {
        state: ParserState::Ignore,
        file_summary_enabled: true,
        heading: Seq::empty(),
        summary: Seq::empty(),
        included: Seq::empty(),
        blocks: Seq::empty(),
        consumed: 0,
        failed_at: None,
    }
}

/// The heading that a header line gives: what follows the marker, without
/// leading whitespace.
pub open spec fn heading_of(m: Markers, line: Seq<char>) -> Seq<char> {
    trim_start(line.subrange(m.header.len() as int, line.len() as int))
}

/// `line` ends the code of a block: without its spaces it begins with the
/// end marker.
pub open spec fn ends_code(m: Markers, line: Seq<char>) -> bool {
    starts_with(without_spaces(line), m.code_end)
}

/// The extractor after one more line.
pub open spec fn step(m: Markers, s: Machine, line: Seq<char>) -> Machine {
    if s.failed_at is Some {
        s
    } else {
        let s = Machine { consumed: s.consumed + 1, ..s };
        match s.state {
            ParserState::Ignore => {
                if starts_with(line, m.header) {
                    Machine {
                        state: ParserState::Title,
                        file_summary_enabled: false,
                        heading: heading_of(m, line),
                        ..s
                    }
                } else if s.file_summary_enabled && starts_with(line, m.file_open) {
                    Machine { state: ParserState::FileSummary, ..s }
                } else {
                    s
                }
            },
            ParserState::FileSummary => {
                if starts_with(line, m.summary_end) {
                    Machine {
                        state: ParserState::Ignore,
                        included: Seq::empty(),
                        blocks: s.blocks.push(
                            BlockText {
                                heading: Seq::empty(),
                                summary: join(s.included, ' '),
                                code: None,
                            },
                        ),
                        ..s
                    }
                } else {
                    Machine { included: s.included.push(line), ..s }
                }
            },
            ParserState::Title => {
                if starts_with(line, m.item_open) {
                    Machine { state: ParserState::ItemSummary, ..s }
                } else {
                    Machine { failed_at: Some((s.consumed - 1) as nat), ..s }
                }
            },
            ParserState::ItemSummary => {
                if starts_with(line, m.summary_end) {
                    Machine {
                        state: ParserState::Code,
                        summary: join(s.included, ' '),
                        included: Seq::empty(),
                        ..s
                    }
                } else {
                    Machine { included: s.included.push(line), ..s }
                }
            },
            ParserState::Code => {
                if ends_code(m, line) {
                    Machine {
                        state: ParserState::Ignore,
                        included: Seq::empty(),
                        blocks: s.blocks.push(
                            BlockText {
                                heading: s.heading,
                                summary: s.summary,
                                code: Some(join(s.included, '\n')),
                            },
                        ),
                        ..s
                    }
                } else {
                    Machine { included: s.included.push(line), ..s }
                }
            },
        }
    }
}

/// The extractor after the given lines, one after the other.
pub open spec fn run(m: Markers, s: Machine, lines: Seq<Seq<char>>) -> Machine
    decreases lines.len(),
{
    if lines.len() == 0 {
        s
    } else {
        step(m, run(m, s, lines.drop_last()), lines.last())
    }
}

/// What the extraction of a file's lines gives: the blocks in the order of
/// the file, or the position of the line that broke the structure.
pub open spec fn extraction(m: Markers, lines: Seq<Seq<char>>) -> Result<Seq<BlockText>, nat> {
    let end = run(m, initial(), lines);
    match end.failed_at {
        Some(at) => Err(at),
        None => Ok(end.blocks),
    }
}

/// Reading `a` and then `b` is reading `a + b`.
pub proof fn lemma_run_concat(m: Markers, s: Machine, a: Seq<Seq<char>>, b: Seq<Seq<char>>)
    ensures
        run(m, s, a + b) == run(m, run(m, s, a), b),
    decreases b.len(),
{
    if b.len() == 0 {
        assert(a + b =~= a);
    } else {
        assert((a + b).drop_last() =~= a + b.drop_last());
        assert((a + b).last() == b.last());
        lemma_run_concat(m, s, a, b.drop_last());
    }
}

/// Once a line has broken the structure, no further line changes anything.
pub proof fn lemma_failure_is_final(m: Markers, s: Machine, lines: Seq<Seq<char>>)
    requires
        s.failed_at is Some,
    ensures
        run(m, s, lines) == s,
    decreases lines.len(),
{
    if lines.len() > 0 {
        lemma_failure_is_final(m, s, lines.drop_last());
    }
}

/// Extracts the blocks from the lines of a file.
pub fn extract_lines(lines: &Vec<Vec<char>>, m: &MarkerSet) -> (r: Result<Vec<DocBlock>, usize>)
    ensures
        match r {
            Ok(blocks) => extraction(m@, views(lines@)) == Ok::<Seq<BlockText>, nat>(
                block_views(blocks@),
            ),
            Err(at) => extraction(m@, views(lines@)) == Err::<Seq<BlockText>, nat>(at as nat),
        },
{
    let ghost all = views(lines@);
    let mut state = ParserState::Ignore;
    let mut enabled = true;
    let mut heading: Vec<char> = Vec::new();
    let mut summary: Vec<char> = Vec::new();
    let mut start: usize = 0;
    let mut blocks: Vec<DocBlock> = Vec::new();
    let mut i: usize = 0;
    proof {
        assert(all.take(0) =~= Seq::<Seq<char>>::empty());
        assert(all.subrange(0, 0) =~= Seq::<Seq<char>>::empty());
        assert(block_views(blocks@) =~= Seq::<BlockText>::empty());
    }
    while i < lines.len()
        invariant
            i <= lines.len(),
            start <= i,
            (state is Ignore || state is Title) ==> start == i,
            all == views(lines@),
            run(m@, initial(), all.take(i as int)) == (Machine {
                state,
                file_summary_enabled: enabled,
                heading: heading@,
                summary: summary@,
                included: all.subrange(start as int, i as int),
                blocks: block_views(blocks@),
                consumed: i as nat,
                failed_at: None,
            }),
        decreases lines.len() - i,
    {
        let line = &lines[i];
        let ghost before = run(m@, initial(), all.take(i as int));
        let ghost old_blocks = block_views(blocks@);
        proof {
            assert(all.take(i + 1).drop_last() =~= all.take(i as int));
            assert(all.take(i + 1).last() == line@);
            assert(run(m@, initial(), all.take(i + 1)) == step(m@, before, line@));
            assert(all.subrange(start as int, i as int).push(line@) =~= all.subrange(
                start as int,
                i + 1,
            ));
            assert(all.subrange(i + 1, i + 1) =~= Seq::<Seq<char>>::empty());
        }
        match state {
            ParserState::Ignore => {
                if has_prefix(line, &m.header) {
                    enabled = false;
                    state = ParserState::Title;
                    heading = trimmed_tail(line, m.header.len());
                } else if enabled && has_prefix(line, &m.file_open) {
                    state = ParserState::FileSummary;
                }
                start = i + 1;
            },
            ParserState::FileSummary => {
                if has_prefix(line, &m.summary_end) {
                    let text = join_lines(lines, start, i, ' ');
                    blocks.push(
                        DocBlock { heading: String::new(), summary: string_of(&text), code: None },
                    );
                    proof {
                        assert(block_views(blocks@) =~= old_blocks.push(
                            BlockText {
                                heading: Seq::empty(),
                                summary: join(before.included, ' '),
                                code: None,
                            },
                        ));
                    }
                    state = ParserState::Ignore;
                    start = i + 1;
                }
            },
            ParserState::Title => {
                if has_prefix(line, &m.item_open) {
                    state = ParserState::ItemSummary;
                    start = i + 1;
                } else {
                    proof {
                        let failed = step(m@, before, line@);
                        assert(failed.failed_at == Some(i as nat));
                        assert(all =~= all.take(i + 1) + all.skip(i + 1));
                        lemma_run_concat(m@, initial(), all.take(i + 1), all.skip(i + 1));
                        lemma_failure_is_final(m@, failed, all.skip(i + 1));
                    }
                    return Err(i);
                }
            },
            ParserState::ItemSummary => {
                if has_prefix(line, &m.summary_end) {
                    summary = join_lines(lines, start, i, ' ');
                    state = ParserState::Code;
                    start = i + 1;
                }
            },
            ParserState::Code => {
                let bare = strip_spaces(line);
                if has_prefix(&bare, &m.code_end) {
                    let text = join_lines(lines, start, i, '\n');
                    blocks.push(
                        DocBlock {
                            heading: string_of(&heading),
                            summary: string_of(&summary),
                            code: Some(string_of(&text)),
                        },
                    );
                    proof {
                        assert(block_views(blocks@) =~= old_blocks.push(
                            BlockText {
                                heading: before.heading,
                                summary: before.summary,
                                code: Some(join(before.included, '\n')),
                            },
                        ));
                    }
                    state = ParserState::Ignore;
                    start = i + 1;
                }
            },
        }
        proof {
            let after = step(m@, before, line@);
            assert(after.blocks == block_views(blocks@));
            assert(after.included == all.subrange(start as int, i + 1));
        }
        i += 1;
    }
    proof {
        assert(all.take(all.len() as int) =~= all);
    }
    Ok(blocks)
}

/// Extracts the blocks from the text of a file, for a language with the
/// given inline comment delimiter and pair of multi-line comment delimiters.
/// Where a line breaks the structure, the result is the position of that
/// line among the lines of the text.
pub fn extract_blocks(content: &str, inline: &str, open: &str, close: &str) -> (r: Result<
    Vec<DocBlock>,
    usize,
>)
    ensures
        match r {
            Ok(blocks) => extraction(markers(inline@, open@, close@), split_lines(content@)) == Ok::<
                Seq<BlockText>,
                nat,
            >(block_views(blocks@)),
            Err(at) => extraction(markers(inline@, open@, close@), split_lines(content@)) == Err::<
                Seq<BlockText>,
                nat,
            >(at as nat),
        },
{
    let set = MarkerSet::new(inline, open, close);
    let text = chars_of(content);
    let lines = lines_of(&text);
    extract_lines(&lines, &set)
}

/// Reading one line is one step.
pub proof fn lemma_run_one(m: Markers, s: Machine, line: Seq<char>)
    ensures
        run(m, s, seq![line]) == step(m, s, line),
{
    assert(seq![line].drop_last() =~= Seq::<Seq<char>>::empty());
    assert(run(m, s, seq![line].drop_last()) == s);
}

/// A line that the extractor skips between blocks: it is no header, and it
/// does not open the summary of the file where that is still recognised.
pub open spec fn is_skipped(m: Markers, file_summary_enabled: bool, line: Seq<char>) -> bool {
    !starts_with(line, m.header) && (file_summary_enabled ==> !starts_with(line, m.file_open))
}

/// Between blocks, lines that are skipped change nothing but the count of
/// lines read. In particular, once a header has been seen, a line that
/// opens the summary of a file is ordinary text.
pub proof fn lemma_skipped_lines(m: Markers, s: Machine, lines: Seq<Seq<char>>)
    requires
        s.state is Ignore,
        s.failed_at is None,
        forall|i: int|
            0 <= i < lines.len() ==> is_skipped(m, s.file_summary_enabled, #[trigger] lines[i]),
    ensures
        run(m, s, lines) == (Machine { consumed: s.consumed + lines.len(), ..s }),
    decreases lines.len(),
{
    if lines.len() > 0 {
        let front = lines.drop_last();
        assert forall|i: int| 0 <= i < front.len() implies is_skipped(
            m,
            s.file_summary_enabled,
            #[trigger] front[i],
        ) by {
            assert(front[i] == lines[i]);
        }
        lemma_skipped_lines(m, s, front);
        assert(is_skipped(m, s.file_summary_enabled, lines[lines.len() - 1]));
    }
}

/// A text in which no line is a header or opens the summary of the file has
/// no blocks, and is no error.
pub proof fn lemma_unmarked_text_has_no_blocks(m: Markers, lines: Seq<Seq<char>>)
    requires
        forall|i: int| 0 <= i < lines.len() ==> is_skipped(m, true, #[trigger] lines[i]),
    ensures
        extraction(m, lines) == Ok::<Seq<BlockText>, nat>(Seq::empty()),
{
    lemma_skipped_lines(m, initial(), lines);
}

/// Once the summary of the file is no longer recognised, it never is again,
/// and the extractor is never inside one.
pub proof fn lemma_file_summary_stays_disabled(m: Markers, s: Machine, lines: Seq<Seq<char>>)
    requires
        !s.file_summary_enabled,
        !(s.state is FileSummary),
    ensures
        !run(m, s, lines).file_summary_enabled,
        !(run(m, s, lines).state is FileSummary),
        run(m, s, lines).blocks.len() >= s.blocks.len(),
        forall|i: int|
            s.blocks.len() <= i < run(m, s, lines).blocks.len() ==> (
            #[trigger] run(m, s, lines).blocks[i]).code is Some,
    decreases lines.len(),
{
    if lines.len() > 0 {
        lemma_file_summary_stays_disabled(m, s, lines.drop_last());
    }
}

/// A header read between blocks disables the summary of the file.
pub proof fn lemma_header_disables_file_summary(m: Markers, s: Machine, line: Seq<char>)
    requires
        s.state is Ignore,
        s.failed_at is None,
        starts_with(line, m.header),
    ensures
        !step(m, s, line).file_summary_enabled,
        step(m, s, line).state is Title,
{
}

/// Inside a summary, lines that do not end it are gathered as they are.
pub proof fn lemma_summary_lines(m: Markers, s: Machine, lines: Seq<Seq<char>>)
    requires
        s.state is FileSummary || s.state is ItemSummary,
        s.failed_at is None,
        forall|i: int| 0 <= i < lines.len() ==> !starts_with(#[trigger] lines[i], m.summary_end),
    ensures
        run(m, s, lines) == (Machine {
            included: s.included + lines,
            consumed: s.consumed + lines.len(),
            ..s
        }),
    decreases lines.len(),
{
    if lines.len() == 0 {
        assert(s.included + lines =~= s.included);
    } else {
        let front = lines.drop_last();
        assert forall|i: int| 0 <= i < front.len() implies !starts_with(
            #[trigger] front[i],
            m.summary_end,
        ) by {
            assert(front[i] == lines[i]);
        }
        lemma_summary_lines(m, s, front);
        assert(!starts_with(lines[lines.len() - 1], m.summary_end));
        assert((s.included + front).push(lines.last()) =~= s.included + lines);
    }
}

/// Inside the code of a block, lines that do not end it are gathered as
/// they are.
pub proof fn lemma_code_lines(m: Markers, s: Machine, lines: Seq<Seq<char>>)
    requires
        s.state is Code,
        s.failed_at is None,
        forall|i: int| 0 <= i < lines.len() ==> !ends_code(m, #[trigger] lines[i]),
    ensures
        run(m, s, lines) == (Machine {
            included: s.included + lines,
            consumed: s.consumed + lines.len(),
            ..s
        }),
    decreases lines.len(),
{
    if lines.len() == 0 {
        assert(s.included + lines =~= s.included);
    } else {
        let front = lines.drop_last();
        assert forall|i: int| 0 <= i < front.len() implies !ends_code(m, #[trigger] front[i]) by {
            assert(front[i] == lines[i]);
        }
        lemma_code_lines(m, s, front);
        assert(!ends_code(m, lines[lines.len() - 1]));
        assert((s.included + front).push(lines.last()) =~= s.included + lines);
    }
}

/// The lines of one block as they stand in a file: the header, the line
/// that opens the summary, the summary, the line that ends it, the code, and
/// the line that ends the code.
pub struct Group {
    pub header: Seq<char>,
    pub opener: Seq<char>,
    pub summary: Seq<Seq<char>>,
    pub summary_end: Seq<char>,
    pub code: Seq<Seq<char>>,
    pub code_end: Seq<char>,
}

impl Group {
    /// Each line is what its place asks for, and no line of the summary or
    /// of the code ends it early.
    pub open spec fn well_formed(self, m: Markers) -> bool {
        &&& starts_with(self.header, m.header)
        &&& starts_with(self.opener, m.item_open)
        &&& forall|i: int|
            0 <= i < self.summary.len() ==> !starts_with(#[trigger] self.summary[i], m.summary_end)
        &&& starts_with(self.summary_end, m.summary_end)
        &&& forall|i: int| 0 <= i < self.code.len() ==> !ends_code(m, #[trigger] self.code[i])
        &&& ends_code(m, self.code_end)
    }

    /// The lines of the group, in their order.
    pub open spec fn lines(self) -> Seq<Seq<char>> {
        seq![self.header, self.opener] + self.summary + seq![self.summary_end] + self.code
            + seq![self.code_end]
    }

    /// The block that the group stands for: the summary lines joined by
    /// single spaces and the code lines joined by line feeds, each line as
    /// it is.
    pub open spec fn block(self, m: Markers) -> BlockText {
        BlockText {
            heading: heading_of(m, self.header),
            summary: join(self.summary, ' '),
            code: Some(join(self.code, '\n')),
        }
    }
}

/// Between blocks, a well-formed group gives exactly its block, and leaves
/// the extractor between blocks again.
pub proof fn lemma_group_gives_its_block(m: Markers, s: Machine, g: Group)
    requires
        s.state is Ignore,
        s.failed_at is None,
        s.included.len() == 0,
        g.well_formed(m),
    ensures
        run(m, s, g.lines()) == (Machine {
            state: ParserState::Ignore,
            file_summary_enabled: false,
            heading: g.block(m).heading,
            summary: g.block(m).summary,
            included: Seq::empty(),
            blocks: s.blocks.push(g.block(m)),
            consumed: s.consumed + g.lines().len(),
            failed_at: None,
        }),
{
    let head = seq![g.header, g.opener];
    let s1 = step(m, s, g.header);
    let s2 = step(m, s1, g.opener);
    assert(head =~= seq![g.header] + seq![g.opener]);
    lemma_run_concat(m, s, seq![g.header], seq![g.opener]);
    lemma_run_one(m, s, g.header);
    lemma_run_one(m, s1, g.opener);
    assert(run(m, s, head) == s2);
    assert(s.included =~= Seq::<Seq<char>>::empty());
    lemma_summary_lines(m, s2, g.summary);
    let s3 = run(m, s2, g.summary);
    assert(s3.included =~= g.summary);
    lemma_run_concat(m, s, head, g.summary);
    let s4 = step(m, s3, g.summary_end);
    lemma_run_one(m, s3, g.summary_end);
    lemma_run_concat(m, s, head + g.summary, seq![g.summary_end]);
    lemma_code_lines(m, s4, g.code);
    let s5 = run(m, s4, g.code);
    assert(s5.included =~= g.code);
    lemma_run_concat(m, s, head + g.summary + seq![g.summary_end], g.code);
    let s6 = step(m, s5, g.code_end);
    lemma_run_one(m, s5, g.code_end);
    lemma_run_concat(m, s, head + g.summary + seq![g.summary_end] + g.code, seq![g.code_end]);
    assert(run(m, s, g.lines()) == s6);
}

/// A stretch of a file: lines that are skipped, and then one group.
pub struct Section {
    pub skipped: Seq<Seq<char>>,
    pub group: Group,
}

/// The lines of the sections, in their order.
pub open spec fn section_lines(sections: Seq<Section>) -> Seq<Seq<char>>
    decreases sections.len(),
{
    if sections.len() == 0 {
        Seq::empty()
    } else {
        section_lines(sections.drop_last()) + sections.last().skipped
            + sections.last().group.lines()
    }
}

/// The blocks of the groups of the sections, in their order.
pub open spec fn section_blocks(m: Markers, sections: Seq<Section>) -> Seq<BlockText> {
    Seq::new(sections.len(), |i: int| sections[i].group.block(m))
}

/// Every group is well-formed, and the lines before it are lines that the
/// extractor skips there; before the first group, those open no summary of
/// the file.
pub open spec fn well_formed_sections(m: Markers, sections: Seq<Section>) -> bool {
    forall|i: int|
        0 <= i < sections.len() ==> {
            &&& (#[trigger] sections[i]).group.well_formed(m)
            &&& forall|k: int|
                0 <= k < sections[i].skipped.len() ==> is_skipped(
                    m,
                    i == 0,
                    #[trigger] sections[i].skipped[k],
                )
        }
}

/// After well-formed sections the extractor stands between blocks, and has
/// emitted one block for each group, in their order.
pub proof fn lemma_sections_give_their_blocks(m: Markers, sections: Seq<Section>)
    requires
        well_formed_sections(m, sections),
    ensures
        run(m, initial(), section_lines(sections)).state is Ignore,
        run(m, initial(), section_lines(sections)).failed_at is None,
        run(m, initial(), section_lines(sections)).included.len() == 0,
        run(m, initial(), section_lines(sections)).file_summary_enabled == (sections.len() == 0),
        run(m, initial(), section_lines(sections)).consumed == section_lines(sections).len(),
        run(m, initial(), section_lines(sections)).blocks == section_blocks(m, sections),
    decreases sections.len(),
{
    if sections.len() == 0 {
        assert(section_blocks(m, sections) =~= Seq::<BlockText>::empty());
    } else {
        let front = sections.drop_last();
        let last = sections.last();
        assert forall|i: int| 0 <= i < front.len() implies {
            &&& (#[trigger] front[i]).group.well_formed(m)
            &&& forall|k: int|
                0 <= k < front[i].skipped.len() ==> is_skipped(
                    m,
                    i == 0,
                    #[trigger] front[i].skipped[k],
                )
        } by {
            assert(front[i] == sections[i]);
        }
        lemma_sections_give_their_blocks(m, front);
        let s0 = run(m, initial(), section_lines(front));
        assert(sections[sections.len() - 1] == last);
        assert forall|k: int| 0 <= k < last.skipped.len() implies is_skipped(
            m,
            s0.file_summary_enabled,
            #[trigger] last.skipped[k],
        ) by {
            assert(is_skipped(m, sections.len() - 1 == 0, last.skipped[k]));
        }
        lemma_skipped_lines(m, s0, last.skipped);
        let s1 = run(m, s0, last.skipped);
        lemma_run_concat(m, initial(), section_lines(front), last.skipped);
        lemma_group_gives_its_block(m, s1, last.group);
        lemma_run_concat(m, initial(), section_lines(front) + last.skipped, last.group.lines());
        assert(section_blocks(m, sections) =~= section_blocks(m, front).push(last.group.block(m)));
    }
}

/// A file made of well-formed sections, and of skipped lines after the
/// last, has exactly one block for each group, in their order.
pub proof fn lemma_one_block_for_each_group(
    m: Markers,
    sections: Seq<Section>,
    rest: Seq<Seq<char>>,
)
    requires
        well_formed_sections(m, sections),
        forall|i: int|
            0 <= i < rest.len() ==> is_skipped(m, sections.len() == 0, #[trigger] rest[i]),
    ensures
        extraction(m, section_lines(sections) + rest) == Ok::<Seq<BlockText>, nat>(
            section_blocks(m, sections),
        ),
        section_blocks(m, sections).len() == sections.len(),
{
    lemma_sections_give_their_blocks(m, sections);
    let s0 = run(m, initial(), section_lines(sections));
    lemma_skipped_lines(m, s0, rest);
    lemma_run_concat(m, initial(), section_lines(sections), rest);
}

/// A header whose next line does not open a summary fails the file, at that
/// next line, whatever follows.
pub proof fn lemma_header_without_opener_fails(
    m: Markers,
    sections: Seq<Section>,
    skipped: Seq<Seq<char>>,
    header: Seq<char>,
    next: Seq<char>,
    rest: Seq<Seq<char>>,
)
    requires
        well_formed_sections(m, sections),
        forall|i: int|
            0 <= i < skipped.len() ==> is_skipped(m, sections.len() == 0, #[trigger] skipped[i]),
        starts_with(header, m.header),
        !starts_with(next, m.item_open),
    ensures
        extraction(m, section_lines(sections) + skipped + seq![header, next] + rest) == Err::<
            Seq<BlockText>,
            nat,
        >((section_lines(sections).len() + skipped.len() + 1) as nat),
{
    lemma_sections_give_their_blocks(m, sections);
    let before = section_lines(sections);
    let s0 = run(m, initial(), before);
    lemma_skipped_lines(m, s0, skipped);
    lemma_run_concat(m, initial(), before, skipped);
    let s1 = run(m, s0, skipped);
    let s2 = step(m, s1, header);
    let s3 = step(m, s2, next);
    assert(seq![header, next] =~= seq![header] + seq![next]);
    lemma_run_one(m, s1, header);
    lemma_run_one(m, s2, next);
    lemma_run_concat(m, s1, seq![header], seq![next]);
    lemma_run_concat(m, initial(), before + skipped, seq![header, next]);
    lemma_failure_is_final(m, s3, rest);
    lemma_run_concat(m, initial(), before + skipped + seq![header, next], rest);
}

/// Whether a line ends the code of a block does not depend on its spaces:
/// a space more, wherever it stands, changes nothing.
pub proof fn lemma_code_end_ignores_spaces(m: Markers, before: Seq<char>, after: Seq<char>)
    ensures
        ends_code(m, before + seq![' '] + after) == ends_code(m, before + after),
{
    lemma_space_makes_no_difference(before, after);
}

/// A line that begins with the end marker ends the code of a block, where
/// the marker holds no space and no space stands before or inside it in the
/// line.
pub proof fn lemma_end_marker_ends_code(m: Markers, line: Seq<char>)
    requires
        starts_with(line, m.code_end),
        forall|i: int| 0 <= i < m.code_end.len() ==> #[trigger] m.code_end[i] != ' ',
    ensures
        ends_code(m, line),
{
    let n = m.code_end.len() as int;
    let rest = line.subrange(n, line.len() as int);
    assert(line =~= m.code_end + rest);
    lemma_without_spaces_keeps_the_rest(m.code_end);
    Seq::filter_distributes_over_add(m.code_end, rest, not_space());
    assert(without_spaces(line).subrange(0, n) =~= m.code_end);
}

/// Two lines that differ in their spaces only end the code of a block
/// together or not at all.
pub proof fn lemma_code_end_sees_no_spaces(m: Markers, a: Seq<char>, b: Seq<char>)
    requires
        without_spaces(a) == without_spaces(b),
    ensures
        ends_code(m, a) == ends_code(m, b),
{
}

} // verus!
