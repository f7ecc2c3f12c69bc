//! The document the engine scrolls through.
//!
//! Real text: the corpus is parsed into paragraphs, which the app then wraps to
//! the column width and flattens into the visual lines the engine walks. The
//! parsing is here: blank lines separate paragraphs, the lines of a paragraph
//! are trimmed and joined by single spaces, and a short paragraph that opens
//! with a heading word is a heading.

use vstd::prelude::*;
use vstd::utf8::encode_utf8;
use crate::text::{
    chars_of, is_trimmed_piece, lemma_split_on_concat, lemma_split_on_has_no_separator,
    lemma_split_on_push,
    lemma_split_without_separator, lemma_trim_shape, split_on, string_of, trim, trim_end,
    trim_start, trimmed_bounds,
};

verus! {

broadcast use vstd::string::group_string_axioms;

/// How a line is set.
#[derive(Debug, Clone, Copy, PartialEq, Eq, Structural)]
pub enum Style {
    /// A chapter or book heading.
    Heading,
    /// Running prose.
    Body,
}

/// The longest line, in bytes, that can still be a heading.
pub const HEADING_MAX_BYTES: usize = 40;

/// The byte order mark a corpus may open with.
pub open spec fn byte_order_mark() -> char {
    '\u{feff}'
}

/// `text` without the byte order mark it may open with.
pub open spec fn strip_byte_order_mark(text: Seq<char>) -> Seq<char> {
    if text.len() > 0 && text[0] == byte_order_mark() {
        text.drop_first()
    } else {
        text
    }
}

/// The words a short line may open with to count as a heading.
pub open spec fn heading_words() -> Seq<Seq<char>> {
    seq!["CHAPTER"@, "PART"@, "BOOK"@, "EPILOGUE"@, "APPENDIX"@, "INTRODUCTION"@]
}

/// Whether a line is set as a heading: it is at most [`HEADING_MAX_BYTES`]
/// long in UTF-8 and opens with one of the [`heading_words`].
pub open spec fn is_heading(line: Seq<char>) -> bool {
    &&& encode_utf8(line).len() <= HEADING_MAX_BYTES
    &&& exists|i: int| 0 <= i < heading_words().len() && #[trigger] heading_words()[i].is_prefix_of(line)
}

/// How a line of the corpus is set.
pub open spec fn style_for(line: Seq<char>) -> Style {
    if is_heading(line) {
        Style::Heading
    } else {
        Style::Body
    }
}

/// A paragraph's text with the style it is set in.
pub open spec fn styled(text: Seq<char>) -> (Style, Seq<char>) {
    (style_for(text), text)
}

/// The lines of a corpus, each trimmed of the whitespace around it: a blank
/// line is empty.
pub open spec fn trimmed_lines(text: Seq<char>) -> Seq<Seq<char>> {
    split_on(strip_byte_order_mark(text), '\n').map_values(|line: Seq<char>| trim(line))
}

/// The paragraphs so far, with one more trimmed line read: a blank line adds
/// nothing; a line that `continues` the paragraph before it is joined onto it
/// by a single space; any other line starts a paragraph of its own.
pub open spec fn join_line(paragraphs: Seq<Seq<char>>, continues: bool, line: Seq<char>) -> Seq<
    Seq<char>,
> {
    if line.len() == 0 {
        paragraphs
    } else if continues {
        paragraphs.update(paragraphs.len() - 1, paragraphs.last() + seq![' '] + line)
    } else {
        paragraphs.push(line)
    }
}

/// The paragraphs that trimmed lines make: each maximal run of lines that are
/// not blank, joined by single spaces.
pub open spec fn join_runs(lines: Seq<Seq<char>>) -> Seq<Seq<char>>
    decreases lines.len(),
{
    if lines.len() == 0 {
        seq![]
    } else {
        let earlier = lines.drop_last();
        join_line(
            join_runs(earlier),
            earlier.len() > 0 && earlier.last().len() > 0,
            lines.last(),
        )
    }
}

/// The paragraphs of a corpus, with their styles: blank lines separate them,
/// and the lines of one are trimmed and joined by single spaces.
pub open spec fn paragraphs_of(text: Seq<char>) -> Seq<(Style, Seq<char>)> {
    join_runs(trimmed_lines(text)).map_values(|paragraph: Seq<char>| styled(paragraph))
}

/// A paragraph as its style and the characters of its text.
pub open spec fn paragraph_view(paragraph: (Style, String)) -> (Style, Seq<char>) {
    (paragraph.0, paragraph.1@)
}

/// How many bytes `c` takes in UTF-8.
pub open spec fn utf8_width(c: char) -> nat {
    let u = c as u32;
    if u <= 0x7f {
        1
    } else if u <= 0x7ff {
        2
    } else if u <= 0xffff {
        3
    } else {
        4
    }
}

proof fn lemma_encode_utf8_unfold(s: Seq<char>)
    requires
        s.len() > 0,
    ensures
        encode_utf8(s).len() == utf8_width(s[0]) + encode_utf8(s.drop_first()).len(),
{
    vstd::utf8::char_is_scalar(s[0]);
}

/// The length of `chars[lo..hi]` in UTF-8, or one more than the longest heading if it is
/// longer than that.
fn utf8_len_capped(chars: &Vec<char>, lo: usize, hi: usize) -> (n: usize)
    requires
        lo <= hi <= chars@.len(),
    ensures
        n as int == if encode_utf8(chars@.subrange(lo as int, hi as int)).len() <= HEADING_MAX_BYTES {
            encode_utf8(chars@.subrange(lo as int, hi as int)).len() as int
        } else {
            HEADING_MAX_BYTES + 1
        },
{
    let ghost line = chars@.subrange(lo as int, hi as int);
    let mut i = hi - lo;
    let mut n: usize = 0;
    assert(line.skip(i as int) =~= Seq::<char>::empty());
    while i > 0
        invariant
            lo <= hi <= chars@.len(),
            line == chars@.subrange(lo as int, hi as int),
            i <= line.len(),
            n as int == if encode_utf8(line.skip(i as int)).len() <= HEADING_MAX_BYTES {
                encode_utf8(line.skip(i as int)).len() as int
            } else {
                HEADING_MAX_BYTES + 1
            },
        decreases i,
    {
        let c = chars[lo + i - 1];
        let u = c as u32;
        let width: usize = if u <= 0x7f {
            1
        } else if u <= 0x7ff {
            2
        } else if u <= 0xffff {
            3
        } else {
            4
        };
        proof {
            let tail = line.skip(i - 1);
            assert(tail.drop_first() =~= line.skip(i as int));
            assert(tail[0] == chars@[lo + i - 1]);
            lemma_encode_utf8_unfold(tail);
        }
        n = if n + width > HEADING_MAX_BYTES {
            HEADING_MAX_BYTES + 1
        } else {
            n + width
        };
        i = i - 1;
    }
    assert(line.skip(0) =~= line);
    n
}

/// Whether `line` opens with `prefix`.
fn starts_with(chars: &Vec<char>, lo: usize, hi: usize, prefix: &str) -> (starts: bool)
    requires
        lo <= hi <= chars@.len(),
    ensures
        starts == prefix@.is_prefix_of(chars@.subrange(lo as int, hi as int)),
{
    let ghost line = chars@.subrange(lo as int, hi as int);
    let n = prefix.unicode_len();
    if n > hi - lo {
        return false;
    }
    let mut i: usize = 0;
    while i < n
        invariant
            lo <= hi <= chars@.len(),
            line == chars@.subrange(lo as int, hi as int),
            n == prefix@.len(),
            n <= line.len(),
            i <= n,
            forall|j: int| 0 <= j < i ==> prefix@[j] == line[j],
        decreases n - i,
    {
        if prefix.get_char(i) != chars[lo + i] {
            assert(prefix@[i as int] != line.subrange(0, n as int)[i as int]);
            return false;
        }
        i = i + 1;
    }
    assert(line.subrange(0, n as int) =~= prefix@);
    true
}

/// Whether `line` opens with one of the heading words.
fn opens_with_heading_word(chars: &Vec<char>, lo: usize, hi: usize) -> (opens: bool)
    requires
        lo <= hi <= chars@.len(),
    ensures
        opens == exists|i: int|
            0 <= i < heading_words().len() && #[trigger] heading_words()[i].is_prefix_of(
                chars@.subrange(lo as int, hi as int),
            ),
{
    let ghost line = chars@.subrange(lo as int, hi as int);
    let ghost words = heading_words();
    let found = starts_with(chars, lo, hi, "CHAPTER") || starts_with(chars, lo, hi, "PART") || starts_with(
        chars,
        lo,
        hi,
        "BOOK",
    ) || starts_with(chars, lo, hi, "EPILOGUE") || starts_with(chars, lo, hi, "APPENDIX") || starts_with(
        chars,
        lo,
        hi,
        "INTRODUCTION",
    );
    proof {
        if found {
        } else {
            assert forall|i: int| 0 <= i < words.len() implies !(
            #[trigger] words[i]).is_prefix_of(line) by {}
        }
    }
    found
}

/// How a line given as its characters is set.
fn style_of_chars(chars: &Vec<char>, lo: usize, hi: usize) -> (style: Style)
    requires
        lo <= hi <= chars@.len(),
    ensures
        style == style_for(chars@.subrange(lo as int, hi as int)),
{
    let looks_like_a_heading = utf8_len_capped(chars, lo, hi) <= HEADING_MAX_BYTES
        && opens_with_heading_word(chars, lo, hi);
    if looks_like_a_heading {
        Style::Heading
    } else {
        Style::Body
    }
}

/// How `line` is set: as a heading if it is short and opens with a heading
/// word, as running prose otherwise.
pub fn style_of(line: &str) -> (style: Style)
    ensures
        style == style_for(line@),
{
    let chars = chars_of(line);
    assert(chars@.subrange(0, chars@.len() as int) =~= line@);
    style_of_chars(&chars, 0, chars.len())
}

/// The characters of each paragraph built so far.
pub open spec fn runs_view(runs: Seq<Vec<char>>) -> Seq<Seq<char>> {
    runs.map_values(|run: Vec<char>| run@)
}

/// Reading one more trimmed line is one step of [`join_runs`].
proof fn lemma_join_runs_step(lines: Seq<Seq<char>>, line: Seq<char>)
    ensures
        join_runs(lines.push(line)) == join_line(
            join_runs(lines),
            lines.len() > 0 && lines.last().len() > 0,
            line,
        ),
{
    assert(lines.push(line).drop_last() =~= lines);
}

/// Where the last line is not blank, there is a paragraph for it to be in.
proof fn lemma_join_runs_nonempty(lines: Seq<Seq<char>>)
    requires
        lines.len() > 0,
        lines.last().len() > 0,
    ensures
        join_runs(lines).len() > 0,
    decreases lines.len(),
{
    let earlier = lines.drop_last();
    if earlier.len() > 0 && earlier.last().len() > 0 {
        lemma_join_runs_nonempty(earlier);
    }
}

/// Appends the characters `chars[lo..hi]` to `run`.
fn append_chars(run: &mut Vec<char>, chars: &Vec<char>, lo: usize, hi: usize)
    requires
        lo <= hi <= chars@.len(),
    ensures
        final(run)@ == old(run)@ + chars@.subrange(lo as int, hi as int),
{
    let mut k = lo;
    while k < hi
        invariant
            lo <= k <= hi <= chars@.len(),
            run@ == old(run)@ + chars@.subrange(lo as int, k as int),
        decreases hi - k,
    {
        run.push(chars[k]);
        assert(chars@.subrange(lo as int, k + 1) =~= chars@.subrange(lo as int, k as int).push(
            chars@[k as int],
        ));
        assert(run@ =~= old(run)@ + chars@.subrange(lo as int, k + 1));
        k = k + 1;
    }
}

/// Reads the trimmed line `chars[lo..hi]` into the paragraphs, and says
/// whether it was not blank.
fn add_line(runs: &mut Vec<Vec<char>>, continues: bool, chars: &Vec<char>, lo: usize, hi: usize) -> (nonblank: bool)
    requires
        lo <= hi <= chars@.len(),
        continues ==> old(runs)@.len() > 0,
    ensures
        nonblank == (lo < hi),
        runs_view(final(runs)@) == join_line(
            runs_view(old(runs)@),
            continues,
            chars@.subrange(lo as int, hi as int),
        ),
        nonblank ==> final(runs)@.len() > 0,
{
    let ghost before = runs_view(runs@);
    let ghost line = chars@.subrange(lo as int, hi as int);
    if lo == hi {
        assert(line.len() == 0);
        return false;
    }
    if continues {
        let mut last = match runs.pop() {
            Some(last) => last,
            None => Vec::new(),
        };
        let ghost opened = last@;
        last.push(' ');
        append_chars(&mut last, chars, lo, hi);
        runs.push(last);
        proof {
            assert(opened == before.last());
            assert(last@ =~= before.last() + seq![' '] + line);
            assert(runs_view(runs@) =~= before.update(before.len() - 1, before.last() + seq![' ']
                + line));
        }
    } else {
        let mut run: Vec<char> = Vec::new();
        append_chars(&mut run, chars, lo, hi);
        runs.push(run);
        proof {
            assert(run@ =~= line);
            assert(runs_view(runs@) =~= before.push(line));
        }
    }
    true
}

/// Parse the corpus into paragraphs: blank lines separate them, the lines of
/// one are trimmed and joined by single spaces, and a short paragraph that
/// opens with one of the [`heading_words`] is a heading.
///
/// A byte order mark at the very start is dropped, and carriage returns go with
/// the rest of the whitespace at the ends of a line.
pub fn paragraphs(text: &str) -> (paragraphs: Vec<(Style, String)>)
    ensures
        paragraphs@.map_values(|p: (Style, String)| paragraph_view(p)) == paragraphs_of(text@),
{
    let chars = chars_of(text);
    let start: usize = if chars.len() > 0 && chars[0] == '\u{feff}' {
        1
    } else {
        0
    };
    assert(chars@.subrange(start as int, chars@.len() as int) =~= strip_byte_order_mark(text@));
    let mut runs: Vec<Vec<char>> = Vec::new();
    let mut continues = false;
    let mut piece_start = start;
    let mut i = start;
    assert(chars@.subrange(start as int, start as int) =~= Seq::<char>::empty());
    assert(split_on(Seq::<char>::empty(), '\n').drop_last() =~= Seq::<Seq<char>>::empty());
    assert(split_on(Seq::<char>::empty(), '\n').drop_last().map_values(|line: Seq<char>| trim(line))
        =~= Seq::<Seq<char>>::empty());
    while i < chars.len()
        invariant
            start <= piece_start <= i <= chars@.len(),
            split_on(chars@.subrange(start as int, i as int), '\n').len() >= 1,
            split_on(chars@.subrange(start as int, i as int), '\n').last() == chars@.subrange(
                piece_start as int,
                i as int,
            ),
            runs_view(runs@) == join_runs(
                split_on(chars@.subrange(start as int, i as int), '\n').drop_last().map_values(
                    |line: Seq<char>| trim(line),
                ),
            ),
            continues == ({
                let done = split_on(chars@.subrange(start as int, i as int), '\n').drop_last();
                done.len() > 0 && trim(done.last()).len() > 0
            }),
            continues ==> runs@.len() > 0,
        decreases chars@.len() - i,
    {
        let ghost before = chars@.subrange(start as int, i as int);
        let ghost lines = split_on(before, '\n');
        let c = chars[i];
        proof {
            lemma_split_on_push(before, '\n', c);
            assert(chars@.subrange(start as int, i + 1) =~= before.push(c));
        }
        if c == '\n' {
            let (a, b) = trimmed_bounds(&chars, piece_start, i);
            let ghost done = lines.drop_last().map_values(|line: Seq<char>| trim(line));
            continues = add_line(&mut runs, continues, &chars, a, b);
            proof {
                assert(lines.drop_last().push(lines.last()) =~= lines);
                let now = split_on(before.push(c), '\n');
                assert(now.drop_last() =~= lines);
                assert(lines.map_values(|line: Seq<char>| trim(line)) =~= done.push(
                    trim(lines.last()),
                ));
                lemma_join_runs_step(done, trim(lines.last()));
                assert(chars@.subrange(i + 1, i + 1) =~= Seq::<char>::empty());
            }
            piece_start = i + 1;
        } else {
            assert(chars@.subrange(piece_start as int, i + 1) =~= chars@.subrange(
                piece_start as int,
                i as int,
            ).push(c));
        }
        i = i + 1;
    }
    let ghost lines = split_on(chars@.subrange(start as int, i as int), '\n');
    let ghost done = lines.drop_last().map_values(|line: Seq<char>| trim(line));
    let (a, b) = trimmed_bounds(&chars, piece_start, chars.len());
    add_line(&mut runs, continues, &chars, a, b);
    proof {
        assert(lines.drop_last().push(lines.last()) =~= lines);
        assert(lines.map_values(|line: Seq<char>| trim(line)) =~= done.push(trim(lines.last())));
        lemma_join_runs_step(done, trim(lines.last()));
    }
    let ghost joined = runs_view(runs@);
    let mut paragraphs: Vec<(Style, String)> = Vec::new();
    let mut k: usize = 0;
    while k < runs.len()
        invariant
            k <= runs@.len(),
            joined == runs_view(runs@),
            paragraphs@.map_values(|p: (Style, String)| paragraph_view(p)) == joined.take(
                k as int,
            ).map_values(|paragraph: Seq<char>| styled(paragraph)),
        decreases runs@.len() - k,
    {
        let run = &runs[k];
        let ghost before = paragraphs@.map_values(|p: (Style, String)| paragraph_view(p));
        assert(run@.subrange(0, run@.len() as int) =~= run@);
        assert(joined[k as int] == run@);
        let style = style_of_chars(run, 0, run.len());
        paragraphs.push((style, string_of(run, 0, run.len())));
        assert(paragraphs@.map_values(|p: (Style, String)| paragraph_view(p)) =~= before.push(
            styled(joined[k as int]),
        ));
        assert(joined.take(k + 1) =~= joined.take(k as int).push(joined[k as int]));
        assert(paragraphs@.map_values(|p: (Style, String)| paragraph_view(p)) =~= joined.take(
            k + 1,
        ).map_values(|paragraph: Seq<char>| styled(paragraph)));
        k = k + 1;
    }
    assert(joined.take(runs@.len() as int) =~= joined);
    paragraphs
}

/// What a parsed paragraph looks like: some text, without whitespace at either
/// end and without a line feed anywhere, set in the style its text calls for.
pub open spec fn is_paragraph(paragraph: (Style, Seq<char>)) -> bool {
    &&& is_trimmed_piece(paragraph.1, '\n')
    &&& paragraph.0 == style_for(paragraph.1)
}

/// Every line of a corpus, trimmed, is blank or a trimmed piece.
proof fn lemma_trimmed_lines_shape(text: Seq<char>)
    ensures
        forall|j: int|
            0 <= j < trimmed_lines(text).len() && #[trigger] trimmed_lines(text)[j].len() > 0
                ==> is_trimmed_piece(trimmed_lines(text)[j], '\n'),
{
    let body = strip_byte_order_mark(text);
    let pieces = split_on(body, '\n');
    lemma_split_on_has_no_separator(body, '\n');
    assert forall|j: int|
        0 <= j < trimmed_lines(text).len() && #[trigger] trimmed_lines(text)[j].len() > 0
            implies is_trimmed_piece(trimmed_lines(text)[j], '\n') by {
        let line = trimmed_lines(text)[j];
        let (lo, hi) = lemma_trim_shape(pieces[j]);
        assert forall|k: int| 0 <= k < line.len() implies #[trigger] line[k] != '\n' by {
            assert(line[k] == pieces[j][lo + k]);
        }
    }
}

/// Joining trimmed lines keeps them trimmed pieces: a paragraph is not blank,
/// has no whitespace at either end and no line feed in it.
proof fn lemma_join_runs_trimmed(lines: Seq<Seq<char>>)
    requires
        forall|j: int|
            0 <= j < lines.len() && #[trigger] lines[j].len() > 0 ==> is_trimmed_piece(
                lines[j],
                '\n',
            ),
    ensures
        forall|i: int|
            0 <= i < join_runs(lines).len() ==> is_trimmed_piece(#[trigger] join_runs(lines)[i], '\n'),
    decreases lines.len(),
{
    if lines.len() > 0 {
        let earlier = lines.drop_last();
        assert forall|j: int|
            0 <= j < earlier.len() && #[trigger] earlier[j].len() > 0 implies is_trimmed_piece(
            earlier[j],
            '\n',
        ) by {
            assert(earlier[j] == lines[j]);
        }
        lemma_join_runs_trimmed(earlier);
        let line = lines.last();
        let before = join_runs(earlier);
        let continues = earlier.len() > 0 && earlier.last().len() > 0;
        if line.len() > 0 {
            assert(is_trimmed_piece(line, '\n'));
            if continues {
                lemma_join_runs_nonempty(earlier);
                let last = before.last();
                assert(is_trimmed_piece(before[before.len() - 1], '\n'));
                let joined = last + seq![' '] + line;
                assert(joined[0] == last[0]);
                assert(joined.last() == line.last());
                assert forall|k: int| 0 <= k < joined.len() implies #[trigger] joined[k] != '\n' by {
                    if k < last.len() {
                        assert(joined[k] == last[k]);
                    } else if k > last.len() {
                        assert(joined[k] == line[k - last.len() - 1]);
                    }
                }
                let after = join_runs(lines);
                assert forall|i: int| 0 <= i < after.len() implies is_trimmed_piece(
                    #[trigger] after[i],
                    '\n',
                ) by {
                    if i < before.len() - 1 {
                        assert(after[i] == before[i]);
                    }
                }
            } else {
                let after = join_runs(lines);
                assert forall|i: int| 0 <= i < after.len() implies is_trimmed_piece(
                    #[trigger] after[i],
                    '\n',
                ) by {
                    if i < before.len() {
                        assert(after[i] == before[i]);
                    }
                }
            }
        }
    }
}

/// Every paragraph of a corpus is text that is not blank, has no whitespace
/// at either end and no line feed in it, and is a heading exactly when it is
/// short and opens with a heading word.
pub proof fn lemma_paragraphs_are_trimmed(text: Seq<char>)
    ensures
        forall|i: int|
            0 <= i < paragraphs_of(text).len() ==> is_paragraph(#[trigger] paragraphs_of(text)[i]),
{
    lemma_trimmed_lines_shape(text);
    lemma_join_runs_trimmed(trimmed_lines(text));
    let joined = join_runs(trimmed_lines(text));
    assert forall|i: int| 0 <= i < paragraphs_of(text).len() implies is_paragraph(
        #[trigger] paragraphs_of(text)[i],
    ) by {
        assert(is_trimmed_piece(joined[i], '\n'));
    }
}

/// A trimmed piece trims to itself.
proof fn lemma_trim_of_trimmed_piece(piece: Seq<char>)
    requires
        is_trimmed_piece(piece, '\n'),
    ensures
        trim(piece) == piece,
{
    assert(trim_start(piece) == piece);
    assert(trim_end(piece) == piece);
}

/// A paragraph read back is that paragraph: parsing the text of a paragraph
/// gives the paragraph alone, in the same style, unless its text opens with a
/// byte order mark (which the parser drops from the start of a corpus).
pub proof fn lemma_a_paragraph_parses_as_itself(paragraph: (Style, Seq<char>))
    requires
        is_paragraph(paragraph),
        paragraph.1[0] != byte_order_mark(),
    ensures
        paragraphs_of(paragraph.1) == seq![paragraph],
{
    let text = paragraph.1;
    assert(strip_byte_order_mark(text) == text);
    lemma_split_without_separator(text, '\n');
    lemma_trim_of_trimmed_piece(text);
    let lines = trimmed_lines(text);
    assert(lines =~= seq![text]);
    lemma_join_runs_step(Seq::<Seq<char>>::empty(), text);
    assert(seq![text] =~= Seq::<Seq<char>>::empty().push(text));
    assert(join_runs(lines) =~= seq![text]);
    assert(seq![text].map_values(|p: Seq<char>| styled(p)) =~= seq![paragraph]);
}

/// Joining trimmed lines with a blank line between them: the paragraphs of
/// the two sides, one after the other.
proof fn lemma_join_runs_blank_between(x: Seq<Seq<char>>, y: Seq<Seq<char>>)
    ensures
        join_runs(x + seq![Seq::<char>::empty()] + y) == join_runs(x) + join_runs(y),
    decreases y.len(),
{
    let gap = seq![Seq::<char>::empty()];
    if y.len() == 0 {
        assert(x + gap + y =~= x.push(Seq::<char>::empty()));
        lemma_join_runs_step(x, Seq::<char>::empty());
        assert(join_runs(x) + join_runs(y) =~= join_runs(x));
    } else {
        let front = y.drop_last();
        let line = y.last();
        lemma_join_runs_blank_between(x, front);
        let whole = x + gap + y;
        assert(whole =~= (x + gap + front).push(line));
        assert(y =~= front.push(line));
        lemma_join_runs_step(x + gap + front, line);
        lemma_join_runs_step(front, line);
        let xs = join_runs(x);
        let fs = join_runs(front);
        if line.len() > 0 && front.len() > 0 && front.last().len() > 0 {
            lemma_join_runs_nonempty(front);
            assert((x + gap + front).last() == front.last());
            assert((xs + fs).update(xs.len() + fs.len() - 1, (xs + fs).last() + seq![' '] + line)
                =~= xs + fs.update(fs.len() - 1, fs.last() + seq![' '] + line));
        } else if line.len() > 0 {
            assert(front.len() == 0 ==> (x + gap + front).last() == Seq::<char>::empty());
            assert(front.len() > 0 ==> (x + gap + front).last() == front.last());
            assert((xs + fs).push(line) =~= xs + fs.push(line));
        }
    }
}

/// Blank lines separate paragraphs: the paragraphs of two pieces of text with
/// a blank line between them are those of the first piece followed by those
/// of the second, so long as the second does not open with a byte order mark
/// (which is only dropped at the very start of a corpus).
pub proof fn lemma_blank_line_separates_paragraphs(a: Seq<char>, b: Seq<char>)
    requires
        !(b.len() > 0 && b[0] == byte_order_mark()),
    ensures
        paragraphs_of(a.push('\n').push('\n') + b) == paragraphs_of(a) + paragraphs_of(b),
{
    let a_body = strip_byte_order_mark(a);
    assert(strip_byte_order_mark(b) == b);
    let tail = seq!['\n'] + b;
    assert(strip_byte_order_mark(a.push('\n').push('\n') + b) =~= a_body.push('\n') + tail);
    lemma_split_on_concat(a_body, tail, '\n');
    assert(tail =~= Seq::<char>::empty().push('\n') + b);
    lemma_split_on_concat(Seq::<char>::empty(), b, '\n');
    let empty_lines = split_on(Seq::<char>::empty(), '\n');
    assert(empty_lines =~= seq![Seq::<char>::empty()]);
    let trim_all = |line: Seq<char>| trim(line);
    let xa = split_on(a_body, '\n');
    let xb = split_on(b, '\n');
    assert(trim(Seq::<char>::empty()) =~= Seq::<char>::empty());
    assert((xa + (empty_lines + xb)).map_values(trim_all) =~= xa.map_values(trim_all) + seq![
        Seq::<char>::empty(),
    ] + xb.map_values(trim_all));
    lemma_join_runs_blank_between(xa.map_values(trim_all), xb.map_values(trim_all));
    assert(trimmed_lines(a.push('\n').push('\n') + b) =~= xa.map_values(trim_all) + seq![
        Seq::<char>::empty(),
    ] + xb.map_values(trim_all));
    assert(trimmed_lines(a) =~= xa.map_values(trim_all));
    assert(trimmed_lines(b) =~= xb.map_values(trim_all));
    let ja = join_runs(trimmed_lines(a));
    let jb = join_runs(trimmed_lines(b));
    assert((ja + jb).map_values(|p: Seq<char>| styled(p)) =~= ja.map_values(|p: Seq<char>| styled(p))
        + jb.map_values(|p: Seq<char>| styled(p)));
}

/// The lines of a paragraph run together: two lines that are not blank, with
/// only a line feed between them, make one paragraph, their texts joined by a
/// single space.
pub proof fn lemma_a_line_feed_continues_the_paragraph(a: Seq<char>, b: Seq<char>)
    requires
        is_trimmed_piece(a, '\n'),
        is_trimmed_piece(b, '\n'),
        a[0] != byte_order_mark(),
    ensures
        paragraphs_of(a.push('\n') + b) == seq![styled(a + seq![' '] + b)],
{
    assert(strip_byte_order_mark(a.push('\n') + b) == a.push('\n') + b);
    lemma_split_on_concat(a, b, '\n');
    lemma_split_without_separator(a, '\n');
    lemma_split_without_separator(b, '\n');
    lemma_trim_of_trimmed_piece(a);
    lemma_trim_of_trimmed_piece(b);
    let lines = trimmed_lines(a.push('\n') + b);
    assert(lines =~= seq![a, b]);
    assert(seq![a, b] =~= seq![a].push(b));
    assert(seq![a] =~= Seq::<Seq<char>>::empty().push(a));
    lemma_join_runs_step(Seq::<Seq<char>>::empty(), a);
    lemma_join_runs_step(seq![a], b);
    assert(join_runs(seq![a]) =~= seq![a]);
    assert(join_runs(lines) =~= seq![a + seq![' '] + b]);
    assert(seq![a + seq![' '] + b].map_values(|p: Seq<char>| styled(p)) =~= seq![
        styled(a + seq![' '] + b),
    ]);
}

} // verus!
