//! The single pass over a source: what each line adds to the counts, and the
//! counts of a whole source.

use crate::counts::{Counts, Totals};
use crate::error::Failure;
use crate::mode::Mode;
use crate::split::{
    lemma_next_piece, lemma_pieces_extend, piece_end, pieces, pieces_upto, starts_piece,
};
use crate::text::{
    count_units, count_words, display_len, ends_in_terminator, shown_len, terminated, text_of,
    unit_count, word_count, LINE_FEED,
};
use vstd::prelude::*;
use vstd::slice::slice_subrange;
use vstd::utf8::{decode_utf8, encode_utf8, valid_utf8};

verus! {

broadcast use {vstd::utf8::encode_utf8_decode_utf8, vstd::utf8::encode_utf8_valid_utf8};

/// What one line adds, as mathematical values.
pub struct LineModel {
    /// Its length in bytes.
    pub bytes: nat,
    /// Its words.
    pub words: nat,
    /// Its length in characters.
    pub units: nat,
    /// Whether a terminator ends it.
    pub terminated: bool,
}

/// What one line adds, as measured.
#[derive(Clone, Copy, Debug, PartialEq, Eq, Structural)]
pub struct Figures {
    /// Its length in bytes.
    pub bytes: usize,
    /// Its words.
    pub words: usize,
    /// Its length in characters.
    pub units: usize,
    /// Whether a terminator ends it.
    pub terminated: bool,
}

impl View for Figures {
    type V = LineModel;

    open spec fn view(&self) -> LineModel {
        LineModel {
            bytes: self.bytes as nat,
            words: self.words as nat,
            units: self.units as nat,
            terminated: self.terminated,
        }
    }
}

/// The lines of a source: its pieces up to and including each line feed.
pub open spec fn lines_of(content: Seq<u8>) -> Seq<Seq<u8>> {
    pieces(content, LINE_FEED)
}

/// What a line adds under `mode`. Words are counted only where words are
/// asked for, and characters only where characters or the widest line are.
pub open spec fn figures_of(mode: Mode, line: Seq<u8>) -> LineModel {
    LineModel {
        bytes: line.len(),
        words: if mode.words {
            word_count(decode_utf8(line))
        } else {
            0
        },
        units: if mode.measures() {
            unit_count(decode_utf8(line), mode.graphemes)
        } else {
            0
        },
        terminated: terminated(line),
    }
}

impl Totals {
    /// The counts after one more line. An empty line is no line and adds
    /// nothing. Bytes are added only where they are asked for and the size of
    /// the source was not known beforehand (`sized`).
    pub open spec fn with_line(self, mode: Mode, sized: bool, line: LineModel) -> Totals {
        if line.bytes == 0 {
            self
        } else {
            Totals {
                lines: self.lines + 1,
                words: if mode.words {
                    self.words + line.words
                } else {
                    self.words
                },
                bytes: if mode.bytes && !sized {
                    self.bytes + line.bytes
                } else {
                    self.bytes
                },
                chars: if mode.measures() {
                    self.chars + line.units
                } else {
                    self.chars
                },
                max_line_len: if mode.measures() && display_len(line.units, line.terminated)
                    > self.max_line_len {
                    display_len(line.units, line.terminated)
                } else {
                    self.max_line_len
                },
            }
        }
    }
}

/// The counts before the first line: the size where it is known and bytes are
/// asked for, and nothing else.
pub open spec fn opening(mode: Mode, size: Option<u64>) -> Totals {
    match size {
        Some(n) if mode.bytes => Totals { bytes: n as nat, ..Totals::zero() },
        _ => Totals::zero(),
    }
}

/// The counts after `lines`, taken in order on top of `start`.
pub open spec fn tally(mode: Mode, sized: bool, start: Totals, lines: Seq<Seq<u8>>) -> Totals {
    lines.fold_left(
        start,
        |sum: Totals, line: Seq<u8>| sum.with_line(mode, sized, figures_of(mode, line)),
    )
}

/// Every line is text.
pub open spec fn all_text(lines: Seq<Seq<u8>>) -> bool {
    forall|i: int| 0 <= i < lines.len() ==> valid_utf8(#[trigger] lines[i])
}

/// Whether the content of a source is read: always where its size is not
/// known, and else where some figure asked for can only be had from it.
pub open spec fn is_read(mode: Mode, size: Option<u64>) -> bool {
    mode.reads() || size is None
}

/// The counts of a source, or `None` where it is read and one of its lines is
/// no text.
pub open spec fn scanned(mode: Mode, size: Option<u64>, content: Seq<u8>) -> Option<Totals> {
    if !is_read(mode, size) {
        Some(opening(mode, size))
    } else if all_text(lines_of(content)) {
        Some(tally(mode, size is Some, opening(mode, size), lines_of(content)))
    } else {
        None
    }
}

/// One more line on top of some lines adds what that line adds.
pub proof fn lemma_tally_push(
    mode: Mode,
    sized: bool,
    start: Totals,
    lines: Seq<Seq<u8>>,
    line: Seq<u8>,
)
    ensures
        tally(mode, sized, start, lines.push(line)) == tally(mode, sized, start, lines).with_line(
            mode,
            sized,
            figures_of(mode, line),
        ),
{
    assert(lines.push(line).drop_last() =~= lines);
}

/// The bytes and lines of a tally: the bytes of every line where bytes are
/// added, and one line for each line that is not empty.
pub proof fn lemma_tally_sums(mode: Mode, sized: bool, start: Totals, lines: Seq<Seq<u8>>)
    requires
        forall|i: int| 0 <= i < lines.len() ==> (#[trigger] lines[i]).len() > 0,
    ensures
        tally(mode, sized, start, lines).lines == start.lines + lines.len(),
        tally(mode, sized, start, lines).bytes == if mode.bytes && !sized {
            start.bytes + lines.flatten().len()
        } else {
            start.bytes
        },
        tally(mode, sized, start, lines).max_line_len >= start.max_line_len,
    decreases lines.len(),
{
    if lines.len() > 0 {
        let front = lines.drop_last();
        lemma_tally_sums(mode, sized, start, front);
        lemma_tally_push(mode, sized, start, front, lines.last());
        front.lemma_flatten_push(lines.last());
        assert(front.push(lines.last()) =~= lines);
    } else {
        assert(lines.flatten() =~= Seq::<u8>::empty());
    }
}

/// A source without content has the counts of nothing, whatever is asked
/// for, be it a stream or a file of size zero.
pub proof fn law_empty_source(mode: Mode)
    ensures
        scanned(mode, None, Seq::empty()) == Some(Totals::zero()),
        scanned(mode, Some(0u64), Seq::empty()) == Some(Totals::zero()),
{
    assert(lines_of(Seq::<u8>::empty()) =~= Seq::<Seq<u8>>::empty());
}

/// Where bytes are asked for, a file whose size is known is given that size,
/// whatever else is asked for, and a source that is read for its bytes is
/// given the length of its content. So the two ways to the byte count agree
/// on every file whose size is the length of its content.
pub proof fn law_byte_count_by_size_or_by_read(mode: Mode, content: Seq<u8>, size: u64)
    requires
        mode.bytes,
        all_text(lines_of(content)),
    ensures
        scanned(mode, Some(size), content) is Some,
        scanned(mode, Some(size), content)->0.bytes == size,
        scanned(mode, None, content) is Some,
        scanned(mode, None, content)->0.bytes == content.len(),
{
    crate::split::law_pieces_partition(content, LINE_FEED);
    lemma_tally_sums(mode, true, opening(mode, Some(size)), lines_of(content));
    lemma_tally_sums(mode, false, opening(mode, None), lines_of(content));
}

/// A source that is read has one line for each line feed, and one more where
/// its content does not end in a line feed: it has as many lines as pieces.
pub proof fn law_line_count(mode: Mode, size: Option<u64>, content: Seq<u8>)
    requires
        is_read(mode, size),
        all_text(lines_of(content)),
    ensures
        scanned(mode, size, content) is Some,
        scanned(mode, size, content)->0.lines == lines_of(content).len(),
{
    crate::split::law_pieces_partition(content, LINE_FEED);
    lemma_tally_sums(mode, size is Some, opening(mode, size), lines_of(content));
}

/// One more line never lowers a count, and the widest line never narrows.
pub proof fn law_line_adds(totals: Totals, mode: Mode, sized: bool, line: LineModel)
    ensures
        totals.with_line(mode, sized, line).lines >= totals.lines,
        totals.with_line(mode, sized, line).words >= totals.words,
        totals.with_line(mode, sized, line).bytes >= totals.bytes,
        totals.with_line(mode, sized, line).chars >= totals.chars,
        totals.with_line(mode, sized, line).max_line_len >= totals.max_line_len,
{
}

/// Measures one line under `mode`.
pub fn measure(mode: &Mode, line: &str) -> (f: Figures)
    ensures
        f@ == figures_of(*mode, encode_utf8(line@)),
        f.words <= f.bytes,
        f.units <= f.bytes,
{
    let bytes = line.as_bytes();
    let words: usize = if mode.words {
        proof {
            crate::text::lemma_chars_within_bytes(line@);
            crate::text::lemma_word_starts_bound(line@, line@.len() as int);
        }
        count_words(line)
    } else {
        0
    };
    let units: usize = if mode.chars || mode.max_line_len {
        count_units(line, mode.graphemes)
    } else {
        0
    };
    Figures { bytes: bytes.len(), words, units, terminated: ends_in_terminator(bytes) }
}

impl Counts {
    /// Whether the figures of one more line can be added with every count
    /// still in its machine type.
    pub fn can_take(&self, mode: &Mode, sized: bool, line: &Figures) -> (b: bool)
        ensures
            b == self@.with_line(*mode, sized, line@).fits(),
    {
        line.bytes == 0 || (self.lines < usize::MAX && (!mode.words || line.words <= usize::MAX
            - self.words) && (!mode.bytes || sized || line.bytes as u64 <= u64::MAX - self.bytes)
            && (!(mode.chars || mode.max_line_len) || line.units <= usize::MAX - self.chars))
    }

    /// Adds the figures of one more line.
    pub fn take(&mut self, mode: &Mode, sized: bool, line: &Figures)
        requires
            old(self)@.with_line(*mode, sized, line@).fits(),
        ensures
            final(self)@ == old(self)@.with_line(*mode, sized, line@),
    {
        if line.bytes == 0 {
            return ;
        }
        self.lines = self.lines + 1;
        if mode.bytes && !sized {
            self.bytes = self.bytes + line.bytes as u64;
        }
        if mode.words {
            self.words = self.words + line.words;
        }
        if mode.chars || mode.max_line_len {
            self.chars = self.chars + line.units;
            let shown: usize = shown_len(line.units, line.terminated);
            if shown > self.max_line_len {
                self.max_line_len = shown;
            }
        }
    }

    /// Measures one more line and adds it, where every count stays in its
    /// machine type; says whether it did, and changes nothing where it did
    /// not.
    pub fn add_line(&mut self, mode: &Mode, sized: bool, line: &str) -> (added: bool)
        ensures
            added == old(self)@.with_line(
                *mode,
                sized,
                figures_of(*mode, encode_utf8(line@)),
            ).fits(),
            added ==> final(self)@ == old(self)@.with_line(
                *mode,
                sized,
                figures_of(*mode, encode_utf8(line@)),
            ),
            !added ==> *final(self) == *old(self),
    {
        let figures = measure(mode, line);
        if self.can_take(mode, sized, &figures) {
            self.take(mode, sized, &figures);
            true
        } else {
            false
        }
    }
}

/// The counts before the first line of a source: its size where that is
/// known and bytes are asked for, and nothing else.
pub fn begin(mode: &Mode, size: Option<u64>) -> (counts: Counts)
    ensures
        counts@ == opening(*mode, size),
{
    let mut counts = Counts::default();
    if let Some(n) = size {
        if mode.bytes {
            counts.bytes = n;
        }
    }
    counts
}

/// Whether the content of a source has to be read.
pub fn must_read(mode: &Mode, size: Option<u64>) -> (b: bool)
    ensures
        b == is_read(*mode, size),
{
    mode.needs_read() || size.is_none()
}

/// Counts a source held in memory. `size` is the size of a named file as its
/// file system gives it, and `None` for a stream that has none.
pub fn count_file(mode: &Mode, content: &[u8], size: Option<u64>) -> (r: Result<Counts, Failure>)
    ensures
        match scanned(*mode, size, content@) {
            Some(totals) => r matches Ok(counts) && counts@ == totals,
            None => r == Err::<Counts, Failure>(Failure::Decoding),
        },
{
    let mut counts = begin(mode, size);
    let sized = size.is_some();
    if !must_read(mode, size) {
        return Ok(counts);
    }
    let ghost start = opening(*mode, size);
    let len: usize = content.len();
    let mut at: usize = 0;
    while at < len
        invariant
            len == content@.len(),
            sized == (size is Some),
            start == opening(*mode, size),
            0 <= at <= len,
            is_read(*mode, size),
            starts_piece(content@, LINE_FEED, at as int) || at == len,
            all_text(pieces_upto(content@, LINE_FEED, at as int)),
            counts@ == tally(*mode, sized, start, pieces_upto(content@, LINE_FEED, at as int)),
            counts.lines <= at,
            counts.words <= at,
            counts.chars <= at,
            counts.max_line_len <= at,
            counts.bytes <= at || counts.bytes == start.bytes,
        decreases len - at,
    {
        let to = piece_end(content, LINE_FEED, at);
        let ghost before = pieces_upto(content@, LINE_FEED, at as int);
        let ghost line = content@.subrange(at as int, to as int);
        proof {
            lemma_next_piece(content@, LINE_FEED, at as int, to as int);
            lemma_tally_push(*mode, sized, start, before, line);
        }
        match text_of(slice_subrange(content, at, to)) {
            None => {
                proof {
                    lemma_pieces_extend(content@, LINE_FEED, to as int, len as int);
                    assert(before.push(line)[before.len() as int] == line);
                    assert(lines_of(content@)[before.len() as int] == line);
                }
                return Err(Failure::Decoding);
            },
            Some(text) => {
                let figures = measure(mode, text);
                counts.take(mode, sized, &figures);
            },
        }
        at = to;
    }
    Ok(counts)
}

} // verus!
