//! Cutting a byte stream into pieces, each running up to and including the
//! next delimiter byte, or to the end of the stream.

use vstd::prelude::*;

verus! {

/// A piece may start at `at`: at the very beginning, or just behind a
/// delimiter.
pub open spec fn starts_piece(content: Seq<u8>, delim: u8, at: int) -> bool {
    at == 0 || (0 < at <= content.len() && content[at - 1] == delim)
}

/// The start of the piece that holds the byte at `at`.
pub open spec fn piece_start(content: Seq<u8>, delim: u8, at: int) -> int
    decreases at,
{
    if at <= 0 {
        0
    } else if content[at - 1] == delim {
        at
    } else {
        piece_start(content, delim, at - 1)
    }
}

/// The pieces of the first `upto` bytes of `content`, in order.
pub open spec fn pieces_upto(content: Seq<u8>, delim: u8, upto: int) -> Seq<Seq<u8>>
    decreases upto,
{
    if upto <= 0 {
        Seq::empty()
    } else {
        let start = piece_start(content, delim, upto - 1);
        if 0 <= start < upto {
            pieces_upto(content, delim, start).push(content.subrange(start, upto))
        } else {
            Seq::empty()
        }
    }
}

/// The pieces of `content`, in order: each runs up to and including the next
/// `delim`; the last one runs to the end where no `delim` closes it.
pub open spec fn pieces(content: Seq<u8>, delim: u8) -> Seq<Seq<u8>> {
    pieces_upto(content, delim, content.len() as int)
}

/// `delim` occurs nowhere in `content` from `from` up to, not including, `to`.
pub open spec fn free_of(content: Seq<u8>, delim: u8, from: int, to: int) -> bool {
    forall|j: int| from <= j < to ==> content[j] != delim
}

/// The piece that holds a byte starts at or before it, at a place where a
/// piece may start, and holds no delimiter before that byte.
pub proof fn lemma_piece_start(content: Seq<u8>, delim: u8, at: int)
    requires
        0 <= at < content.len(),
    ensures
        0 <= piece_start(content, delim, at) <= at,
        starts_piece(content, delim, piece_start(content, delim, at)),
        free_of(content, delim, piece_start(content, delim, at), at),
    decreases at,
{
    if at > 0 && content[at - 1] != delim {
        lemma_piece_start(content, delim, at - 1);
    }
}

/// A run of bytes that starts where a piece may start and holds no delimiter
/// before its last byte is the piece that follows the pieces before it.
pub proof fn lemma_next_piece(content: Seq<u8>, delim: u8, from: int, to: int)
    requires
        0 <= from < to <= content.len(),
        starts_piece(content, delim, from),
        free_of(content, delim, from, to - 1),
    ensures
        piece_start(content, delim, to - 1) == from,
        pieces_upto(content, delim, to) == pieces_upto(content, delim, from).push(
            content.subrange(from, to),
        ),
    decreases to - from,
{
    if to - 1 > from {
        assert(content[to - 2] != delim);
        lemma_next_piece(content, delim, from, to - 1);
    }
}

/// The start of the piece that holds a byte lies at or behind every place
/// before that byte where a piece may start.
pub proof fn lemma_start_behind(content: Seq<u8>, delim: u8, mark: int, at: int)
    requires
        0 <= mark <= at < content.len(),
        starts_piece(content, delim, mark),
    ensures
        mark <= piece_start(content, delim, at),
    decreases at,
{
    if at > 0 && content[at - 1] != delim && mark < at {
        lemma_start_behind(content, delim, mark, at - 1);
    }
}

/// The pieces up to a place where a piece may start stay as they are when
/// more content follows: they are the first pieces of the longer stream.
pub proof fn lemma_pieces_extend(content: Seq<u8>, delim: u8, mark: int, upto: int)
    requires
        0 <= mark <= upto <= content.len(),
        starts_piece(content, delim, mark) || mark == upto,
    ensures
        pieces_upto(content, delim, mark).len() <= pieces_upto(content, delim, upto).len(),
        forall|i: int|
            0 <= i < pieces_upto(content, delim, mark).len() ==> pieces_upto(
                content,
                delim,
                mark,
            )[i] == #[trigger] pieces_upto(content, delim, upto)[i],
    decreases upto,
{
    if mark < upto {
        lemma_piece_start(content, delim, upto - 1);
        lemma_start_behind(content, delim, mark, upto - 1);
        lemma_pieces_extend(content, delim, mark, piece_start(content, delim, upto - 1));
    }
}

/// The pieces, laid end to end, are the content: nothing is lost, repeated or
/// moved. No piece is empty, a delimiter stands only at the end of a piece,
/// and every piece but the last ends in one.
pub proof fn law_pieces_partition(content: Seq<u8>, delim: u8)
    ensures
        pieces(content, delim).flatten() == content,
        forall|i: int|
            0 <= i < pieces(content, delim).len() ==> {
                let piece = #[trigger] pieces(content, delim)[i];
                &&& piece.len() > 0
                &&& free_of(piece, delim, 0, piece.len() - 1)
                &&& i + 1 < pieces(content, delim).len() ==> piece.last() == delim
            },
        content.len() > 0 && content.last() == delim ==> pieces(content, delim).last().last()
            == delim,
{
    lemma_partition_upto(content, delim, content.len() as int);
    assert(content.subrange(0, content.len() as int) =~= content);
}

proof fn lemma_partition_upto(content: Seq<u8>, delim: u8, upto: int)
    requires
        0 <= upto <= content.len(),
        starts_piece(content, delim, upto) || upto == content.len(),
    ensures
        pieces_upto(content, delim, upto).flatten() == content.subrange(0, upto),
        forall|i: int|
            0 <= i < pieces_upto(content, delim, upto).len() ==> {
                let piece = #[trigger] pieces_upto(content, delim, upto)[i];
                &&& piece.len() > 0
                &&& free_of(piece, delim, 0, piece.len() - 1)
                &&& i + 1 < pieces_upto(content, delim, upto).len() ==> piece.last() == delim
            },
        upto > 0 ==> pieces_upto(content, delim, upto).len() > 0 && pieces_upto(
            content,
            delim,
            upto,
        ).last().last() == content[upto - 1],
    decreases upto,
{
    if upto > 0 {
        lemma_piece_start(content, delim, upto - 1);
        let start = piece_start(content, delim, upto - 1);
        let front = pieces_upto(content, delim, start);
        let piece = content.subrange(start, upto);
        lemma_partition_upto(content, delim, start);
        front.lemma_flatten_push(piece);
        assert(content.subrange(0, start) + piece =~= content.subrange(0, upto));
        assert(free_of(piece, delim, 0, piece.len() - 1)) by {
            assert forall|j: int| 0 <= j < piece.len() - 1 implies piece[j] != delim by {
                assert(piece[j] == content[start + j]);
            }
        }
        let all = front.push(piece);
        assert forall|i: int| 0 <= i < all.len() implies {
            let p = #[trigger] all[i];
            &&& p.len() > 0
            &&& free_of(p, delim, 0, p.len() - 1)
            &&& i + 1 < all.len() ==> p.last() == delim
        } by {
            if i < front.len() {
                assert(all[i] == front[i]);
                if i + 1 == front.len() {
                    assert(front.last().last() == content[start - 1]);
                }
            }
        }
    } else {
        assert(content.subrange(0, 0) =~= Seq::<u8>::empty());
    }
}

/// Finds where the piece that starts at `from` ends: just behind the first
/// `delim` at or after `from`, or at the end of `content`. Behind the end of
/// `content` there is no piece, and `from` comes back.
pub fn piece_end(content: &[u8], delim: u8, from: usize) -> (to: usize)
    ensures
        from >= content@.len() ==> to == from,
        from < content@.len() ==> from < to <= content@.len(),
        free_of(content@, delim, from as int, to - 1),
        from < content@.len() ==> to == content@.len() || content@[to - 1] == delim,
{
    let mut at: usize = from;
    while at < content.len() && content[at] != delim
        invariant
            from <= at,
            from < content@.len() ==> at <= content@.len(),
            from >= content@.len() ==> at == from,
            free_of(content@, delim, from as int, at as int),
        decreases content@.len() - at,
    {
        at = at + 1;
    }
    if at < content.len() {
        at + 1
    } else {
        at
    }
}

} // verus!
