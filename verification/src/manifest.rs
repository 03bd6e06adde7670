//! A list of source names, each closed by a NUL byte.

use crate::error::Failure;
use crate::split::{lemma_next_piece, lemma_pieces_extend, piece_end, pieces, pieces_upto, starts_piece};
use crate::text::text_of;
use vstd::prelude::*;
use vstd::slice::slice_subrange;
use vstd::utf8::{decode_utf8, valid_utf8};

verus! {

broadcast use {vstd::utf8::encode_utf8_decode_utf8, vstd::utf8::decode_utf8_encode_utf8};

/// The byte that closes each name.
pub const NUL: u8 = 0;

/// The texts of some strings, in order.
pub open spec fn texts(names: Seq<String>) -> Seq<Seq<char>> {
    names.map_values(|name: String| name@)
}

/// The bytes of the name that a piece of the list holds: the piece without
/// the NUL that closes it.
pub open spec fn entry_of(piece: Seq<u8>) -> Seq<u8> {
    if piece.len() > 0 && piece.last() == NUL {
        piece.drop_last()
    } else {
        piece
    }
}

/// The names of a list as bytes, in order. A name runs up to the next NUL;
/// the last one may go without. Between two NULs stands an empty name.
pub open spec fn entries(content: Seq<u8>) -> Seq<Seq<u8>> {
    pieces(content, NUL).map_values(|piece: Seq<u8>| entry_of(piece))
}

/// Every name of the list is text.
pub open spec fn well_formed(content: Seq<u8>) -> bool {
    forall|i: int| 0 <= i < entries(content).len() ==> valid_utf8(#[trigger] entries(content)[i])
}

/// The names of a list, in order.
pub open spec fn names_of(content: Seq<u8>) -> Seq<Seq<char>> {
    entries(content).map_values(|entry: Seq<u8>| decode_utf8(entry))
}

/// Reads the names out of a list.
pub fn parse_manifest(content: &[u8]) -> (r: Result<Vec<String>, Failure>)
    ensures
        well_formed(content@) ==> (r matches Ok(names) && texts(names@) == names_of(content@)),
        !well_formed(content@) ==> r == Err::<Vec<String>, Failure>(Failure::Manifest),
{
    let mut names: Vec<String> = Vec::new();
    let len: usize = content.len();
    let mut at: usize = 0;
    while at < len
        invariant
            len == content@.len(),
            0 <= at <= len,
            starts_piece(content@, NUL, at as int) || at == len,
            names@.len() == pieces_upto(content@, NUL, at as int).len(),
            forall|i: int|
                0 <= i < names@.len() ==> valid_utf8(
                    entry_of(#[trigger] pieces_upto(content@, NUL, at as int)[i]),
                ),
            forall|i: int|
                0 <= i < names@.len() ==> (#[trigger] names@[i])@ == decode_utf8(
                    entry_of(pieces_upto(content@, NUL, at as int)[i]),
                ),
        decreases len - at,
    {
        let to = piece_end(content, NUL, at);
        let stop: usize = if content[to - 1] == NUL {
            to - 1
        } else {
            to
        };
        let ghost before = pieces_upto(content@, NUL, at as int);
        let ghost piece = content@.subrange(at as int, to as int);
        proof {
            lemma_next_piece(content@, NUL, at as int, to as int);
            assert(content@.subrange(at as int, stop as int) =~= entry_of(piece));
        }
        match text_of(slice_subrange(content, at, stop)) {
            None => {
                proof {
                    lemma_pieces_extend(content@, NUL, to as int, len as int);
                    assert(before.push(piece)[before.len() as int] == piece);
                    assert(pieces(content@, NUL)[before.len() as int] == piece);
                    assert(entries(content@)[before.len() as int] == entry_of(piece));
                }
                return Err(Failure::Manifest);
            },
            Some(name) => {
                names.push(name.to_owned());
            },
        }
        at = to;
    }
    proof {
        assert(texts(names@) =~= names_of(content@));
    }
    Ok(names)
}

/// Adds the names of a list to `files`, behind those that are there. Where
/// the list is not well formed, `files` stays as it is.
pub fn files_from(files: &mut Vec<String>, manifest: &[u8]) -> (r: Result<(), Failure>)
    ensures
        well_formed(manifest@) ==> (r is Ok && texts(final(files)@) == texts(old(files)@)
            + names_of(manifest@)),
        !well_formed(manifest@) ==> (r == Err::<(), Failure>(Failure::Manifest) && final(files)@
            == old(files)@),
{
    match parse_manifest(manifest) {
        Err(failure) => Err(failure),
        Ok(mut names) => {
            proof {
                assert(texts(files@ + names@) =~= texts(files@) + texts(names@));
            }
            files.append(&mut names);
            Ok(())
        },
    }
}

} // verus!
