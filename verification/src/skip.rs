//! Bytes left out at the start of a file that is written in pieces.

use vstd::prelude::*;

verus! {

/// How many bytes of a piece of `len` bytes are left out.
pub open spec fn cut(left: u64, len: nat) -> nat {
    if left < len {
        left as nat
    } else {
        len
    }
}

/// How many bytes are still to be left out after a piece, and what of the piece is written.
pub open spec fn skipped(left: u64, piece: Seq<u8>) -> (u64, Seq<u8>) {
    let n = cut(left, piece.len());
    ((left - n) as u64, piece.skip(n as int))
}

/// Leaves out as many bytes of `piece` as are still to be left out.
pub fn skip_start(left: &mut u64, piece: &[u8]) -> (rest: Vec<u8>)
    ensures
        (*final(left), rest@) == skipped(*old(left), piece@),
{
    let len: usize = piece.len();
    let n: usize = if *left < len as u64 {
        *left as usize
    } else {
        len
    };
    *left = *left - n as u64;
    let mut rest: Vec<u8> = Vec::new();
    let mut i: usize = n;
    while i < len
        invariant
            n <= i <= len,
            len == piece@.len(),
            rest@ == piece@.subrange(n as int, i as int),
        decreases len - i,
    {
        rest.push(piece[i]);
        i = i + 1;
    }
    assert(piece@.subrange(n as int, len as int) == piece@.skip(n as int));
    rest
}

/// How many bytes are still to be left out after the first `n` pieces, and all that is
/// written of them.
pub open spec fn skipped_all(left: u64, pieces: Seq<Seq<u8>>, n: nat) -> (u64, Seq<u8>)
    decreases n,
{
    if n == 0 {
        (left, seq![])
    } else {
        let (before, written) = skipped_all(left, pieces, (n - 1) as nat);
        let (after, rest) = skipped(before, pieces[n - 1]);
        (after, written + rest)
    }
}

/// However a file comes in pieces, exactly its start is left out: as many bytes as were
/// asked for, or all of it if it is shorter.
pub proof fn law_only_the_start_is_left_out(left: u64, pieces: Seq<Seq<u8>>, n: nat)
    requires
        n <= pieces.len(),
    ensures
        ({
            let whole = pieces.take(n as int).flatten();
            let (after, written) = skipped_all(left, pieces, n);
            &&& left <= whole.len() ==> written == whole.skip(left as int) && after == 0
            &&& left > whole.len() ==> written.len() == 0 && after == left - whole.len()
        }),
    decreases n,
{
    if n > 0 {
        law_only_the_start_is_left_out(left, pieces, (n - 1) as nat);
        let before = pieces.take(n - 1);
        let piece = pieces[n - 1];
        assert(pieces.take(n as int) == before.push(piece));
        before.lemma_flatten_push(piece);
        let (rest_left, written) = skipped_all(left, pieces, (n - 1) as nat);
        let whole = before.flatten() + piece;
        assert(pieces.take(n as int).flatten() == whole);
        assert(written + skipped(rest_left, piece).1 =~= whole.skip(
            cut(left, whole.len()) as int,
        ));
    } else {
        assert(pieces.take(0) == Seq::<Seq<u8>>::empty());
    }
}

} // verus!
