//! Text handed out in pieces of a fixed number of bytes.

use vstd::prelude::*;
use vstd::string::*;
use vstd::utf8::*;

verus! {

/// How many bytes the next piece takes: `by` of them, or all that are left.
pub open spec fn piece_len(rest: Seq<u8>, by: nat) -> int {
    if by <= rest.len() {
        by as int
    } else {
        rest.len() as int
    }
}

/// The pieces of `rest`, each `by` bytes long except for the last, which may be shorter.
pub open spec fn pieces(rest: Seq<u8>, by: nat) -> Seq<Seq<u8>>
    decreases rest.len(),
{
    if rest.len() == 0 || by == 0 {
        seq![]
    } else {
        let cut = piece_len(rest, by);
        seq![rest.take(cut)] + pieces(rest.skip(cut), by)
    }
}

/// Pieces of a string, `by` bytes at a time.
pub struct SplitBy<'a> {
    rest: &'a str,
    by: usize,
}

impl<'a> SplitBy<'a> {
    /// The bytes that have not been handed out yet.
    pub closed spec fn rest(self) -> Seq<u8> {
        self.rest.spec_bytes()
    }

    /// The length of a piece.
    pub closed spec fn width(self) -> nat {
        self.by as nat
    }

    /// The next piece ends where a character ends.
    pub open spec fn cuts_between_chars(self) -> bool {
        is_char_boundary(self.rest(), piece_len(self.rest(), self.width()))
    }

    /// Starts at the beginning of `src`.
    pub fn new(src: &'a str, by: usize) -> (split: Self)
        requires
            by > 0,
        ensures
            split.rest() == src.spec_bytes(),
            split.width() == by,
    {
        SplitBy { rest: src, by }
    }

    /// Where the next piece ends.
    fn cut(&self) -> (cut: usize)
        ensures
            cut == piece_len(self.rest(), self.width()),
    {
        let len: usize = self.rest.as_bytes().len();
        if self.by <= len {
            self.by
        } else {
            len
        }
    }

    /// Whether the next piece ends where a character ends.
    pub fn can_cut(&self) -> (yes: bool)
        ensures
            yes == self.cuts_between_chars(),
    {
        self.rest.is_char_boundary(self.cut())
    }

    /// The next piece, or nothing at the end. A piece that would end inside a character
    /// does not exist as text.
    pub fn next(&mut self) -> (piece: Option<&'a str>)
        requires
            old(self).cuts_between_chars(),
        ensures
            final(self).width() == old(self).width(),
            match piece {
                Some(piece) => {
                    let cut = piece_len(old(self).rest(), old(self).width());
                    &&& old(self).rest().len() > 0
                    &&& piece.spec_bytes() == old(self).rest().take(cut)
                    &&& final(self).rest() == old(self).rest().skip(cut)
                },
                None => old(self).rest().len() == 0 && final(self).rest() == old(self).rest(),
            },
    {
        if self.rest.as_bytes().len() == 0 {
            return None;
        }
        let cut = self.cut();
        let (piece, rest) = self.rest.split_at(cut);
        assert(self.rest().subrange(0, cut as int) == self.rest().take(cut as int));
        assert(self.rest().subrange(cut as int, self.rest().len() as int) == self.rest().skip(
            cut as int,
        ));
        self.rest = rest;
        Some(piece)
    }
}

/// Handing out one piece takes the first of the pieces and leaves the others.
pub proof fn law_next_takes_the_first_piece(rest: Seq<u8>, by: nat)
    requires
        by > 0,
        rest.len() > 0,
    ensures
        pieces(rest, by).len() > 0,
        pieces(rest, by).first() == rest.take(piece_len(rest, by)),
        pieces(rest, by).drop_first() == pieces(rest.skip(piece_len(rest, by)), by),
{
}

/// The pieces, one after the other, are the text again: nothing is lost and nothing is
/// added. Every piece but the last has `by` bytes, and the last has at least one.
pub proof fn law_pieces_make_up_the_text(rest: Seq<u8>, by: nat)
    requires
        by > 0,
    ensures
        pieces(rest, by).flatten() == rest,
        forall|i: int|
            0 <= i < pieces(rest, by).len() - 1 ==> (#[trigger] pieces(rest, by)[i]).len() == by,
        pieces(rest, by).len() > 0 ==> 0 < pieces(rest, by).last().len() <= by,
        pieces(rest, by).len() == (rest.len() + by - 1) / (by as int),
    decreases rest.len(),
{
    if rest.len() == 0 {
        assert((by - 1) / (by as int) == 0) by (nonlinear_arith)
            requires
                by > 0,
        ;
    } else {
        let cut = piece_len(rest, by);
        let tail = rest.skip(cut);
        law_pieces_make_up_the_text(tail, by);
        let all = pieces(rest, by);
        assert(all.drop_first() == pieces(tail, by));
        assert(all.flatten() == rest.take(cut) + tail);
        assert(rest.take(cut) + tail == rest);
        assert forall|i: int| 0 <= i < all.len() - 1 implies (#[trigger] all[i]).len() == by by {
            if i > 0 {
                assert(all[i] == pieces(tail, by)[i - 1]);
            } else if by > rest.len() {
                assert(pieces(tail, by).len() == 0);
            }
        }
        if pieces(tail, by).len() > 0 {
            assert(all.last() == pieces(tail, by).last());
        }
        if by <= rest.len() {
            assert((rest.len() + by - 1) / (by as int) == 1 + (rest.len() - 1) / (by as int))
                by (nonlinear_arith)
                requires
                    by > 0,
            ;
        } else {
            assert((rest.len() + by - 1) / (by as int) == 1) by (nonlinear_arith)
                requires
                    by > 0,
                    0 < rest.len() < by,
            ;
            assert((by - 1) / (by as int) == 0) by (nonlinear_arith)
                requires
                    by > 0,
            ;
        }
    }
}

} // verus!
