//! Decryption of segments: AES-128 in CBC mode, the last block padded as PKCS #7 says.

use cipher::{BlockDecryptMut, KeyIvInit};
use vstd::prelude::*;

verus! {

/// The number of bytes in a block, a key and an initialisation vector.
pub const BLOCK: usize = 16;

/// What `block` decrypts to under `key` when the block before it, or the initialisation
/// vector, is `chain`.
pub uninterp spec fn cbc_decrypted(key: Seq<u8>, chain: Seq<u8>, block: Seq<u8>) -> Seq<u8>;

/// `block` without its padding: its last byte says how many bytes the padding has, and they
/// are all alike. Nothing, where it does not end so.
pub open spec fn unpadded(block: Seq<u8>) -> Option<Seq<u8>> {
    let n = block.last() as int;
    if 1 <= n <= block.len() && forall|i: int|
        block.len() - n <= i < block.len() ==> #[trigger] block[i] == n {
        Some(block.take(block.len() - n))
    } else {
        None
    }
}

/// Calls `cbc::Decryptor::new_from_slices`, which checks the lengths of the key and of the
/// initialisation vector and nothing else.
#[verifier::external_body]
fn lengths_fit(key: &[u8], iv: &[u8]) -> (fit: bool)
    ensures
        fit == (key@.len() == BLOCK && iv@.len() == BLOCK),
{
    cbc::Decryptor::<aes::Aes128>::new_from_slices(key, iv).is_ok()
}

/// Calls `decrypt_block_mut` on a `cbc::Decryptor` with this key whose last block was
/// `chain`. The contract claims that what comes out is a block and depends on the three
/// arguments alone.
#[verifier::external_body]
fn decrypt_block(key: &[u8], chain: &[u8], block: &[u8]) -> (plain: Vec<u8>)
    requires
        key@.len() == BLOCK,
        chain@.len() == BLOCK,
        block@.len() == BLOCK,
    ensures
        plain@ == cbc_decrypted(key@, chain@, block@),
        plain@.len() == BLOCK,
{
    let mut block = aes::Block::clone_from_slice(block);
    let mut cipher = cbc::Decryptor::<aes::Aes128>::new_from_slices(key, chain).unwrap();
    cipher.decrypt_block_mut(&mut block);
    block.to_vec()
}

/// Calls `decrypt_padded_mut` with `Pkcs7` on a `cbc::Decryptor` with this key whose last
/// block was `chain`. The contract claims that it decrypts the block to a block like
/// `decrypt_block_mut` and takes the padding off, and fails where the padding is malformed.
#[verifier::external_body]
fn decrypt_last_block(key: &[u8], chain: &[u8], block: &[u8]) -> (plain: Option<Vec<u8>>)
    requires
        key@.len() == BLOCK,
        chain@.len() == BLOCK,
        block@.len() == BLOCK,
    ensures
        match plain {
            Some(plain) => cbc_decrypted(key@, chain@, block@).len() == BLOCK && unpadded(
                cbc_decrypted(key@, chain@, block@),
            ) == Some(plain@),
            None => cbc_decrypted(key@, chain@, block@).len() == BLOCK && unpadded(
                cbc_decrypted(key@, chain@, block@),
            ) is None,
        },
{
    let mut block = aes::Block::clone_from_slice(block);
    let cipher = cbc::Decryptor::<aes::Aes128>::new_from_slices(key, chain).unwrap();
    cipher.decrypt_padded_mut::<block_padding::Pkcs7>(&mut block).ok().map(|plain| plain.to_vec())
}

/// The key or the initialisation vector has not the right length.
#[derive(Debug, Clone, Copy, PartialEq, Eq)]
pub struct InvalidLength;

/// Why an encrypted segment cannot be copied.
#[derive(Debug, Clone, Copy, PartialEq, Eq)]
pub enum CopyError {
    /// The segment ends inside a block.
    UnexpectedEof,
    /// The padding is malformed.
    Padding,
}

/// What holding back the last block gives, one read at a time. `B` is bytes.
#[derive(Debug, PartialEq, Eq)]
pub enum Held<B> {
    /// The first block was read.
    First,
    /// A block that is not the last.
    Block(B),
    /// The last block.
    Last(B),
    /// There was no block at all.
    Empty,
}

/// The view of what was held back.
pub open spec fn held_view(held: Result<Held<Vec<u8>>, CopyError>) -> Result<
    Held<Seq<u8>>,
    CopyError,
> {
    match held {
        Ok(Held::First) => Ok(Held::First),
        Ok(Held::Block(block)) => Ok(Held::Block(block@)),
        Ok(Held::Last(block)) => Ok(Held::Last(block@)),
        Ok(Held::Empty) => Ok(Held::Empty),
        Err(e) => Err(e),
    }
}

/// The view of bytes that may be missing.
pub open spec fn opt_bytes(bytes: Option<Vec<u8>>) -> Option<Seq<u8>> {
    match bytes {
        Some(bytes) => Some(bytes@),
        None => None,
    }
}

/// What is held back after `read` was read, and what may be used now: a block is known not
/// to be the last when another follows. A read of no bytes is the end; any other that is
/// not a whole block is an error.
pub open spec fn held_back(prev: Option<Seq<u8>>, read: Seq<u8>) -> (
    Option<Seq<u8>>,
    Result<Held<Seq<u8>>, CopyError>,
) {
    if read.len() == BLOCK {
        (
            Some(read),
            match prev {
                Some(block) => Ok(Held::Block(block)),
                None => Ok(Held::First),
            },
        )
    } else if read.len() == 0 {
        (
            None,
            match prev {
                Some(block) => Ok(Held::Last(block)),
                None => Ok(Held::Empty),
            },
        )
    } else {
        (prev, Err(CopyError::UnexpectedEof))
    }
}

/// Holds back the block that was read last.
pub fn hold_back(prev: &mut Option<Vec<u8>>, read: &[u8]) -> (held: Result<
    Held<Vec<u8>>,
    CopyError,
>)
    ensures
        (opt_bytes(*final(prev)), held_view(held)) == held_back(opt_bytes(*old(prev)), read@),
{
    if read.len() == BLOCK {
        let before = prev.take();
        let block = bytes_of(read);
        *prev = Some(block);
        match before {
            Some(block) => Ok(Held::Block(block)),
            None => Ok(Held::First),
        }
    } else if read.len() == 0 {
        match prev.take() {
            Some(block) => Ok(Held::Last(block)),
            None => Ok(Held::Empty),
        }
    } else {
        Err(CopyError::UnexpectedEof)
    }
}

fn bytes_of(slice: &[u8]) -> (bytes: Vec<u8>)
    ensures
        bytes@ == slice@,
{
    let mut bytes: Vec<u8> = Vec::new();
    let mut i: usize = 0;
    while i < slice.len()
        invariant
            i <= slice.len(),
            bytes@ == slice@.take(i as int),
        decreases slice.len() - i,
    {
        bytes.push(slice[i]);
        i = i + 1;
    }
    assert(slice@.take(slice@.len() as int) == slice@);
    bytes
}

/// What to do with a segment after a read. `B` is bytes.
#[derive(Debug, PartialEq, Eq)]
pub enum CopyStep<B> {
    /// Write this, if anything, and read on.
    More(Option<B>),
    /// Write this, if anything, and stop.
    Done(Option<B>),
}

/// The view of a step or of an error.
pub open spec fn step_view(step: Result<CopyStep<Vec<u8>>, CopyError>) -> Result<
    CopyStep<Seq<u8>>,
    CopyError,
> {
    match step {
        Ok(CopyStep::More(bytes)) => Ok(CopyStep::More(opt_bytes(bytes))),
        Ok(CopyStep::Done(bytes)) => Ok(CopyStep::Done(opt_bytes(bytes))),
        Err(e) => Err(e),
    }
}

/// The state of a decryption in specifications.
pub struct DecryptorView {
    pub key: Seq<u8>,
    /// The block that was decrypted last, or the initialisation vector.
    pub chain: Seq<u8>,
    /// The block that is held back.
    pub prev: Option<Seq<u8>>,
}

/// The decryption of one segment, block by block.
pub struct Decryptor {
    key: Vec<u8>,
    chain: Vec<u8>,
    prev: Option<Vec<u8>>,
}

impl View for Decryptor {
    type V = DecryptorView;

    closed spec fn view(&self) -> DecryptorView {
        DecryptorView { key: self.key@, chain: self.chain@, prev: opt_bytes(self.prev) }
    }
}

/// The state before anything was read.
pub open spec fn new_decryptor(key: Seq<u8>, iv: Seq<u8>) -> DecryptorView {
    DecryptorView { key, chain: iv, prev: None }
}

/// The state after a read, and what to do.
pub open spec fn copied(state: DecryptorView, read: Seq<u8>) -> (
    DecryptorView,
    Result<CopyStep<Seq<u8>>, CopyError>,
) {
    let (prev, held) = held_back(state.prev, read);
    match held {
        Ok(Held::First) => (DecryptorView { prev, ..state }, Ok(CopyStep::More(None))),
        Ok(Held::Block(block)) => (
            DecryptorView { prev, chain: block, ..state },
            Ok(CopyStep::More(Some(cbc_decrypted(state.key, state.chain, block)))),
        ),
        Ok(Held::Last(block)) => (
            DecryptorView { prev, chain: block, ..state },
            match unpadded(cbc_decrypted(state.key, state.chain, block)) {
                Some(plain) => Ok(CopyStep::Done(Some(plain))),
                None => Err(CopyError::Padding),
            },
        ),
        Ok(Held::Empty) => (DecryptorView { prev, ..state }, Ok(CopyStep::Done(None))),
        Err(e) => (DecryptorView { prev, ..state }, Err(e)),
    }
}

impl Decryptor {
    #[verifier::type_invariant]
    spec fn has_blocks(self) -> bool {
        &&& self.key@.len() == BLOCK
        &&& self.chain@.len() == BLOCK
        &&& self.prev matches Some(block) ==> block@.len() == BLOCK
    }

    /// A decryption with this key and initialisation vector, each of which must have the
    /// length of a block.
    pub fn new_from_slices(key: &[u8], iv: &[u8]) -> (decryptor: Result<Self, InvalidLength>)
        ensures
            match decryptor {
                Ok(decryptor) => key@.len() == BLOCK && iv@.len() == BLOCK && decryptor@
                    == new_decryptor(key@, iv@),
                Err(_) => key@.len() != BLOCK || iv@.len() != BLOCK,
            },
    {
        if lengths_fit(key, iv) {
            Ok(Decryptor { key: bytes_of(key), chain: bytes_of(iv), prev: None })
        } else {
            Err(InvalidLength)
        }
    }

    /// Goes on after `read` was read from the segment.
    pub fn copy(&mut self, read: &[u8]) -> (step: Result<CopyStep<Vec<u8>>, CopyError>)
        ensures
            (final(self)@, step_view(step)) == copied(old(self)@, read@),
            step matches Ok(CopyStep::More(Some(bytes))) ==> bytes@.len() == BLOCK,
            step matches Ok(CopyStep::Done(Some(bytes))) ==> bytes@.len() < BLOCK,
    {
        proof {
            use_type_invariant(&*self);
        }
        let mut prev: Option<Vec<u8>> = None;
        std::mem::swap(&mut prev, &mut self.prev);
        let held = hold_back(&mut prev, read);
        self.prev = prev;
        match held {
            Ok(Held::First) => Ok(CopyStep::More(None)),
            Ok(Held::Block(block)) => {
                let plain = decrypt_block(
                    self.key.as_slice(),
                    self.chain.as_slice(),
                    block.as_slice(),
                );
                self.chain = block;
                Ok(CopyStep::More(Some(plain)))
            },
            Ok(Held::Last(block)) => {
                let plain = decrypt_last_block(
                    self.key.as_slice(),
                    self.chain.as_slice(),
                    block.as_slice(),
                );
                self.chain = block;
                match plain {
                    Some(plain) => Ok(CopyStep::Done(Some(plain))),
                    None => Err(CopyError::Padding),
                }
            },
            Ok(Held::Empty) => Ok(CopyStep::Done(None)),
            Err(e) => Err(e),
        }
    }
}

/// The first `n` blocks of a segment, decrypted: each is chained to the one before it, the
/// first to the initialisation vector.
pub open spec fn cbc_plain(key: Seq<u8>, iv: Seq<u8>, blocks: Seq<Seq<u8>>, n: nat) -> Seq<u8>
    decreases n,
{
    if n == 0 {
        seq![]
    } else {
        cbc_plain(key, iv, blocks, (n - 1) as nat) + cbc_block(key, iv, blocks, n - 1)
    }
}

/// The block at `i` of a segment, decrypted.
pub open spec fn cbc_block(key: Seq<u8>, iv: Seq<u8>, blocks: Seq<Seq<u8>>, i: int) -> Seq<u8> {
    let chain = if i == 0 {
        iv
    } else {
        blocks[i - 1]
    };
    cbc_decrypted(key, chain, blocks[i])
}

/// The state after the first `n` blocks of a segment were read, and all that was to be
/// written.
pub open spec fn copied_blocks(state: DecryptorView, blocks: Seq<Seq<u8>>, n: nat) -> (
    DecryptorView,
    Seq<u8>,
)
    decreases n,
{
    if n == 0 {
        (state, seq![])
    } else {
        let (before, written) = copied_blocks(state, blocks, (n - 1) as nat);
        let (after, step) = copied(before, blocks[n - 1]);
        (
            after,
            match step {
                Ok(CopyStep::More(Some(bytes))) => written + bytes,
                _ => written,
            },
        )
    }
}

/// Copying a segment of whole blocks writes its decryption without the padding of the last
/// block, and fails exactly where that padding is malformed. An empty segment gives nothing.
pub proof fn law_copy_decrypts_the_segment(key: Seq<u8>, iv: Seq<u8>, blocks: Seq<Seq<u8>>)
    requires
        forall|i: int| 0 <= i < blocks.len() ==> (#[trigger] blocks[i]).len() == BLOCK,
    ensures
        ({
            let (state, written) = copied_blocks(new_decryptor(key, iv), blocks, blocks.len());
            let end = copied(state, seq![]).1;
            if blocks.len() == 0 {
                written == Seq::<u8>::empty() && end == Ok::<_, CopyError>(
                    CopyStep::<Seq<u8>>::Done(None),
                )
            } else {
                let last = blocks.len() - 1;
                &&& written == cbc_plain(key, iv, blocks, last as nat)
                &&& match unpadded(cbc_block(key, iv, blocks, last)) {
                    Some(plain) => end == Ok::<_, CopyError>(CopyStep::Done(Some(plain))),
                    None => end == Err::<CopyStep<Seq<u8>>, _>(CopyError::Padding),
                }
            }
        }),
{
    lemma_copied_blocks(key, iv, blocks, blocks.len());
}

proof fn lemma_copied_blocks(key: Seq<u8>, iv: Seq<u8>, blocks: Seq<Seq<u8>>, n: nat)
    requires
        n <= blocks.len(),
        forall|i: int| 0 <= i < blocks.len() ==> (#[trigger] blocks[i]).len() == BLOCK,
    ensures
        ({
            let (state, written) = copied_blocks(new_decryptor(key, iv), blocks, n);
            &&& state.key == key
            &&& if n == 0 {
                state.prev is None && state.chain == iv && written == Seq::<u8>::empty()
            } else {
                &&& state.prev == Some(blocks[n - 1])
                &&& state.chain == (if n == 1 {
                    iv
                } else {
                    blocks[n - 2]
                })
                &&& written == cbc_plain(key, iv, blocks, (n - 1) as nat)
            }
        }),
    decreases n,
{
    if n > 0 {
        lemma_copied_blocks(key, iv, blocks, (n - 1) as nat);
        assert(blocks[n - 1].len() == BLOCK);
    }
}

/// A read that is neither a whole block nor the end is an error and changes nothing.
pub proof fn law_partial_blocks_are_refused(state: DecryptorView, read: Seq<u8>)
    requires
        read.len() != 0,
        read.len() != BLOCK,
    ensures
        copied(state, read) == (state, Err::<CopyStep<Seq<u8>>, _>(CopyError::UnexpectedEof)),
{
}

/// Taking the padding off gives back what was padded: bytes fewer than a block has, then as
/// many more as the block needs, each of them their number.
pub proof fn law_padding_comes_off(plain: Seq<u8>)
    requires
        plain.len() < BLOCK,
    ensures
        unpadded(
            plain + Seq::new((BLOCK - plain.len()) as nat, |i: int| (BLOCK - plain.len()) as u8),
        ) == Some(plain),
{
    let n = (BLOCK - plain.len()) as u8;
    let block = plain + Seq::new(n as nat, |i: int| n);
    assert(block == plain + Seq::new(
        (BLOCK - plain.len()) as nat,
        |i: int| (BLOCK - plain.len()) as u8,
    ));
    assert(block.last() == n);
    assert(block.take(block.len() - n) == plain);
}

/// A block that is read comes out with the next read, as the last one where that is the end,
/// and unchanged: what is not a whole block does not take its place.
pub proof fn law_block_comes_out_with_the_next_read(
    prev: Option<Seq<u8>>,
    block: Seq<u8>,
    next: Seq<u8>,
)
    requires
        block.len() == BLOCK,
    ensures
        ({
            let (held, first) = held_back(prev, block);
            let (after, second) = held_back(held, next);
            &&& prev is None ==> first == Ok::<Held<Seq<u8>>, CopyError>(Held::First)
            &&& prev matches Some(before) ==> first == Ok::<_, CopyError>(Held::Block(before))
            &&& next.len() == BLOCK ==> second == Ok::<_, CopyError>(Held::Block(block))
            &&& next.len() == 0 ==> second == Ok::<_, CopyError>(Held::Last(block)) && after is None
            &&& next.len() != 0 && next.len() != BLOCK ==> second == Err::<Held<Seq<u8>>, _>(
                CopyError::UnexpectedEof,
            ) && after == Some(block)
        }),
        held_back(None, seq![]) == (None::<Seq<u8>>, Ok::<Held<Seq<u8>>, CopyError>(Held::Empty)),
        next.len() != 0 && next.len() != BLOCK ==> held_back(None, next) == (
            None::<Seq<u8>>,
            Err::<Held<Seq<u8>>, _>(CopyError::UnexpectedEof),
        ),
{
}

/// From any state, reading a block decrypts the one before it, chained to the one before
/// that, and reading the end decrypts the last one and takes its padding off. The key stays
/// the same.
pub proof fn law_each_read_decrypts_the_block_before(
    state: DecryptorView,
    before: Seq<u8>,
    read: Seq<u8>,
)
    requires
        state.prev == Some(before),
        read.len() == BLOCK || read.len() == 0,
    ensures
        ({
            let (after, step) = copied(state, read);
            let plain = cbc_decrypted(state.key, state.chain, before);
            &&& after.key == state.key
            &&& after.chain == before
            &&& read.len() == BLOCK ==> after.prev == Some(read) && step == Ok::<_, CopyError>(
                CopyStep::More(Some(plain)),
            )
            &&& read.len() == 0 ==> after.prev is None && match unpadded(plain) {
                Some(bytes) => step == Ok::<_, CopyError>(CopyStep::Done(Some(bytes))),
                None => step == Err::<CopyStep<Seq<u8>>, _>(CopyError::Padding),
            }
        }),
{
}

/// The first block that is read is only kept. Where nothing was read there is nothing to
/// write.
pub proof fn law_first_block_is_kept(state: DecryptorView, read: Seq<u8>)
    requires
        state.prev is None,
    ensures
        read.len() == BLOCK ==> copied(state, read) == (
            DecryptorView { key: state.key, chain: state.chain, prev: Some(read) },
            Ok::<_, CopyError>(CopyStep::<Seq<u8>>::More(None)),
        ),
        read.len() == 0 ==> copied(state, read) == (
            state,
            Ok::<_, CopyError>(CopyStep::<Seq<u8>>::Done(None)),
        ),
{
}

/// Padding that comes off is well formed: from one byte to a whole block, all of them their
/// number. A block that does not end so has no padding.
pub proof fn law_only_padding_comes_off(block: Seq<u8>, n: u8)
    requires
        block.len() == BLOCK,
    ensures
        unpadded(block) matches Some(plain) ==> {
            let count = BLOCK - plain.len();
            &&& 1 <= count <= BLOCK
            &&& block == plain + Seq::new(count as nat, |i: int| count as u8)
        },
        1 <= n <= BLOCK && (forall|i: int|
            BLOCK - n <= i < BLOCK ==> #[trigger] block[i] == n) ==> unpadded(block) == Some(
            block.take(BLOCK - n),
        ),
{
    if let Some(plain) = unpadded(block) {
        let count = BLOCK - plain.len();
        assert(block =~= plain + Seq::new(count as nat, |i: int| count as u8));
    }
    if 1 <= n <= BLOCK && (forall|i: int| BLOCK - n <= i < BLOCK ==> #[trigger] block[i] == n) {
        assert(block[BLOCK - 1] == n);
    }
}

/// In specifications steps and outcomes are what they are.
pub proof fn law_copies_are_seen_whole(
    held: Result<Held<Vec<u8>>, CopyError>,
    step: Result<CopyStep<Vec<u8>>, CopyError>,
    bytes: Option<Vec<u8>>,
)
    ensures
        bytes is Some <==> opt_bytes(bytes) is Some,
        bytes is Some ==> opt_bytes(bytes)->0 == bytes->0@,
        held matches Ok(Held::Block(block)) ==> held_view(held) == Ok::<_, CopyError>(
            Held::Block(block@),
        ),
        held matches Ok(Held::Last(block)) ==> held_view(held) == Ok::<_, CopyError>(
            Held::Last(block@),
        ),
        held matches Ok(Held::First) ==> held_view(held) == Ok::<Held<Seq<u8>>, CopyError>(
            Held::First,
        ),
        held matches Ok(Held::Empty) ==> held_view(held) == Ok::<Held<Seq<u8>>, CopyError>(
            Held::Empty,
        ),
        held matches Err(e) ==> held_view(held) == Err::<Held<Seq<u8>>, _>(e),
        step matches Ok(CopyStep::More(out)) ==> step_view(step) == Ok::<_, CopyError>(
            CopyStep::More(opt_bytes(out)),
        ),
        step matches Ok(CopyStep::Done(out)) ==> step_view(step) == Ok::<_, CopyError>(
            CopyStep::Done(opt_bytes(out)),
        ),
        step matches Err(e) ==> step_view(step) == Err::<CopyStep<Seq<u8>>, _>(e),
{
}

} // verus!
