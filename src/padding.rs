use vstd::prelude::*;

use crate::error::StoreError;

verus! {

/// The largest block length that PKCS#7 padding can describe in one byte.
pub const MAX_PAD_LEN: usize = 255;

/// `b` followed by `len - |b|` bytes that each hold `len - |b|`.
pub open spec fn pad_spec(b: Seq<u8>, len: nat) -> Seq<u8>
    recommends
        b.len() <= len,
{
    let n = (len - b.len()) as nat;
    b + Seq::new(n, |_i: int| n as u8)
}

/// Whether `pad` may pad `b` up to `len` bytes.
pub open spec fn can_pad(b: Seq<u8>, len: nat) -> bool {
    b.len() <= MAX_PAD_LEN && b.len() <= len
}

/// The number of padding bytes that the last byte of `b` announces.
pub open spec fn pad_count(b: Seq<u8>) -> int {
    b[b.len() - 1] as int
}

/// Whether `b` ends in well-formed padding: a last byte `n` with `0 < n < |b|`,
/// and `n` trailing bytes that all hold `n`.
pub open spec fn looks_padded(b: Seq<u8>) -> bool {
    &&& 0 < b.len() <= MAX_PAD_LEN
    &&& 0 < pad_count(b) < b.len()
    &&& forall|i: int| b.len() - pad_count(b) <= i < b.len() ==> b[i] == pad_count(b)
}

/// `b` with its padding stripped, or `b` itself when no padding is recognised.
pub open spec fn unpad_spec(b: Seq<u8>) -> Seq<u8> {
    if looks_padded(b) {
        b.subrange(0, b.len() - pad_count(b))
    } else {
        b
    }
}

/// PKCS#7 padding that accepts any block it cannot strip.
pub struct Pkcs7;

impl Pkcs7 {
    /// Pads `block` up to `len` bytes.
    pub fn pad(block: &[u8], len: usize) -> (r: Result<Vec<u8>, StoreError>)
        ensures
            match r {
                Ok(v) => can_pad(block@, len as nat) && v@ == pad_spec(block@, len as nat),
                Err(e) => !can_pad(block@, len as nat) && e is PadError,
            },
    {
        if block.len() > MAX_PAD_LEN || len < block.len() {
            return Err(StoreError::PadError);
        }
        let n: usize = len - block.len();
        let mut padded: Vec<u8> = Vec::with_capacity(len);
        let mut i: usize = 0;
        while i < block.len()
            invariant
                i <= block@.len(),
                padded@ == block@.subrange(0, i as int),
            decreases block@.len() - i,
        {
            padded.push(block[i]);
            i = i + 1;
        }
        let mut j: usize = 0;
        while j < n
            invariant
                n == len - block@.len(),
                j <= n,
                padded@ == block@ + Seq::new(j as nat, |_i: int| n as u8),
            decreases n - j,
        {
            padded.push(n as u8);
            j = j + 1;
            assert(padded@ =~= block@ + Seq::new(j as nat, |_i: int| n as u8));
        }
        Ok(padded)
    }

    /// Strips the padding of a decrypted block. A block without recognisable
    /// padding comes back whole; only an empty block is an error.
    pub fn unpad(block: &[u8]) -> (r: Result<&[u8], StoreError>)
        ensures
            match r {
                Ok(v) => block@.len() > 0 && v@ == unpad_spec(block@),
                Err(e) => block@.len() == 0 && e is UnpadError,
            },
    {
        let n: u8 = match block.last() {
            Some(last) => *last,
            None => return Err(StoreError::UnpadError),
        };
        if block.len() > MAX_PAD_LEN || n == 0 || n as usize >= block.len() {
            return Ok(block);
        }
        let s: usize = block.len() - n as usize;
        let mut i: usize = s;
        while i < block.len()
            invariant
                s <= i <= block@.len(),
                s == block@.len() - n,
                n == pad_count(block@),
                forall|k: int| s <= k < i ==> block@[k] == n,
            decreases block@.len() - i,
        {
            if block[i] != n {
                return Ok(block);
            }
            i = i + 1;
        }
        Ok(&block[0..s])
    }
}

/// Padding a non-empty block of at most `len` bytes and stripping it again
/// gives the block back, unless the block already fills `len` bytes and itself
/// ends in what reads as padding.
pub proof fn lemma_pad_unpad(b: Seq<u8>, len: nat)
    requires
        0 < b.len() <= len <= MAX_PAD_LEN,
        !(b.len() == len && looks_padded(b)),
    ensures
        unpad_spec(pad_spec(b, len)) == b,
{
    let p = pad_spec(b, len);
    if b.len() == len {
        assert(p =~= b);
    } else {
        let n = (len - b.len()) as nat;
        assert(p.len() == len);
        assert(p[p.len() - 1] == n as u8);
        assert(pad_count(p) == n);
        assert forall|i: int| p.len() - pad_count(p) <= i < p.len() implies p[i] == pad_count(p) by {
            assert(p[i] == Seq::new(n, |_i: int| n as u8)[i - b.len()]);
        }
        assert(looks_padded(p));
        assert(p.subrange(0, p.len() - pad_count(p)) =~= b);
    }
}

/// A 16-byte block whose last byte is zero carries no padding and stays whole.
pub proof fn lemma_unpad_zero_last(b: Seq<u8>)
    requires
        b.len() == 16,
        b[15] == 0,
    ensures
        unpad_spec(b) == b,
{
}

/// A 16-byte block that ends in `5` but whose four bytes before it are not
/// all `5` stays whole.
pub proof fn lemma_unpad_mismatch(b: Seq<u8>)
    requires
        b.len() == 16,
        b[15] == 5,
        exists|i: int| 11 <= i < 15 && b[i] != 5,
    ensures
        unpad_spec(b) == b,
{
}

} // verus!
