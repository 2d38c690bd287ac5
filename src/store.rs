use vstd::prelude::*;
use vstd::utf8::{
    decode_utf8, encode_scalar, encode_utf8, encode_utf8_decode_utf8, encode_utf8_valid_utf8,
    valid_utf8,
};

use crate::cipher::{
    aes128_decrypt, aes128_encrypt, decrypt_block, encrypt_block, pbkdf2_key, pbkdf2_sha256_16,
    BLOCK_LEN,
};
use crate::codec::{
    calm_chars, encode_records, is_ctrl, lemma_codec_round_trip, lemma_records_text_calm,
    parse_records, parse_text, plain_record, quiet_record, records_text, records_view, Record,
    RecordView,
};
use crate::error::StoreError;
use crate::padding::{looks_padded, pad_spec, unpad_spec, Pkcs7};

verus! {

/// The fixed salt of key derivation.
pub const SALT: &'static str = "salt";

/// The number of PBKDF2 rounds of key derivation.
pub const ROUNDS: u32 = 100000;

/// The store file's default name.
pub const FILE_NAME: &'static str = "store.aes";

/// The store file's default directory.
pub const DIRECTORY: &'static str = ".store";

/// The key that a passphrase derives: PBKDF2-HMAC-SHA-256 over its UTF-8
/// bytes, with the fixed salt and rounds.
pub open spec fn derived_key(passphrase: Seq<char>) -> Seq<u8> {
    pbkdf2_sha256_16(encode_utf8(passphrase), encode_utf8(SALT@), ROUNDS)
}

/// The length of the chunk that starts a plaintext: a block, or all of a
/// shorter rest.
pub open spec fn head_len(p: Seq<u8>) -> int {
    if p.len() < BLOCK_LEN {
        p.len() as int
    } else {
        BLOCK_LEN as int
    }
}

/// The ciphertext of a plaintext: each chunk of at most 16 bytes padded to a
/// block and encrypted on its own, the blocks concatenated.
pub open spec fn seal(key: Seq<u8>, p: Seq<u8>) -> Seq<u8>
    decreases p.len(),
{
    if p.len() == 0 {
        Seq::empty()
    } else {
        aes128_encrypt(key, pad_spec(p.subrange(0, head_len(p)), BLOCK_LEN as nat)) + seal(
            key,
            p.subrange(head_len(p), p.len() as int),
        )
    }
}

/// The plaintext of a ciphertext: each block decrypted and unpadded, the
/// results concatenated; `None` where the length is not a multiple of 16.
pub open spec fn open(key: Seq<u8>, c: Seq<u8>) -> Option<Seq<u8>>
    decreases c.len(),
{
    if c.len() == 0 {
        Some(Seq::empty())
    } else if c.len() < BLOCK_LEN {
        None
    } else {
        match open(key, c.subrange(BLOCK_LEN as int, c.len() as int)) {
            None => None,
            Some(t) => Some(
                unpad_spec(aes128_decrypt(key, c.subrange(0, BLOCK_LEN as int))) + t,
            ),
        }
    }
}

/// The number of chunks of at most 16 bytes that `n` bytes make.
pub open spec fn chunk_count(n: nat) -> nat {
    (n + 15) / 16
}

/// Chunk `i` of `p`: its bytes from `16 * i`, sixteen of them or all that are
/// left.
pub open spec fn chunk(p: Seq<u8>, i: int) -> Seq<u8> {
    p.subrange(
        16 * i,
        if 16 * i + 16 <= p.len() {
            16 * i + 16
        } else {
            p.len() as int
        },
    )
}

/// Block `i` of a ciphertext: its bytes from `16 * i` to `16 * i + 16`.
pub open spec fn block(c: Seq<u8>, i: int) -> Seq<u8> {
    c.subrange(16 * i, 16 * i + 16)
}

proof fn lemma_chunk_count(n: nat, k: nat)
    requires
        16 * k < n + 16,
        n <= 16 * k,
    ensures
        chunk_count(n) == k,
{
    assert((n + 15) / 16 == k) by (nonlinear_arith)
        requires
            16 * k < n + 16,
            n <= 16 * k,
    ;
}

/// Whether no full 16-byte chunk of `p` ends in what reads as padding, so that
/// stripping padding after decryption gives every chunk back.
pub open spec fn no_pad_collision(p: Seq<u8>) -> bool
    decreases p.len(),
{
    if p.len() < BLOCK_LEN {
        true
    } else {
        !looks_padded(p.subrange(0, BLOCK_LEN as int)) && no_pad_collision(
            p.subrange(BLOCK_LEN as int, p.len() as int),
        )
    }
}

/// The result of reading credentials from a decrypted text `t`.
pub open spec fn records_match(t: Seq<char>, r: Result<Vec<Record>, StoreError>) -> bool {
    match r {
        Ok(v) => parse_text(t) == Some(records_view(v@)),
        Err(e) => parse_text(t) is None && e is DecodeError,
    }
}

/// A name for the text that lossy UTF-8 decoding gives for some bytes.
pub uninterp spec fn utf8_lossy(b: Seq<u8>) -> Seq<char>;

/// Relies on `String::from_utf8_lossy`: a function of the bytes alone, which
/// on valid UTF-8 is the text those bytes encode.
#[verifier::external_body]
fn decode_lossy(b: &[u8]) -> (r: String)
    ensures
        r@ == utf8_lossy(b@),
        valid_utf8(b@) ==> r@ == decode_utf8(b@),
{
    String::from_utf8_lossy(b).into_owned()
}

proof fn lemma_open_append(key: Seq<u8>, a: Seq<u8>, blk: Seq<u8>)
    requires
        a.len() % 16 == 0,
        blk.len() == BLOCK_LEN,
        open(key, a) is Some,
    ensures
        open(key, a + blk) == Some(
            open(key, a)->Some_0 + unpad_spec(aes128_decrypt(key, blk)),
        ),
    decreases a.len(),
{
    let ab = a + blk;
    if a.len() == 0 {
        assert(ab =~= blk);
        assert(blk.subrange(16, 16) =~= Seq::<u8>::empty());
        assert(blk.subrange(0, 16) =~= blk);
        assert(open(key, Seq::<u8>::empty()) == Some(Seq::<u8>::empty()));
        assert(open(key, a) == Some(Seq::<u8>::empty()));
        assert(unpad_spec(aes128_decrypt(key, blk)) + Seq::<u8>::empty() =~= unpad_spec(
            aes128_decrypt(key, blk),
        ));
    } else {
        assert(a.len() >= 16);
        let rest = a.subrange(16, a.len() as int);
        assert(ab.subrange(0, 16) =~= a.subrange(0, 16));
        assert(ab.subrange(16, ab.len() as int) =~= rest + blk);
        assert(open(key, rest) is Some);
        lemma_open_append(key, rest, blk);
        let h = unpad_spec(aes128_decrypt(key, a.subrange(0, 16)));
        let t = open(key, rest)->Some_0;
        let u = unpad_spec(aes128_decrypt(key, blk));
        assert(h + (t + u) =~= (h + t) + u);
        assert(open(key, a) == Some(h + t));
        assert(open(key, rest + blk) == Some(t + u));
        assert(open(key, ab) == Some(h + (t + u)));
    }
}

/// Whether the only bytes of `p` from 1 to 15 are newlines, none of them next
/// to another.
pub open spec fn calm_bytes(p: Seq<u8>) -> bool {
    &&& forall|i: int| 0 <= i < p.len() && 1 <= #[trigger] p[i] <= 15 ==> p[i] == 10
    &&& forall|i: int| 0 <= i < p.len() - 1 && #[trigger] p[i] == 10 ==> p[i + 1] != 10
}

/// A full chunk of calm bytes never ends in what reads as padding: its last
/// byte would have to be a newline, and so would the byte before it.
pub proof fn lemma_calm_no_collision(p: Seq<u8>)
    requires
        calm_bytes(p),
    ensures
        no_pad_collision(p),
    decreases p.len(),
{
    if p.len() >= BLOCK_LEN {
        let c = p.subrange(0, 16);
        if looks_padded(c) {
            assert(c[15] == p[15]);
            assert(p[15] == 10);
            assert(c[14] == 10);
            assert(p[14] == 10);
        }
        let rest = p.subrange(16, p.len() as int);
        assert forall|i: int| 0 <= i < rest.len() && 1 <= #[trigger] rest[i] <= 15 implies rest[i]
            == 10 by {
            assert(rest[i] == p[i + 16]);
        }
        assert forall|i: int| 0 <= i < rest.len() - 1 && #[trigger] rest[i] == 10 implies rest[i
            + 1] != 10 by {
            assert(rest[i] == p[i + 16]);
            assert(rest[i + 1] == p[i + 17]);
        }
        lemma_calm_no_collision(rest);
    }
}

proof fn lemma_scalar_bytes(v: u32)
    ensures
        v <= 0x7F ==> encode_scalar(v).len() == 1 && encode_scalar(v)[0] as u32 == v,
        v > 0x7F ==> forall|j: int|
            0 <= j < encode_scalar(v).len() ==> #[trigger] encode_scalar(v)[j] >= 0x80,
{
    assert(v <= 0x7F ==> ((v & 0x7F) as u8) as u32 == v) by (bit_vector);
    assert((0xC0u8 | ((v >> 6) & 0x1F) as u8) >= 0x80u8) by (bit_vector);
    assert((0xE0u8 | ((v >> 12) & 0x0F) as u8) >= 0x80u8) by (bit_vector);
    assert((0xF0u8 | ((v >> 18) & 0x7) as u8) >= 0x80u8) by (bit_vector);
    assert((0x80u8 | (v & 0x3F) as u8) >= 0x80u8) by (bit_vector);
    assert((0x80u8 | ((v >> 6) & 0x3F) as u8) >= 0x80u8) by (bit_vector);
    assert((0x80u8 | ((v >> 12) & 0x3F) as u8) >= 0x80u8) by (bit_vector);
}

/// Calm text encodes to calm bytes: a byte from 1 to 15 comes only from the
/// ASCII character of that code.
pub proof fn lemma_encode_calm(s: Seq<char>)
    requires
        calm_chars(s),
    ensures
        calm_bytes(encode_utf8(s)),
        s.len() > 0 ==> encode_utf8(s).len() > 0 && (encode_utf8(s)[0] == 10 ==> s[0] == '\n'),
        s.len() == 0 ==> encode_utf8(s).len() == 0,
    decreases s.len(),
{
    if s.len() > 0 {
        let rest = s.drop_first();
        assert forall|i: int| 0 <= i < rest.len() && is_ctrl(#[trigger] rest[i]) implies rest[i]
            == '\n' by {
            assert(rest[i] == s[i + 1]);
        }
        assert forall|i: int| 0 <= i < rest.len() - 1 && #[trigger] rest[i] == '\n' implies rest[i
            + 1] != '\n' by {
            assert(rest[i] == s[i + 1]);
            assert(rest[i + 1] == s[i + 2]);
        }
        lemma_encode_calm(rest);
        let v = s[0] as u32;
        let e = encode_scalar(v);
        let t = encode_utf8(rest);
        let p = encode_utf8(s);
        assert(p == e + t);
        lemma_scalar_bytes(v);
        assert forall|i: int| 0 <= i < p.len() && 1 <= #[trigger] p[i] <= 15 implies p[i] == 10 by {
            if i < e.len() {
                assert(p[i] == e[i]);
                if v <= 0x7F {
                    assert(is_ctrl(s[0]));
                }
            } else {
                assert(p[i] == t[i - e.len()]);
            }
        }
        assert forall|i: int| 0 <= i < p.len() - 1 && #[trigger] p[i] == 10 implies p[i + 1] != 10 by {
            if i < e.len() - 1 {
                assert(p[i] == e[i]);
            } else if i == e.len() - 1 {
                assert(p[i] == e[i]);
                if v <= 0x7F {
                    assert(s[0] == '\n');
                    if p[i + 1] == 10 {
                        assert(p[i + 1] == t[0]);
                        assert(rest[0] == s[1]);
                    }
                }
            } else {
                assert(p[i] == t[i - e.len()]);
                assert(p[i + 1] == t[i + 1 - e.len()]);
            }
        }
        if p[0] == 10 {
            assert(p[0] == e[0]);
        }
    }
}

/// The UTF-8 text of credentials whose fields hold no control character
/// from U+0001 to U+000F has no full chunk that reads as padding.
pub proof fn lemma_quiet_records_no_collision(rs: Seq<RecordView>)
    requires
        forall|i: int| 0 <= i < rs.len() ==> quiet_record(#[trigger] rs[i]),
    ensures
        no_pad_collision(encode_utf8(records_text(rs))),
{
    lemma_records_text_calm(rs);
    lemma_encode_calm(records_text(rs));
    lemma_calm_no_collision(encode_utf8(records_text(rs)));
}

/// Equal passphrases derive equal keys.
pub proof fn lemma_key_deterministic(a: Seq<char>, b: Seq<char>)
    requires
        a == b,
    ensures
        derived_key(a) == derived_key(b),
{
}

/// Reading back what was stored gives the stored credentials, in order, when
/// no field holds a delimiter: where a ciphertext opens to the UTF-8 form of
/// their text, as `encrypt_records` promises when no chunk collides with
/// padding (which holds when no field has a control character from U+0001 to
/// U+000F, see `lemma_quiet_records_no_collision`), that plaintext is valid UTF-8 and its text parses to them, which
/// is what `decrypt_records` then returns.
pub proof fn lemma_store_round_trip(key: Seq<u8>, rs: Seq<RecordView>, c: Seq<u8>)
    requires
        forall|i: int| 0 <= i < rs.len() ==> plain_record(#[trigger] rs[i]),
        open(key, c) == Some(encode_utf8(records_text(rs))),
    ensures
        open(key, c) matches Some(p) && valid_utf8(p) && parse_text(decode_utf8(p)) == Some(rs),
{
    encode_utf8_valid_utf8(records_text(rs));
    encode_utf8_decode_utf8(records_text(rs));
    lemma_codec_round_trip(rs);
}

/// Appends `b` to `buf`.
fn push_all(buf: &mut Vec<u8>, b: &[u8])
    ensures
        final(buf)@ == old(buf)@ + b@,
{
    let mut i: usize = 0;
    while i < b.len()
        invariant
            i <= b@.len(),
            buf@ == old(buf)@ + b@.subrange(0, i as int),
        decreases b@.len() - i,
    {
        buf.push(b[i]);
        i = i + 1;
        assert(buf@ =~= old(buf)@ + b@.subrange(0, i as int));
    }
    assert(b@.subrange(0, b@.len() as int) =~= b@);
}

/// The store: the key derived from the passphrase, and where the ciphertext
/// lives. Nothing in it changes after it is made.
pub struct Storage {
    pub key: [u8; 16],
    pub file_name: String,
    pub directory: String,
}

impl Storage {
    /// Derives the key from `secret` and points at the default file.
    pub fn new_from_secret(secret: &str) -> (r: Storage)
        ensures
            r.key@ == derived_key(secret@),
            r.file_name@ == FILE_NAME@,
            r.directory@ == DIRECTORY@,
    {
        let key = pbkdf2_key(secret.as_bytes(), SALT.as_bytes(), ROUNDS);
        Storage { key, file_name: FILE_NAME.to_owned(), directory: DIRECTORY.to_owned() }
    }

    /// The path of the store file: directory, `/`, file name.
    pub fn file_path(&self) -> (r: String)
        ensures
            r@ == self.directory@ + seq!['/'] + self.file_name@,
    {
        let mut path = self.directory.clone();
        path.append("/");
        path.append(self.file_name.as_str());
        proof {
            reveal_strlit("/");
        }
        path
    }

    /// Pads and encrypts `plain` block by block.
    pub fn seal_bytes(&self, plain: &[u8]) -> (r: Vec<u8>)
        ensures
            r@ == seal(self.key@, plain@),
            r@.len() == 16 * chunk_count(plain@.len()),
            forall|i: int|
                0 <= i < chunk_count(plain@.len()) ==> #[trigger] block(r@, i) == aes128_encrypt(
                    self.key@,
                    pad_spec(chunk(plain@, i), BLOCK_LEN as nat),
                ),
            no_pad_collision(plain@) ==> open(self.key@, r@) == Some(plain@),
    {
        let n = plain.len();
        let mut buffer: Vec<u8> = Vec::new();
        let mut start: usize = 0;
        let ghost mut k: nat = 0;
        assert(plain@.subrange(0, 0) =~= Seq::<u8>::empty());
        assert(plain@.subrange(0, n as int) =~= plain@);
        while start < n
            invariant
                n == plain@.len(),
                start <= n,
                buffer@ + seal(self.key@, plain@.subrange(start as int, n as int)) == seal(
                    self.key@,
                    plain@,
                ),
                buffer@.len() == 16 * k,
                16 * k < start + 16,
                start <= 16 * k,
                start < 16 * k ==> start == n,
                forall|i: int|
                    0 <= i < k ==> #[trigger] block(buffer@, i) == aes128_encrypt(
                        self.key@,
                        pad_spec(chunk(plain@, i), BLOCK_LEN as nat),
                    ),
                no_pad_collision(plain@) ==> no_pad_collision(
                    plain@.subrange(start as int, n as int),
                ) && open(self.key@, buffer@) == Some(plain@.subrange(0, start as int)),
            decreases n - start,
        {
            let ghost rest = plain@.subrange(start as int, n as int);
            let end: usize = if n - start < BLOCK_LEN {
                n
            } else {
                start + BLOCK_LEN
            };
            let piece = &plain[start..end];
            assert(piece@ =~= rest.subrange(0, head_len(rest)));
            assert(plain@.subrange(end as int, n as int) =~= rest.subrange(
                head_len(rest),
                rest.len() as int,
            ));
            let padded = match Pkcs7::pad(piece, BLOCK_LEN) {
                Ok(v) => v,
                Err(_) => {
                    assert(false);
                    Vec::new()
                },
            };
            let blk = encrypt_block(&self.key, padded.as_slice());
            let ghost before = buffer@;
            push_all(&mut buffer, blk.as_slice());
            assert(chunk(plain@, k as int) =~= piece@);
            assert(block(buffer@, k as int) =~= blk@);
            assert forall|i: int| 0 <= i < k implies #[trigger] block(buffer@, i) == block(
                before,
                i,
            ) by {
                assert(block(buffer@, i) =~= block(before, i));
            }
            assert(before + blk@ + seal(self.key@, plain@.subrange(end as int, n as int))
                =~= before + seal(self.key@, rest));
            proof {
                if no_pad_collision(plain@) {
                    crate::padding::lemma_pad_unpad(piece@, BLOCK_LEN as nat);
                    lemma_open_append(self.key@, before, blk@);
                    assert(plain@.subrange(0, start as int) + piece@ =~= plain@.subrange(
                        0,
                        end as int,
                    ));
                }
            }
            start = end;
            proof {
                k = k + 1;
            }
        }
        proof {
            lemma_chunk_count(n as nat, k);
        }
        assert(plain@.subrange(n as int, n as int) =~= Seq::<u8>::empty());
        assert(buffer@ + Seq::<u8>::empty() =~= buffer@);
        buffer
    }

    /// Decrypts and unpads `cipher` block by block; `PadError` where its
    /// length is not a multiple of 16.
    pub fn open_bytes(&self, cipher: &[u8]) -> (r: Result<Vec<u8>, StoreError>)
        ensures
            match r {
                Ok(p) => open(self.key@, cipher@) == Some(p@),
                Err(e) => open(self.key@, cipher@) is None && e is PadError,
            },
    {
        let n = cipher.len();
        let mut buffer: Vec<u8> = Vec::new();
        let mut pos: usize = 0;
        assert(cipher@.subrange(0, n as int) =~= cipher@);
        while pos < n
            invariant
                n == cipher@.len(),
                pos <= n,
                open(self.key@, cipher@) == match open(
                    self.key@,
                    cipher@.subrange(pos as int, n as int),
                ) {
                    None => None,
                    Some(t) => Some(buffer@ + t),
                },
            decreases n - pos,
        {
            let ghost rest = cipher@.subrange(pos as int, n as int);
            if n - pos < BLOCK_LEN {
                return Err(StoreError::PadError);
            }
            let blk = &cipher[pos..pos + BLOCK_LEN];
            assert(blk@ =~= rest.subrange(0, 16));
            assert(cipher@.subrange(pos + 16, n as int) =~= rest.subrange(16, rest.len() as int));
            let plain = decrypt_block(&self.key, blk);
            let content = match Pkcs7::unpad(plain.as_slice()) {
                Ok(c) => c,
                Err(e) => return Err(e),
            };
            let ghost before = buffer@;
            push_all(&mut buffer, content);
            proof {
                match open(self.key@, cipher@.subrange(pos + 16, n as int)) {
                    None => {},
                    Some(t) => {
                        assert(before + (content@ + t) =~= buffer@ + t);
                    },
                }
            }
            pos = pos + BLOCK_LEN;
        }
        assert(cipher@.subrange(n as int, n as int) =~= Seq::<u8>::empty());
        assert(buffer@ + Seq::<u8>::empty() =~= buffer@);
        Ok(buffer)
    }

    /// The ciphertext that stores `records`.
    pub fn encrypt_records(&self, records: &Vec<Record>) -> (r: Vec<u8>)
        ensures
            r@ == seal(self.key@, encode_utf8(records_text(records_view(records@)))),
            r@.len() == 16 * chunk_count(encode_utf8(records_text(records_view(records@))).len()),
            forall|i: int|
                0 <= i < chunk_count(encode_utf8(records_text(records_view(records@))).len())
                    ==> #[trigger] block(r@, i) == aes128_encrypt(
                    self.key@,
                    pad_spec(
                        chunk(encode_utf8(records_text(records_view(records@))), i),
                        BLOCK_LEN as nat,
                    ),
                ),
            no_pad_collision(encode_utf8(records_text(records_view(records@)))) ==> open(
                self.key@,
                r@,
            ) == Some(encode_utf8(records_text(records_view(records@)))),
            (forall|i: int|
                0 <= i < records@.len() ==> plain_record(#[trigger] records_view(records@)[i])
                    && quiet_record(records_view(records@)[i])) ==> (open(self.key@, r@) matches Some(
                p,
            ) && valid_utf8(p) && parse_text(decode_utf8(p)) == Some(records_view(records@))),
    {
        let text = encode_records(records);
        let r = self.seal_bytes(text.as_str().as_bytes());
        proof {
            let rs = records_view(records@);
            if forall|i: int| 0 <= i < records@.len() ==> plain_record(#[trigger] rs[i])
                && quiet_record(rs[i]) {
                assert forall|i: int| 0 <= i < rs.len() implies quiet_record(#[trigger] rs[i]) by {
                    assert(plain_record(rs[i]) && quiet_record(rs[i]));
                }
                lemma_quiet_records_no_collision(rs);
                lemma_store_round_trip(self.key@, rs, r@);
            }
        }
        r
    }

    /// The credentials that `cipher` stores. `PadError` where its length is
    /// not a multiple of 16; otherwise the decrypted bytes are decoded as
    /// UTF-8, invalid sequences replaced, and read line by line. An empty
    /// ciphertext holds no credentials: it reads as an empty list rather than
    /// an error, so that saving no credentials and reading them back agrees.
    pub fn decrypt_records(&self, cipher: &[u8]) -> (r: Result<Vec<Record>, StoreError>)
        ensures
            open(self.key@, cipher@) is None ==> r matches Err(StoreError::PadError),
            open(self.key@, cipher@) matches Some(p) ==> records_match(utf8_lossy(p), r),
            open(self.key@, cipher@) matches Some(p) ==> valid_utf8(p) ==> records_match(
                decode_utf8(p),
                r,
            ),
    {
        let plain = match self.open_bytes(cipher) {
            Ok(p) => p,
            Err(e) => return Err(e),
        };
        let text = decode_lossy(plain.as_slice());
        parse_records(text.as_str())
    }
}

} // verus!
