//! The content stream: file bytes are encrypted and decrypted chunk by
//! chunk, each chunk under a nonce of its own and with a tag of its own.

use vstd::prelude::*;
use crate::crypto::aead;
use crate::crypto::aead::KEY_LEN;
use crate::crypto::aead::NONCE_LEN;
use crate::crypto::aead::TAG_LEN;
use crate::progress::Progress;
use crate::transfer::encrypt_observed;
use crate::transfer::TransferError;

verus! {

/// The chunk length that transfers use unless told otherwise.
pub const DEFAULT_CHUNK_LEN: usize = 65536;

/// The longest chunk that a stream accepts.
pub const MAX_CHUNK_LEN: usize = 0x3fff_fff0;

/// The highest chunk counter that has a nonce.
pub const MAX_COUNTER: u64 = 0xffff_ffff;

/// The way a stream transforms its input.
#[derive(Clone, Copy, Debug, PartialEq, Eq, Structural)]
pub enum Direction {
    /// Plaintext in, ciphertext with tags out.
    Encrypt,
    /// Ciphertext with tags in, plaintext out.
    Decrypt,
}

/// Why a stream could not be made or could not go on.
#[derive(Clone, Copy, Debug, PartialEq, Eq, Structural)]
pub enum StreamError {
    /// The key or the chunk length is not one that the cipher works with.
    Setup,
    /// More input was handed over than one chunk holds.
    Oversized,
    /// Every chunk counter has been used.
    Exhausted,
    /// The cipher failed to encrypt a chunk.
    Cipher,
    /// A chunk is cut short or its tag does not verify.
    Integrity,
    /// The stream has failed before and gives nothing more.
    Aborted,
}

/// The nonce of the chunk with the given counter: the base nonce with the
/// counter, most significant byte first, combined into its last four bytes
/// by exclusive or.
pub open spec fn chunk_nonce(iv: Seq<u8>, counter: u32) -> Seq<u8> {
    seq![
        iv[0],
        iv[1],
        iv[2],
        iv[3],
        iv[4],
        iv[5],
        iv[6],
        iv[7],
        iv[8] ^ ((counter >> 24) & 0xff) as u8,
        iv[9] ^ ((counter >> 16) & 0xff) as u8,
        iv[10] ^ ((counter >> 8) & 0xff) as u8,
        iv[11] ^ (counter & 0xff) as u8,
    ]
}

/// Computes the nonce of a chunk.
pub fn nonce_for(iv: &[u8; 12], counter: u32) -> (nonce: [u8; 12])
    ensures
        nonce@ == chunk_nonce(iv@, counter),
{
    let nonce = [
        iv[0],
        iv[1],
        iv[2],
        iv[3],
        iv[4],
        iv[5],
        iv[6],
        iv[7],
        iv[8] ^ ((counter >> 24) & 0xff) as u8,
        iv[9] ^ ((counter >> 16) & 0xff) as u8,
        iv[10] ^ ((counter >> 8) & 0xff) as u8,
        iv[11] ^ (counter & 0xff) as u8,
    ];
    assert(nonce@ =~= chunk_nonce(iv@, counter));
    nonce
}

/// Two chunks of one stream never share a nonce: the nonce determines the
/// counter.
pub proof fn lemma_chunk_nonce_is_injective(iv: Seq<u8>, a: u32, b: u32)
    requires
        iv.len() == NONCE_LEN,
        chunk_nonce(iv, a) == chunk_nonce(iv, b),
    ensures
        a == b,
{
    let na = chunk_nonce(iv, a);
    let nb = chunk_nonce(iv, b);
    let (w, x, y, z) = (iv[8], iv[9], iv[10], iv[11]);
    assert(na[8] == nb[8] && na[9] == nb[9] && na[10] == nb[10] && na[11] == nb[11]);
    assert(a == b) by (bit_vector)
        requires
            w ^ ((a >> 24) & 0xff) as u8 == w ^ ((b >> 24) & 0xff) as u8,
            x ^ ((a >> 16) & 0xff) as u8 == x ^ ((b >> 16) & 0xff) as u8,
            y ^ ((a >> 8) & 0xff) as u8 == y ^ ((b >> 8) & 0xff) as u8,
            z ^ (a & 0xff) as u8 == z ^ (b & 0xff) as u8,
    ;
}

/// What a stream holds, as plain values.
pub struct StreamView {
    pub key: Seq<u8>,
    pub iv: Seq<u8>,
    pub chunk_len: nat,
    pub counter: nat,
    pub direction: Direction,
    pub aborted: bool,
}

impl StreamView {
    /// The most input that one pull takes: a chunk of plaintext, or a chunk
    /// of ciphertext with its tag.
    pub open spec fn input_len(self) -> nat {
        match self.direction {
            Direction::Encrypt => self.chunk_len,
            Direction::Decrypt => self.chunk_len + TAG_LEN as nat,
        }
    }

    /// The nonce of the chunk that comes next.
    pub open spec fn nonce(self) -> Seq<u8> {
        chunk_nonce(self.iv, self.counter as u32)
    }

    /// The stream after one more chunk.
    pub open spec fn advanced(self) -> StreamView {
        StreamView { counter: self.counter + 1, ..self }
    }

    /// The stream after a failure.
    pub open spec fn failed(self) -> StreamView {
        StreamView { aborted: true, ..self }
    }

    /// The error with which a pull is refused before the cipher is asked,
    /// if it is.
    pub open spec fn refusal(self, input: Seq<u8>) -> Option<StreamError> {
        if self.aborted {
            Some(StreamError::Aborted)
        } else if input.len() == 0 {
            None
        } else if input.len() > self.input_len() {
            Some(StreamError::Oversized)
        } else if self.counter > MAX_COUNTER {
            Some(StreamError::Exhausted)
        } else if self.direction == Direction::Decrypt && input.len() < TAG_LEN {
            Some(StreamError::Integrity)
        } else {
            None
        }
    }

    /// The stream after a refused pull: a chunk that is cut short aborts
    /// it, the other refusals leave it as it was.
    pub open spec fn refused(self, error: StreamError) -> StreamView {
        if error == StreamError::Integrity {
            self.failed()
        } else {
            self
        }
    }
}

/// Whether a key and a chunk length are ones that a stream can be made of.
pub open spec fn valid_setup(key: Seq<u8>, chunk_len: nat) -> bool {
    key.len() == KEY_LEN && 0 < chunk_len <= MAX_CHUNK_LEN
}

/// What a result holds, as plain values.
pub open spec fn result_view(res: Result<Vec<u8>, StreamError>) -> Result<Seq<u8>, StreamError> {
    match res {
        Ok(bytes) => Ok(bytes@),
        Err(error) => Err(error),
    }
}

/// A chunked transform over file content, advanced one chunk at a time.
pub struct ContentStream {
    key: Vec<u8>,
    iv: [u8; 12],
    chunk_len: usize,
    counter: u64,
    direction: Direction,
    aborted: bool,
}

impl View for ContentStream {
    type V = StreamView;

    closed spec fn view(&self) -> StreamView {
        StreamView {
            key: self.key@,
            iv: self.iv@,
            chunk_len: self.chunk_len as nat,
            counter: self.counter as nat,
            direction: self.direction,
            aborted: self.aborted,
        }
    }
}

impl ContentStream {
    #[verifier::type_invariant]
    closed spec fn wf(&self) -> bool {
        &&& valid_setup(self.key@, self.chunk_len as nat)
        &&& self.counter <= MAX_COUNTER + 1
    }

    /// Makes a stream that starts at the first chunk. A key that is not of
    /// the cipher's length, or a chunk length that is zero or above
    /// `MAX_CHUNK_LEN`, is refused with `Setup`.
    pub fn new(key: &[u8], iv: &[u8; 12], chunk_len: usize, direction: Direction) -> (res: Result<
        ContentStream,
        StreamError,
    >)
        ensures
            match res {
                Ok(stream) => valid_setup(key@, chunk_len as nat) && stream@ == (StreamView {
                    key: key@,
                    iv: iv@,
                    chunk_len: chunk_len as nat,
                    counter: 0,
                    direction,
                    aborted: false,
                }),
                Err(error) => !valid_setup(key@, chunk_len as nat) && error == StreamError::Setup,
            },
    {
        if key.len() != KEY_LEN || chunk_len == 0 || chunk_len > MAX_CHUNK_LEN {
            return Err(StreamError::Setup);
        }
        Ok(
            ContentStream {
                key: vstd::slice::slice_to_vec(key),
                iv: *iv,
                chunk_len,
                counter: 0,
                direction,
                aborted: false,
            },
        )
    }

    /// The most input that one pull takes.
    pub fn input_len(&self) -> (len: usize)
        ensures
            len == self@.input_len(),
            valid_setup(self@.key, self@.chunk_len),
            self@.iv.len() == NONCE_LEN,
    {
        proof {
            use_type_invariant(self);
        }
        match self.direction {
            Direction::Encrypt => self.chunk_len,
            Direction::Decrypt => self.chunk_len + TAG_LEN,
        }
    }

    /// The number of chunks transformed so far.
    pub fn counter(&self) -> (counter: u64)
        ensures
            counter == self@.counter,
    {
        self.counter
    }

    /// Whether the stream has failed.
    pub fn is_aborted(&self) -> (aborted: bool)
        ensures
            aborted == self@.aborted,
    {
        self.aborted
    }

    /// Takes the cipher's answer for the plaintext chunk that was handed
    /// to it under the next nonce. A failure of the cipher aborts the
    /// stream with `Cipher`; else the ciphertext with its tag appended is
    /// handed out and the stream moves to the next chunk. A stream that has
    /// no counter left takes nothing.
    pub fn conclude_seal(&mut self, sealed: Option<(Vec<u8>, Vec<u8>)>) -> (res: Result<
        Vec<u8>,
        StreamError,
    >)
        ensures
            old(self)@.counter > MAX_COUNTER ==> res == Err::<Vec<u8>, StreamError>(
                StreamError::Exhausted,
            ) && final(self)@ == old(self)@,
            old(self)@.counter <= MAX_COUNTER ==> match sealed {
                Some(piece) => res matches Ok(out) && out@ == piece.0@ + piece.1@ && final(self)@
                    == old(self)@.advanced(),
                None => res == Err::<Vec<u8>, StreamError>(StreamError::Cipher) && final(self)@
                    == old(self)@.failed(),
            },
    {
        proof {
            use_type_invariant(&*self);
        }
        if self.counter > MAX_COUNTER {
            return Err(StreamError::Exhausted);
        }
        match sealed {
            Some((mut body, mut tag)) => {
                body.append(&mut tag);
                self.counter = self.counter + 1;
                Ok(body)
            },
            None => {
                self.aborted = true;
                Err(StreamError::Cipher)
            },
        }
    }

    /// Takes the cipher's answer for the ciphertext chunk that was handed
    /// to it under the next nonce. A tag that did not verify aborts the
    /// stream with `Integrity`; else the plaintext is handed out and the
    /// stream moves to the next chunk. A stream that has no counter left
    /// takes nothing.
    pub fn conclude_open(&mut self, opened: Option<Vec<u8>>) -> (res: Result<Vec<u8>, StreamError>)
        ensures
            old(self)@.counter > MAX_COUNTER ==> res == Err::<Vec<u8>, StreamError>(
                StreamError::Exhausted,
            ) && final(self)@ == old(self)@,
            old(self)@.counter <= MAX_COUNTER ==> match opened {
                Some(plaintext) => res matches Ok(out) && out@ == plaintext@ && final(self)@
                    == old(self)@.advanced(),
                None => res == Err::<Vec<u8>, StreamError>(StreamError::Integrity)
                    && final(self)@ == old(self)@.failed(),
            },
    {
        proof {
            use_type_invariant(&*self);
        }
        if self.counter > MAX_COUNTER {
            return Err(StreamError::Exhausted);
        }
        match opened {
            Some(plaintext) => {
                self.counter = self.counter + 1;
                Ok(plaintext)
            },
            None => {
                self.aborted = true;
                Err(StreamError::Integrity)
            },
        }
    }

    /// Transforms up to one chunk of input under the nonce of the next
    /// counter and advances the counter. No input gives no output and
    /// changes nothing. In the decrypt direction the last `TAG_LEN` bytes
    /// of the input are the tag, and nothing is handed out unless it
    /// verifies.
    pub fn pull(&mut self, input: &[u8]) -> (res: Result<Vec<u8>, StreamError>)
        ensures
            pull_ensures(old(self)@, input@, result_view(res), final(self)@),
            res matches Ok(out) ==> out@.len() == pulled_len(old(self)@.direction, input@.len()),
    {
        proof {
            use_type_invariant(&*self);
        }
        if self.aborted {
            return Err(StreamError::Aborted);
        }
        if input.len() == 0 {
            return Ok(Vec::new());
        }
        if input.len() > self.input_len() {
            return Err(StreamError::Oversized);
        }
        if self.counter > MAX_COUNTER {
            return Err(StreamError::Exhausted);
        }
        let nonce = nonce_for(&self.iv, self.counter as u32);
        match self.direction {
            Direction::Encrypt => {
                let sealed = aead::seal(self.key.as_slice(), nonce.as_slice(), input);
                let res = self.conclude_seal(sealed);
                proof {
                    if res is Ok {
                        let out = res->Ok_0@;
                        let piece = sealed->0;
                        assert(out.take(input@.len() as int) =~= piece.0@);
                        assert(out.skip(input@.len() as int) =~= piece.1@);
                    }
                }
                res
            },
            Direction::Decrypt => {
                if input.len() < TAG_LEN {
                    self.aborted = true;
                    return Err(StreamError::Integrity);
                }
                let split = input.len() - TAG_LEN;
                let opened = aead::open(
                    self.key.as_slice(),
                    nonce.as_slice(),
                    &input[0..split],
                    &input[split..input.len()],
                );
                assert(input@.subrange(0, split as int) == input@.take(split as int));
                assert(input@.subrange(split as int, input@.len() as int) == input@.skip(
                    split as int,
                ));
                self.conclude_open(opened)
            },
        }
    }
}

/// The number of bytes that a pull hands out for an input of `len` bytes:
/// a tag more than came in, or a tag less.
pub open spec fn pulled_len(direction: Direction, len: nat) -> int {
    if len == 0 {
        0
    } else {
        match direction {
            Direction::Encrypt => len + TAG_LEN,
            Direction::Decrypt => len - TAG_LEN,
        }
    }
}

/// What one pull does to a stream `before`, handing out `res` and leaving
/// the stream as `after`.
pub open spec fn pull_ensures(
    before: StreamView,
    input: Seq<u8>,
    res: Result<Seq<u8>, StreamError>,
    after: StreamView,
) -> bool {
    if let Some(error) = before.refusal(input) {
        res == Err::<Seq<u8>, StreamError>(error) && after == before.refused(error)
    } else if input.len() == 0 {
        res == Ok::<Seq<u8>, StreamError>(Seq::empty()) && after == before
    } else {
        match before.direction {
            Direction::Encrypt => match res {
                Ok(out) => {
                    &&& aead::is_sealed(
                        before.key,
                        before.nonce(),
                        input,
                        out.take(input.len() as int),
                        out.skip(input.len() as int),
                    )
                    &&& out.len() == input.len() + TAG_LEN
                    &&& after == before.advanced()
                },
                Err(error) => error == StreamError::Cipher && after == before.failed(),
            },
            Direction::Decrypt => {
                let split = input.len() - TAG_LEN;
                match aead::opened(before.key, before.nonce(), input.take(split), input.skip(split)) {
                    Some(plaintext) => res == Ok::<Seq<u8>, StreamError>(plaintext) && after
                        == before.advanced(),
                    None => res == Err::<Seq<u8>, StreamError>(StreamError::Integrity) && after
                        == before.failed(),
                }
            },
        }
    }
}

/// The smaller of a length and the length of one piece.
pub open spec fn first_len(len: nat, piece: nat) -> nat {
    if len < piece {
        len
    } else {
        piece
    }
}

/// The number of chunks that content of the given length is cut into.
pub open spec fn chunk_count(len: nat, chunk_len: nat) -> nat {
    if chunk_len == 0 {
        0
    } else {
        ((len + chunk_len - 1) / (chunk_len as int)) as nat
    }
}

/// The length of the ciphertext of content of the given length: the
/// content's own length and one tag for every chunk.
pub open spec fn encrypted_len(len: nat, chunk_len: nat) -> nat {
    len + (TAG_LEN as nat) * chunk_count(len, chunk_len)
}

/// The ciphertext of `plaintext`, cut into chunks of `chunk_len` bytes of
/// which the first has the given counter: each chunk's ciphertext followed
/// by its tag.
pub open spec fn encrypted(
    key: Seq<u8>,
    iv: Seq<u8>,
    chunk_len: nat,
    plaintext: Seq<u8>,
    counter: nat,
) -> Seq<u8>
    decreases plaintext.len(),
{
    if plaintext.len() == 0 || chunk_len == 0 {
        Seq::empty()
    } else {
        let n = first_len(plaintext.len(), chunk_len) as int;
        let piece = aead::sealed(key, chunk_nonce(iv, counter as u32), plaintext.take(n));
        piece.0 + piece.1 + encrypted(key, iv, chunk_len, plaintext.skip(n), counter + 1)
    }
}

/// The plaintext of `ciphertext`, cut into chunks of `chunk_len` bytes and
/// a tag, of which the first has the given counter; or the error of the
/// first chunk that is cut short, fails its tag or has no counter left.
pub open spec fn decrypted(
    key: Seq<u8>,
    iv: Seq<u8>,
    chunk_len: nat,
    ciphertext: Seq<u8>,
    counter: nat,
) -> Result<Seq<u8>, StreamError>
    decreases ciphertext.len(),
{
    if ciphertext.len() == 0 || chunk_len == 0 {
        Ok(Seq::empty())
    } else if counter > MAX_COUNTER {
        Err(StreamError::Exhausted)
    } else {
        let n = first_len(ciphertext.len(), chunk_len + TAG_LEN as nat) as int;
        let chunk = ciphertext.take(n);
        if n < TAG_LEN {
            Err(StreamError::Integrity)
        } else {
            match aead::opened(
                key,
                chunk_nonce(iv, counter as u32),
                chunk.take(n - TAG_LEN),
                chunk.skip(n - TAG_LEN),
            ) {
                None => Err(StreamError::Integrity),
                Some(head) => prepend(
                    head,
                    decrypted(key, iv, chunk_len, ciphertext.skip(n), counter + 1),
                ),
            }
        }
    }
}

/// The result `rest` with `head` put before its plaintext.
pub open spec fn prepend(head: Seq<u8>, rest: Result<Seq<u8>, StreamError>) -> Result<
    Seq<u8>,
    StreamError,
> {
    match rest {
        Ok(tail) => Ok(head + tail),
        Err(error) => Err(error),
    }
}

/// Whether the cipher's answer for every chunk of `plaintext` is one that
/// opens again to the chunk, and every chunk has a counter.
pub open spec fn seals_cleanly(
    key: Seq<u8>,
    iv: Seq<u8>,
    chunk_len: nat,
    plaintext: Seq<u8>,
    counter: nat,
) -> bool
    decreases plaintext.len(),
{
    if plaintext.len() == 0 || chunk_len == 0 {
        true
    } else {
        let n = first_len(plaintext.len(), chunk_len) as int;
        let nonce = chunk_nonce(iv, counter as u32);
        let piece = aead::sealed(key, nonce, plaintext.take(n));
        &&& counter <= MAX_COUNTER
        &&& aead::is_sealed(key, nonce, plaintext.take(n), piece.0, piece.1)
        &&& seals_cleanly(key, iv, chunk_len, plaintext.skip(n), counter + 1)
    }
}

/// Where the cipher's answers open again, the ciphertext of a plaintext
/// decrypts to that plaintext.
pub proof fn lemma_decrypted_inverts_encrypted(
    key: Seq<u8>,
    iv: Seq<u8>,
    chunk_len: nat,
    plaintext: Seq<u8>,
    counter: nat,
)
    requires
        chunk_len > 0,
        seals_cleanly(key, iv, chunk_len, plaintext, counter),
    ensures
        decrypted(key, iv, chunk_len, encrypted(key, iv, chunk_len, plaintext, counter), counter)
            == Ok::<Seq<u8>, StreamError>(plaintext),
    decreases plaintext.len(),
{
    if plaintext.len() > 0 {
        let n = first_len(plaintext.len(), chunk_len) as int;
        let piece = aead::sealed(key, chunk_nonce(iv, counter as u32), plaintext.take(n));
        let rest = encrypted(key, iv, chunk_len, plaintext.skip(n), counter + 1);
        lemma_decrypted_inverts_encrypted(key, iv, chunk_len, plaintext.skip(n), counter + 1);
        let ciphertext = encrypted(key, iv, chunk_len, plaintext, counter);
        assert(ciphertext == piece.0 + piece.1 + rest);
        let m = n + TAG_LEN;
        assert(first_len(ciphertext.len(), chunk_len + TAG_LEN as nat) == m);
        let chunk = ciphertext.take(m);
        assert(chunk.take(n) =~= piece.0);
        assert(chunk.skip(n) =~= piece.1);
        assert(ciphertext.skip(m) =~= rest);
        assert(plaintext.take(n) + plaintext.skip(n) =~= plaintext);
        assert(aead::opened(key, chunk_nonce(iv, counter as u32), chunk.take(n), chunk.skip(n))
            == Some(plaintext.take(n)));
        assert(decrypted(key, iv, chunk_len, ciphertext.skip(m), counter + 1) == Ok::<
            Seq<u8>,
            StreamError,
        >(plaintext.skip(n)));
        assert(decrypted(key, iv, chunk_len, ciphertext, counter) == prepend(
            plaintext.take(n),
            decrypted(key, iv, chunk_len, ciphertext.skip(m), counter + 1),
        ));
    } else {
        assert(plaintext =~= Seq::<u8>::empty());
    }
}

/// Whether the cipher refuses the chunk that stands at the head of
/// `ciphertext` under the given counter: the chunk has no room for a tag,
/// or its tag does not verify.
pub open spec fn refuses_head(
    key: Seq<u8>,
    iv: Seq<u8>,
    chunk_len: nat,
    ciphertext: Seq<u8>,
    counter: nat,
) -> bool {
    let n = first_len(ciphertext.len(), chunk_len + TAG_LEN as nat) as int;
    let chunk = ciphertext.take(n);
    ciphertext.len() > 0 && (n < TAG_LEN || aead::opened(
        key,
        chunk_nonce(iv, counter as u32),
        chunk.take(n - TAG_LEN),
        chunk.skip(n - TAG_LEN),
    ) is None)
}

/// A chunk that the cipher refuses makes the whole stream refused with
/// `Integrity`, wherever it stands: behind any number of whole chunks that
/// the cipher accepts, nothing is handed out, neither of the refused chunk
/// nor of the chunks before it or behind it. Whether the cipher refuses a
/// chunk that was changed is the cipher's to say.
pub proof fn lemma_refused_chunk_fails_the_stream(
    key: Seq<u8>,
    iv: Seq<u8>,
    chunk_len: nat,
    accepted: Seq<u8>,
    chunks: nat,
    rest: Seq<u8>,
    counter: nat,
)
    requires
        chunk_len > 0,
        accepted.len() == chunks * (chunk_len + TAG_LEN),
        decrypted(key, iv, chunk_len, accepted, counter) is Ok,
        counter + chunks <= MAX_COUNTER,
        refuses_head(key, iv, chunk_len, rest, counter + chunks),
    ensures
        decrypted(key, iv, chunk_len, accepted + rest, counter) == Err::<Seq<u8>, StreamError>(
            StreamError::Integrity,
        ),
    decreases chunks,
{
    let piece = chunk_len + TAG_LEN as nat;
    let whole = accepted + rest;
    if chunks == 0 {
        assert(chunks * piece == 0) by (nonlinear_arith)
            requires
                chunks == 0,
        ;
        assert(whole =~= rest);
    } else {
        assert(chunks * piece == (chunks - 1) * piece + piece) by (nonlinear_arith);
        assert((chunks - 1) * piece >= 0) by (nonlinear_arith)
            requires
                chunks >= 1,
        ;
        let m = piece as int;
        assert(first_len(accepted.len(), piece) == m);
        assert(first_len(whole.len(), piece) == m);
        assert(whole.take(m) =~= accepted.take(m));
        assert(whole.skip(m) =~= accepted.skip(m) + rest);
        lemma_refused_chunk_fails_the_stream(
            key,
            iv,
            chunk_len,
            accepted.skip(m),
            (chunks - 1) as nat,
            rest,
            counter + 1,
        );
    }
}

/// The chunk count is the least number of chunks that hold the content.
pub proof fn lemma_chunk_count_bounds(len: nat, chunk_len: nat)
    requires
        chunk_len > 0,
    ensures
        len <= chunk_count(len, chunk_len) * chunk_len,
        len > 0 ==> (chunk_count(len, chunk_len) - 1) * chunk_len < len,
        len == 0 ==> chunk_count(len, chunk_len) == 0,
{
    let x = (len + chunk_len - 1) as int;
    let d = chunk_len as int;
    vstd::arithmetic::div_mod::lemma_fundamental_div_mod(x, d);
    vstd::arithmetic::div_mod::lemma_mod_bound(x, d);
    let q = x / d;
    assert(q >= 0) by {
        vstd::arithmetic::div_mod::lemma_div_pos_is_pos(x, d);
    }
    assert(d * q == q * d) by (nonlinear_arith);
    assert((q - 1) * d == q * d - d) by (nonlinear_arith);
    if len == 0 {
        vstd::arithmetic::div_mod::lemma_basic_div(x, d);
    }
}

/// A number of chunks that holds the content, and of which one less does
/// not, is the chunk count.
pub proof fn lemma_chunk_count_is(len: nat, chunk_len: nat, count: nat)
    requires
        chunk_len > 0,
        len <= count * chunk_len,
        len > 0 ==> count > 0 && (count - 1) * chunk_len < len,
        len == 0 ==> count == 0,
    ensures
        chunk_count(len, chunk_len) == count,
{
    if len > 0 {
        let x = (len + chunk_len - 1) as int;
        let d = chunk_len as int;
        let r = len - 1 - (count - 1) * chunk_len;
        assert(x == count * d + r) by (nonlinear_arith)
            requires
                x == len + d - 1,
                r == len - 1 - (count - 1) * d,
        ;
        assert(r < d) by (nonlinear_arith)
            requires
                r == len - 1 - (count - 1) * d,
                len <= count * d,
        ;
        vstd::arithmetic::div_mod::lemma_fundamental_div_mod_converse(x, d, count as int, r);
    } else {
        lemma_chunk_count_bounds(len, chunk_len);
    }
}

/// Computes the length of the ciphertext of content of `len` bytes, or
/// `None` where the chunk length is zero or the length does not fit.
pub fn total_len(len: u64, chunk_len: u64) -> (res: Option<u64>)
    ensures
        match res {
            Some(total) => chunk_len > 0 && total == encrypted_len(len as nat, chunk_len as nat),
            None => chunk_len == 0 || encrypted_len(len as nat, chunk_len as nat) > u64::MAX,
        },
{
    if chunk_len == 0 {
        return None;
    }
    let count = if len == 0 {
        0
    } else {
        (len - 1) / chunk_len + 1
    };
    proof {
        if len > 0 {
            let q = ((len - 1) / (chunk_len as int)) as nat;
            vstd::arithmetic::div_mod::lemma_fundamental_div_mod(len - 1, chunk_len as int);
            vstd::arithmetic::div_mod::lemma_mod_bound(len - 1, chunk_len as int);
            assert((chunk_len as int) * q == q * chunk_len) by (nonlinear_arith);
            assert((q + 1) * chunk_len == q * chunk_len + chunk_len) by (nonlinear_arith);
            lemma_chunk_count_is(len as nat, chunk_len as nat, q + 1);
        } else {
            lemma_chunk_count_bounds(0, chunk_len as nat);
        }
    }
    let tags = count.checked_mul(TAG_LEN as u64)?;
    len.checked_add(tags)
}

/// The length of the plaintext behind a ciphertext of the given length: the
/// ciphertext's length without one tag for every chunk. A length whose last
/// chunk has no room for a tag is that of no ciphertext.
pub open spec fn decrypted_len(len: nat, chunk_len: nat) -> Option<nat> {
    let piece = chunk_len + TAG_LEN as nat;
    let count = chunk_count(len, piece);
    if len == 0 {
        Some(0)
    } else if len - (count - 1) * piece < TAG_LEN {
        None
    } else {
        Some((len - TAG_LEN * count) as nat)
    }
}

/// The length of a plaintext is found again from the length of its
/// ciphertext.
pub proof fn lemma_decrypted_len_inverts_encrypted_len(len: nat, chunk_len: nat)
    requires
        chunk_len > 0,
    ensures
        decrypted_len(encrypted_len(len, chunk_len), chunk_len) == Some(len),
{
    let count = chunk_count(len, chunk_len);
    let piece = chunk_len + TAG_LEN as nat;
    let total = encrypted_len(len, chunk_len);
    lemma_chunk_count_bounds(len, chunk_len);
    if len > 0 {
        assert(count > 0) by (nonlinear_arith)
            requires
                len <= count * chunk_len,
                len > 0,
        ;
        assert(count * piece == count * chunk_len + 16 * count) by (nonlinear_arith)
            requires
                piece == chunk_len + 16,
        ;
        assert((count - 1) * piece == (count - 1) * chunk_len + 16 * count - 16) by (nonlinear_arith)
            requires
                piece == chunk_len + 16,
        ;
        lemma_chunk_count_is(total, piece, count);
    }
}

/// Computes the length of the plaintext behind a ciphertext of `len`
/// bytes, or `None` where the chunk length is zero or above
/// `MAX_CHUNK_LEN`, or no ciphertext has that length.
pub fn plain_len(len: u64, chunk_len: u64) -> (res: Option<u64>)
    ensures
        match res {
            Some(plain) => 0 < chunk_len <= MAX_CHUNK_LEN && decrypted_len(
                len as nat,
                chunk_len as nat,
            ) == Some(plain as nat),
            None => chunk_len == 0 || chunk_len > MAX_CHUNK_LEN || decrypted_len(
                len as nat,
                chunk_len as nat,
            ) is None,
        },
{
    if chunk_len == 0 || chunk_len > MAX_CHUNK_LEN as u64 {
        return None;
    }
    if len == 0 {
        return Some(0);
    }
    let piece = chunk_len + TAG_LEN as u64;
    let full = (len - 1) / piece;
    proof {
        let q = full as nat;
        vstd::arithmetic::div_mod::lemma_fundamental_div_mod(len - 1, piece as int);
        vstd::arithmetic::div_mod::lemma_mod_bound(len - 1, piece as int);
        assert((piece as int) * q == q * piece) by (nonlinear_arith);
        assert((q + 1) * piece == q * piece + piece) by (nonlinear_arith);
        assert(16 * q <= q * piece) by (nonlinear_arith)
            requires
                piece >= 16,
        ;
        lemma_chunk_count_is(len as nat, piece as nat, q + 1);
    }
    let last = len - full * piece;
    if last < TAG_LEN as u64 {
        return None;
    }
    Some(len - TAG_LEN as u64 * (full + 1))
}

/// Encrypts a whole plaintext as the stream does, chunk by chunk from the
/// first counter. What comes out has the length that `encrypted_len` gives
/// and decrypts again to the plaintext. A bad key or chunk length gives
/// `Setup`, a plaintext of more chunks than there are counters gives
/// `Exhausted`; else only a failure of the cipher stands in the way, and
/// nothing does for the empty plaintext.
pub fn encrypt_stream(plaintext: &[u8], key: &[u8], iv: &[u8; 12], chunk_len: usize) -> (res: Result<
    Vec<u8>,
    StreamError,
>)
    ensures
        if !valid_setup(key@, chunk_len as nat) {
            res == Err::<Vec<u8>, StreamError>(StreamError::Setup)
        } else if chunk_count(plaintext@.len(), chunk_len as nat) > MAX_COUNTER + 1 {
            res == Err::<Vec<u8>, StreamError>(StreamError::Exhausted)
        } else {
            match res {
                Ok(out) => {
                    &&& out@ == encrypted(key@, iv@, chunk_len as nat, plaintext@, 0)
                    &&& out@.len() == encrypted_len(plaintext@.len(), chunk_len as nat)
                    &&& decrypted(key@, iv@, chunk_len as nat, out@, 0) == Ok::<
                        Seq<u8>,
                        StreamError,
                    >(plaintext@)
                },
                Err(error) => error == StreamError::Cipher && plaintext@.len() > 0,
            }
        },
{
    let mut unobserved = Progress::new();
    match encrypt_observed(plaintext, key, iv, chunk_len, &mut unobserved) {
        Ok(out) => Ok(out),
        Err(TransferError::Stream(error)) => Err(error),
        Err(TransferError::Progress(_)) => vstd::pervasive::unreached(),
    }
}

/// Decrypts a whole ciphertext as the stream does, chunk by chunk from the
/// first counter. Nothing is handed out unless every chunk verifies.
pub fn decrypt_stream(ciphertext: &[u8], key: &[u8], iv: &[u8; 12], chunk_len: usize) -> (res: Result<
    Vec<u8>,
    StreamError,
>)
    ensures
        !valid_setup(key@, chunk_len as nat) ==> res == Err::<Vec<u8>, StreamError>(
            StreamError::Setup,
        ),
        valid_setup(key@, chunk_len as nat) ==> result_view(res) == decrypted(
            key@,
            iv@,
            chunk_len as nat,
            ciphertext@,
            0,
        ),
        res matches Ok(out) ==> decrypted_len(ciphertext@.len(), chunk_len as nat) == Some(
            out@.len(),
        ),
{
    let mut stream = match ContentStream::new(key, iv, chunk_len, Direction::Decrypt) {
        Ok(stream) => stream,
        Err(error) => {
            return Err(error);
        },
    };
    let ghost k = key@;
    let ghost v = iv@;
    let ghost cl = chunk_len as nat;
    let ghost ct = ciphertext@;
    let piece_len = chunk_len + TAG_LEN;
    let mut out: Vec<u8> = Vec::new();
    let mut off: usize = 0;
    assert(ct.skip(0) =~= ct);
    assert(out@ + decrypted(k, v, cl, ct, 0)->Ok_0 =~= decrypted(k, v, cl, ct, 0)->Ok_0);
    while off < ciphertext.len()
        invariant
            off <= ciphertext.len(),
            ct == ciphertext@,
            cl == chunk_len,
            k == key@,
            v == iv@,
            piece_len == chunk_len + TAG_LEN,
            valid_setup(k, cl),
            stream@ == (StreamView {
                key: k,
                iv: v,
                chunk_len: cl,
                counter: stream@.counter,
                direction: Direction::Decrypt,
                aborted: false,
            }),
            decrypted(k, v, cl, ct, 0) == prepend(
                out@,
                decrypted(k, v, cl, ct.skip(off as int), stream@.counter),
            ),
            out@.len() + TAG_LEN * stream@.counter == off,
            off == stream@.counter * piece_len || (off == ct.len() && stream@.counter > 0 && (
            stream@.counter - 1) * piece_len < ct.len() <= stream@.counter * piece_len && ct.len() - (
            stream@.counter - 1) * piece_len >= TAG_LEN),
        decreases ciphertext.len() - off,
    {
        let rest = ciphertext.len() - off;
        let n = if rest < piece_len {
            rest
        } else {
            piece_len
        };
        let ghost before = stream@;
        let ghost tail = ct.skip(off as int);
        let ghost earlier = out@;
        let piece = stream.pull(&ciphertext[off..off + n]);
        proof {
            assert(ciphertext@.subrange(off as int, off + n) =~= tail.take(n as int));
            assert(tail.skip(n as int) =~= ct.skip(off + n));
            assert(n == first_len(tail.len(), cl + TAG_LEN as nat));
            assert((before.counter + 1) * piece_len == before.counter * piece_len + piece_len)
                by (nonlinear_arith);
        }
        match piece {
            Ok(mut bytes) => {
                let ghost head = bytes@;
                assert(head.len() + TAG_LEN == n);
                out.append(&mut bytes);
                off = off + n;
                proof {
                    let later = decrypted(k, v, cl, ct.skip(off as int), before.counter + 1);
                    if let Ok(end) = later {
                        assert(earlier + (head + end) =~= out@ + end);
                    }
                }
            },
            Err(error) => {
                return Err(error);
            },
        }
    }
    proof {
        assert(ct.skip(off as int) =~= Seq::<u8>::empty());
        assert(out@ + Seq::<u8>::empty() =~= out@);
        let count = stream@.counter;
        let piece = piece_len as nat;
        if ct.len() == 0 {
            assert(count == 0) by (nonlinear_arith)
                requires
                    0 == count * piece || (count > 0 && (count - 1) * piece < 0),
                    piece > 0,
            ;
        } else {
            assert(count > 0 && (count - 1) * piece < ct.len() && ct.len() - (count - 1) * piece
                >= TAG_LEN) by (nonlinear_arith)
                requires
                    ct.len() == count * piece || (count > 0 && (count - 1) * piece < ct.len()
                        && ct.len() - (count - 1) * piece >= TAG_LEN),
                    ct.len() > 0,
                    piece >= TAG_LEN,
                    piece > 0,
            ;
            lemma_chunk_count_is(ct.len(), piece, count);
        }
    }
    Ok(out)
}

} // verus!
