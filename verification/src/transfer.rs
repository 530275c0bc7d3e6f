//! The content stream under observation: every chunk that comes out is
//! reported to the progress record of the transfer.

use vstd::prelude::*;
use crate::crypto::aead::TAG_LEN;
use crate::progress::Progress;
use crate::progress::ProgressError;
use crate::progress::ProgressView;
use crate::stream::chunk_count;
use crate::stream::decrypted;
use crate::stream::encrypted;
use crate::stream::encrypted_len;
use crate::stream::first_len;
use crate::stream::lemma_chunk_count_bounds;
use crate::stream::lemma_chunk_count_is;
use crate::stream::lemma_decrypted_inverts_encrypted;
use crate::stream::pull_ensures;
use crate::stream::result_view;
use crate::stream::seals_cleanly;
use crate::stream::total_len;
use crate::stream::valid_setup;
use crate::stream::ContentStream;
use crate::stream::Direction;
use crate::stream::StreamError;
use crate::stream::StreamView;
use crate::stream::MAX_COUNTER;

verus! {

/// Why an observed transfer failed.
#[derive(Clone, Copy, Debug, PartialEq, Eq, Structural)]
pub enum TransferError {
    /// The stream failed.
    Stream(StreamError),
    /// The progress record refused a report.
    Progress(ProgressError),
}

/// Pulls one chunk through the stream and reports what came out to the
/// progress record. The stream does what it does unobserved; the record
/// grows by the number of bytes that came out, and is left alone where
/// nothing did. The second result is that of the report.
pub fn pull_observed(stream: &mut ContentStream, progress: &mut Progress, input: &[u8]) -> (res: (
    Result<Vec<u8>, StreamError>,
    Result<(), ProgressError>,
))
    ensures
        pull_ensures(old(stream)@, input@, result_view(res.0), final(stream)@),
        final(progress)@.transferred >= old(progress)@.transferred,
        match res.0 {
            Ok(out) => match old(progress)@.update_refusal(out@.len()) {
                Some(error) => res.1 == Err::<(), ProgressError>(error) && final(progress)@ == old(progress)@,
                None => res.1 is Ok && final(progress)@ == (ProgressView {
                    transferred: old(progress)@.transferred + out@.len(),
                    ..old(progress)@
                }),
            },
            Err(_) => res.1 is Ok && final(progress)@ == old(progress)@,
        },
{
    let pulled = stream.pull(input);
    let reported = match &pulled {
        Ok(out) => progress.update(out.len() as u64),
        Err(_) => Ok(()),
    };
    (pulled, reported)
}

/// Encrypts a whole plaintext as the stream does, under observation: the
/// record is started with the length of the ciphertext, grows with every
/// chunk, and is finished however the transfer ends, also where the stream
/// cannot be made. A transfer that succeeds leaves the record at exactly
/// its total, and what comes out decrypts again to the plaintext. A record
/// that was started or finished before belongs to another transfer and is
/// not touched.
pub fn encrypt_observed(
    plaintext: &[u8],
    key: &[u8],
    iv: &[u8; 12],
    chunk_len: usize,
    progress: &mut Progress,
) -> (res: Result<Vec<u8>, TransferError>)
    ensures
        final(progress)@.transferred >= old(progress)@.transferred,
        match old(progress)@.start_refusal() {
            Some(error) => res == Err::<Vec<u8>, TransferError>(TransferError::Progress(error))
                && final(progress)@ == old(progress)@,
            None => if !valid_setup(key@, chunk_len as nat) {
                res == Err::<Vec<u8>, TransferError>(TransferError::Stream(StreamError::Setup))
                    && final(progress)@ == (ProgressView { finished: true, ..old(progress)@ })
            } else if chunk_count(plaintext@.len(), chunk_len as nat) > MAX_COUNTER + 1 {
                res == Err::<Vec<u8>, TransferError>(TransferError::Stream(StreamError::Exhausted))
                    && final(progress)@ == (ProgressView { finished: true, ..old(progress)@ })
            } else {
                match res {
                    Ok(out) => {
                        &&& out@ == encrypted(key@, iv@, chunk_len as nat, plaintext@, 0)
                        &&& out@.len() == encrypted_len(plaintext@.len(), chunk_len as nat)
                        &&& decrypted(key@, iv@, chunk_len as nat, out@, 0) == Ok::<
                            Seq<u8>,
                            StreamError,
                        >(plaintext@)
                        &&& final(progress)@ == (ProgressView {
                            total: out@.len(),
                            transferred: out@.len(),
                            started: true,
                            finished: true,
                        })
                    },
                    Err(error) => {
                        &&& error == TransferError::Stream(StreamError::Cipher)
                        &&& plaintext@.len() > 0
                        &&& final(progress)@.started
                        &&& final(progress)@.finished
                        &&& final(progress)@.total == encrypted_len(
                            plaintext@.len(),
                            chunk_len as nat,
                        )
                        &&& final(progress)@.transferred < final(progress)@.total
                    },
                }
            },
        },
{
    proof {
        use_type_invariant(&*progress);
        progress.lemma_view_wf();
    }
    if progress.is_started() {
        return Err(TransferError::Progress(ProgressError::AlreadyStarted));
    }
    if progress.is_finished() {
        return Err(TransferError::Progress(ProgressError::AlreadyFinished));
    }
    let mut stream = match ContentStream::new(key, iv, chunk_len, Direction::Encrypt) {
        Ok(stream) => stream,
        Err(error) => {
            let _ = progress.finish();
            return Err(TransferError::Stream(error));
        },
    };
    let ghost k = key@;
    let ghost v = iv@;
    let ghost cl = chunk_len as nat;
    let ghost pt = plaintext@;
    proof {
        lemma_chunk_count_bounds(pt.len(), cl);
        let count = chunk_count(pt.len(), cl);
        if count <= MAX_COUNTER + 1 {
            assert(count * cl <= 0x1_0000_0000 * 0x3fff_fff0) by (nonlinear_arith)
                requires
                    count <= 0x1_0000_0000,
                    cl <= 0x3fff_fff0,
            ;
        }
    }
    let total = match total_len(plaintext.len() as u64, chunk_len as u64) {
        Some(total) => total,
        None => {
            let _ = progress.finish();
            return Err(TransferError::Stream(StreamError::Exhausted));
        },
    };
    if total - plaintext.len() as u64 > (MAX_COUNTER + 1) * 16 {
        let _ = progress.finish();
        return Err(TransferError::Stream(StreamError::Exhausted));
    }
    match progress.start(total) {
        Ok(_) => {},
        Err(error) => {
            return Err(TransferError::Progress(error));
        },
    }
    let mut out: Vec<u8> = Vec::new();
    let mut off: usize = 0;
    assert(pt.skip(0) =~= pt);
    while off < plaintext.len()
        invariant
            off <= plaintext.len(),
            pt == plaintext@,
            cl == chunk_len,
            k == key@,
            v == iv@,
            valid_setup(k, cl),
            old(progress)@.start_refusal() is None,
            old(progress)@.transferred == 0,
            chunk_count(pt.len(), cl) <= MAX_COUNTER + 1,
            total == encrypted_len(pt.len(), cl),
            stream@ == (StreamView {
                key: k,
                iv: v,
                chunk_len: cl,
                counter: stream@.counter,
                direction: Direction::Encrypt,
                aborted: false,
            }),
            progress@ == (ProgressView {
                total: total as nat,
                transferred: out@.len(),
                started: true,
                finished: false,
            }),
            encrypted(k, v, cl, pt, 0) == out@ + encrypted(k, v, cl, pt.skip(off as int), stream@.counter),
            seals_cleanly(k, v, cl, pt.skip(off as int), stream@.counter) ==> seals_cleanly(
                k,
                v,
                cl,
                pt,
                0,
            ),
            out@.len() == off + TAG_LEN * stream@.counter,
            off == stream@.counter * cl || (off == pt.len() && stream@.counter > 0 && (
            stream@.counter - 1) * cl < pt.len() <= stream@.counter * cl),
        decreases plaintext.len() - off,
    {
        let rest = plaintext.len() - off;
        let n = if rest < chunk_len {
            rest
        } else {
            chunk_len
        };
        let ghost before = stream@;
        let ghost tail = pt.skip(off as int);
        proof {
            lemma_chunk_count_bounds(pt.len(), cl);
            let count = chunk_count(pt.len(), cl);
            assert(before.counter < count) by (nonlinear_arith)
                requires
                    before.counter * cl < pt.len(),
                    pt.len() <= count * cl,
                    cl > 0,
            ;
        }
        let (piece, reported) = pull_observed(&mut stream, progress, &plaintext[off..off + n]);
        proof {
            assert(plaintext@.subrange(off as int, off + n) =~= tail.take(n as int));
            assert(tail.skip(n as int) =~= pt.skip(off + n));
            assert(n == first_len(tail.len(), cl));
            assert((before.counter + 1) * cl == before.counter * cl + cl) by (nonlinear_arith);
        }
        match piece {
            Ok(mut bytes) => {
                proof {
                    let sealed = crate::crypto::aead::sealed(k, before.nonce(), tail.take(n as int));
                    assert(bytes@ =~= sealed.0 + sealed.1) by {
                        assert(bytes@ =~= bytes@.take(n as int) + bytes@.skip(n as int));
                    }
                    assert(out@ + bytes@ + encrypted(k, v, cl, pt.skip(off + n), before.counter + 1)
                        =~= out@ + (sealed.0 + sealed.1 + encrypted(
                        k,
                        v,
                        cl,
                        pt.skip(off + n),
                        before.counter + 1,
                    )));
                    let count = chunk_count(pt.len(), cl);
                    assert(off + n + TAG_LEN * (before.counter + 1) <= pt.len() + TAG_LEN * count);
                }
                out.append(&mut bytes);
                off = off + n;
            },
            Err(error) => {
                proof {
                    let count = chunk_count(pt.len(), cl);
                    assert(before.refusal(tail.take(n as int)) is None);
                    assert(error == StreamError::Cipher);
                    assert(off + TAG_LEN * before.counter < pt.len() + TAG_LEN * count);
                }
                let _ = progress.finish();
                return Err(TransferError::Stream(error));
            },
        }
    }
    proof {
        assert(pt.skip(off as int) =~= Seq::<u8>::empty());
        assert(out@ =~= encrypted(k, v, cl, pt, 0));
        lemma_decrypted_inverts_encrypted(k, v, cl, pt, 0);
        if pt.len() == 0 {
            assert(stream@.counter == 0) by (nonlinear_arith)
                requires
                    0 == stream@.counter * cl || (stream@.counter > 0 && (stream@.counter - 1)
                        * cl < 0),
                    cl > 0,
            ;
        } else {
            assert(stream@.counter > 0 && (stream@.counter - 1) * cl < pt.len()) by (nonlinear_arith)
                requires
                    pt.len() == stream@.counter * cl || (stream@.counter > 0 && (stream@.counter
                        - 1) * cl < pt.len()),
                    pt.len() > 0,
                    cl > 0,
            ;
        }
        lemma_chunk_count_is(pt.len(), cl, stream@.counter);
    }
    let _ = progress.finish();
    Ok(out)
}

} // verus!
