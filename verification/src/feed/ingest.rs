//! Reassembly of ITCH-style messages from raw datagrams.
use vstd::prelude::*;
use vstd::slice::{slice_subrange, slice_to_vec};
use crate::feed::decode::{Decoded, ItchDecoder, frame_fits, message_is, pop_spec};
use crate::feed::wire::read_be16;
use crate::feed::error::IngestError;
use crate::feed::message::ItchMessage;
use crate::feed::wire::push_all;

verus! {

/// Offset past which consumed bytes are dropped from the buffer.
pub const COMPACT_THRESHOLD: usize = 65536;

/// What is left of `b` once every whole frame has been decoded, or the first
/// decoding failure.
pub open spec fn stream_rest(b: Seq<u8>) -> Result<Seq<u8>, crate::feed::error::DecodeError>
    decreases b.len(),
{
    match pop_spec(b, true) {
        Ok(None) => Ok(b),
        Err(e) => Err(e),
        Ok(Some((_, n))) => if 0 < n <= b.len() {
            stream_rest(b.skip(n as int))
        } else {
            Ok(b)
        },
    }
}

/// `b` after its first `k` whole frames (or after all of them, if fewer).
pub open spec fn after_frames(b: Seq<u8>, k: nat) -> Seq<u8>
    decreases k,
{
    if k == 0 {
        b
    } else {
        match pop_spec(b, true) {
            Ok(Some((_, n))) => after_frames(b.skip(n as int), (k - 1) as nat),
            _ => b,
        }
    }
}

/// No frame decoded from `b` declares length zero.
pub open spec fn stream_fits(b: Seq<u8>) -> bool
    decreases b.len(),
{
    &&& frame_fits(b)
    &&& match pop_spec(b, true) {
        Ok(Some((_, n))) => 0 < n <= b.len() ==> stream_fits(b.skip(n as int)),
        _ => true,
    }
}

/// The frames decoded from the front of `b`, each with its length, up to the first
/// incomplete frame or decoding failure.
pub open spec fn stream_frames(b: Seq<u8>) -> Seq<(Decoded, nat)>
    decreases b.len(),
{
    match pop_spec(b, true) {
        Ok(Some((d, n))) => if 0 < n <= b.len() {
            seq![(d, n)] + stream_frames(b.skip(n as int))
        } else {
            Seq::empty()
        },
        _ => Seq::empty(),
    }
}

/// Decode every whole frame at the front of `buf`, in order: each message with the
/// length of its frame, then either the number of bytes they take (the rest is an
/// incomplete frame) or the decoding failure that stopped the scan.
pub fn decode_stream(buf: &[u8]) -> (r: (Vec<(ItchMessage<'_>, usize)>, Result<usize, crate::feed::error::DecodeError>))
    requires
        stream_fits(buf@),
    ensures
        r.0@.len() == stream_frames(buf@).len(),
        forall|i: int|
            0 <= i < r.0@.len() ==> message_is((#[trigger] r.0@[i]).0, stream_frames(buf@)[i].0) && r.0@[i].1
                == stream_frames(buf@)[i].1,
        match stream_rest(buf@) {
            Ok(rest) => r.1 == Ok::<usize, crate::feed::error::DecodeError>((buf@.len() - rest.len()) as usize),
            Err(e) => r.1 == Err::<usize, crate::feed::error::DecodeError>(e),
        },
{
    let mut decoder = ItchDecoder::new();
    let mut out: Vec<(ItchMessage<'_>, usize)> = Vec::new();
    let mut pos: usize = 0;
    let n = buf.len();
    let ghost all = stream_frames(buf@);
    assert(buf@.skip(0) =~= buf@);
    loop
        invariant
            n == buf@.len(),
            pos <= n,
            stream_fits(buf@.skip(pos as int)),
            all == stream_frames(buf@),
            all.len() == out@.len() + stream_frames(buf@.skip(pos as int)).len(),
            forall|i: int|
                0 <= i < out@.len() ==> message_is((#[trigger] out@[i]).0, all[i].0) && out@[i].1 == all[i].1,
            forall|i: int|
                0 <= i < stream_frames(buf@.skip(pos as int)).len() ==> #[trigger] stream_frames(buf@.skip(pos as int))[i]
                    == all[out@.len() + i],
            stream_rest(buf@) == stream_rest(buf@.skip(pos as int)),
        decreases n - pos,
    {
        let data = slice_subrange(buf, pos, n);
        assert(data@ =~= buf@.skip(pos as int));
        let ghost here = buf@.skip(pos as int);
        match decoder.pop_message(data) {
            Err(e) => {
                proof {
                    assert(stream_frames(here).len() == 0);
                }
                return (out, Err(e));
            },
            Ok(None) => {
                proof {
                    assert(stream_frames(here).len() == 0);
                    assert(stream_rest(here) == Ok::<Seq<u8>, crate::feed::error::DecodeError>(here));
                }
                return (out, Ok(pos));
            },
            Ok(Some((msg, consumed))) => {
                let ghost rest = here.skip(consumed as int);
                let ghost k = out@.len() as int;
                proof {
                    assert(stream_frames(here)[0] == all[k]);
                    match pop_spec(here, true) {
                        Ok(Some((d, nn))) => {
                            assert(message_is(msg, d) && consumed == nn);
                            assert(stream_frames(here)[0] == (d, nn));
                        },
                        _ => {},
                    }
                    assert(stream_frames(here) == seq![all[out@.len() as int]] + stream_frames(rest));
                    assert(buf@.skip(pos + consumed) =~= rest);
                }
                out.push((msg, consumed));
                pos = pos + consumed;
                proof {
                    assert forall|i: int| 0 <= i < stream_frames(buf@.skip(pos as int)).len() implies #[trigger] stream_frames(
                        buf@.skip(pos as int),
                    )[i] == all[out@.len() + i] by {
                        assert(stream_frames(here)[i + 1] == stream_frames(rest)[i]);
                    }
                }
            },
        }
    }
}

/// Whether no frame decoded from `buf` declares length zero.
pub fn stream_fits_check(buf: &[u8]) -> (r: bool)
    ensures
        r == stream_fits(buf@),
{
    let mut decoder = ItchDecoder::new();
    let n = buf.len();
    let mut pos: usize = 0;
    assert(buf@.skip(0) =~= buf@);
    loop
        invariant
            n == buf@.len(),
            pos <= n,
            stream_fits(buf@) == stream_fits(buf@.skip(pos as int)),
        decreases n - pos,
    {
        let data = slice_subrange(buf, pos, n);
        assert(data@ =~= buf@.skip(pos as int));
        if data.len() >= 3 && read_be16(data, 0) == 0 {
            return false;
        }
        let ghost here = buf@.skip(pos as int);
        match decoder.pop_message(data) {
            Ok(Some((_msg, consumed))) => {
                proof {
                    assert(buf@.skip(pos + consumed) =~= here.skip(consumed as int));
                }
                pos = pos + consumed;
            },
            _ => {
                return true;
            },
        }
    }
}

/// Every call of `f` accepts its message.
pub open spec fn accepts_all<F: FnMut(ItchMessage<'_>) -> Result<(), IngestError>>(f: F) -> bool {
    forall|m: ItchMessage<'_>, x: Result<(), IngestError>| call_ensures(f, (m,), x) ==> x is Ok
}

/// `ms` are the messages handed to callback `f`, one per frame of `fs` from the
/// first on, each answered with the matching entry of `xs`; every answer but the
/// last accepted its message.
pub open spec fn handed<F: FnMut(ItchMessage<'_>) -> Result<(), IngestError>>(
    f: F,
    fs: Seq<(Decoded, nat)>,
    ms: Seq<ItchMessage<'_>>,
    xs: Seq<Result<(), IngestError>>,
) -> bool {
    &&& ms.len() == xs.len()
    &&& ms.len() <= fs.len()
    &&& forall|i: int|
        0 <= i < ms.len() ==> message_is(#[trigger] ms[i], fs[i].0) && call_ensures(f, (ms[i],), xs[i])
    &&& forall|i: int| 0 <= i < ms.len() - 1 ==> (#[trigger] xs[i]) is Ok
}

/// How a run over the stream `b` that handed `n` messages, answered `xs`, ends: at a
/// rejected message, with that answer and that message left pending; or, every frame
/// handed and accepted, with the stream's rest pending, or its decoding failure.
pub open spec fn ingest_end(b: Seq<u8>, n: nat, xs: Seq<Result<(), IngestError>>, r: Result<(), IngestError>, pending: Seq<u8>) -> bool {
    if n > 0 && xs[n - 1] is Err {
        r == xs[n - 1] && pending == after_frames(b, (n - 1) as nat)
    } else {
        &&& n == stream_frames(b).len()
        &&& match stream_rest(b) {
            Ok(rest) => r is Ok && pending == rest,
            Err(e) => r == Err::<(), IngestError>(IngestError::Decode(e)) && pending == after_frames(b, n),
        }
    }
}

/// Ingestor that takes raw datagrams and hands each decoded message to a callback;
/// a message may span datagrams.
pub struct DatagramIngestor {
    buffer: Vec<u8>,
    read_offset: usize,
    decoder: ItchDecoder,
}

impl DatagramIngestor {
    /// Bytes received but not yet decoded.
    pub closed spec fn pending(&self) -> Seq<u8> {
        self.buffer@.skip(self.read_offset as int)
    }

    pub closed spec fn wf(&self) -> bool {
        self.read_offset <= self.buffer@.len()
    }

    /// Number of bytes held, consumed or not.
    pub closed spec fn held(&self) -> nat {
        self.buffer@.len()
    }

    pub fn new() -> (r: Self)
        ensures
            r.wf(),
            r.pending() == Seq::<u8>::empty(),
            r.held() == 0,
    {
        DatagramIngestor { buffer: Vec::new(), read_offset: 0, decoder: ItchDecoder::new() }
    }

    /// Feed one datagram. The whole messages now buffered (those `decode_stream` gives
    /// for the pending bytes) are handed to `on_message` in order, each consumed once
    /// the callback accepts it. An error from the callback stops the run there; once
    /// every decoded message is handed over, a decoding failure is returned. Messages
    /// borrow from the internal buffer for the duration of the call.
    pub fn push_datagram<F>(&mut self, datagram: &[u8], on_message: F) -> (r: Result<(), IngestError>) where
        F: FnMut(ItchMessage<'_>) -> Result<(), IngestError>,

        requires
            old(self).wf(),
            old(self).held() + datagram@.len() <= usize::MAX,
            stream_fits(old(self).pending() + datagram@),
            forall|m: ItchMessage<'_>| call_requires(on_message, (m,)),
        ensures
            final(self).wf(),
            exists|k: nat|
                k <= stream_frames(old(self).pending() + datagram@).len() && final(self).pending() == after_frames(
                    old(self).pending() + datagram@,
                    k,
                ),
            r is Ok ==> stream_rest(old(self).pending() + datagram@) == Ok::<
                Seq<u8>,
                crate::feed::error::DecodeError,
            >(final(self).pending()),
            exists|ms: Seq<ItchMessage<'_>>, xs: Seq<Result<(), IngestError>>|
                #[trigger] handed(on_message, stream_frames(old(self).pending() + datagram@), ms, xs) && ingest_end(
                    old(self).pending() + datagram@,
                    ms.len(),
                    xs,
                    r,
                    final(self).pending(),
                ),
            accepts_all(on_message) ==> (
            match stream_rest(old(self).pending() + datagram@) {
                Ok(rest) => r is Ok && final(self).pending() == rest,
                Err(e) => r == Err::<(), IngestError>(IngestError::Decode(e)) && final(self).pending() == after_frames(
                    old(self).pending() + datagram@,
                    stream_frames(old(self).pending() + datagram@).len(),
                ),
            }),
    {
        let ghost p0 = self.pending() + datagram@;
        push_all(&mut self.buffer, datagram);
        assert(self.pending() =~= p0);
        assert(after_frames(p0, 0) == p0);
        let start = self.read_offset;
        let end = self.buffer.len();
        let ghost buf0 = self.buffer@;
        let data = slice_subrange(self.buffer.as_slice(), start, end);
        assert(data@ =~= p0);
        let (frames, outcome) = decode_stream(data);
        let ghost fs = stream_frames(p0);
        let ghost f0 = on_message;
        let mut cb = on_message;
        let ghost mut ms: Seq<ItchMessage<'_>> = Seq::empty();
        let ghost mut xs: Seq<Result<(), IngestError>> = Seq::empty();
        let mut i: usize = 0;
        while i < frames.len()
            invariant
                ms.len() == i,
                handed(on_message, fs, ms, xs),
                forall|j: int| 0 <= j < xs.len() ==> (#[trigger] xs[j]) is Ok,
                p0 == old(self).pending() + datagram@,
                self.buffer@ == buf0,
                self.wf(),
                i <= frames@.len(),
                frames@.len() == fs.len(),
                fs == stream_frames(p0),
                forall|j: int| 0 <= j < frames@.len() ==> message_is((#[trigger] frames@[j]).0, fs[j].0) && frames@[j].1 == fs[j].1,
                self.pending() == after_frames(p0, i as nat),
                forall|m: ItchMessage<'_>| call_requires(cb, (m,)),
                cb == f0,
                f0 == on_message,
                match stream_rest(p0) {
                    Ok(rest) => outcome == Ok::<usize, crate::feed::error::DecodeError>((p0.len() - rest.len()) as usize),
                    Err(e) => outcome == Err::<usize, crate::feed::error::DecodeError>(e),
                },
            ensures
                ms.len() == fs.len(),
                handed(on_message, fs, ms, xs),
                forall|j: int| 0 <= j < xs.len() ==> (#[trigger] xs[j]) is Ok,
                p0 == old(self).pending() + datagram@,
                self.buffer@ == buf0,
                self.wf(),
                self.pending() == after_frames(p0, fs.len()),
                cb == f0,
                f0 == on_message,
            decreases frames@.len() - i,
        {
            let (msg, consumed) = frames[i];
            let ghost before = self.pending();
            proof {
                lemma_frames_walk(p0, i as nat);
                lemma_after_frames_step(p0, i as nat);
                assert(stream_frames(before)[0] == fs[i as int]);
                assert(stream_frames(before).len() > 0);
                assert(pop_spec(before, true) is Ok);
                assert(pop_spec(before, true)->Ok_0 is Some);
                let nn = pop_spec(before, true)->Ok_0->Some_0.1;
                assert(0 < nn <= before.len());
                assert(stream_frames(before)[0].1 == nn);
                assert(consumed == nn);
                assert(before.len() == self.buffer@.len() - self.read_offset);
            }
            let _held = self.buffer.len();
            let res = cb(msg);
            proof {
                let ms0 = ms;
                let xs0 = xs;
                ms = ms.push(msg);
                xs = xs.push(res);
                assert forall|j: int| 0 <= j < ms.len() implies message_is(#[trigger] ms[j], fs[j].0) && call_ensures(
                    on_message,
                    (ms[j],),
                    xs[j],
                ) by {
                    if j < ms0.len() {
                        assert(ms[j] == ms0[j] && xs[j] == xs0[j]);
                    }
                }
                assert forall|j: int| 0 <= j < ms.len() - 1 implies (#[trigger] xs[j]) is Ok by {
                    assert(xs[j] == xs0[j]);
                }
                assert(handed(on_message, fs, ms, xs));
            }
            match res {
                Err(e) => {
                    proof {
                        assert(ingest_end(p0, ms.len(), xs, Err(e), self.pending()));
                        assert(call_ensures(cb, (msg,), res));
                        assert(!accepts_all(on_message));
                        assert((i as nat) <= stream_frames(p0).len() && self.pending() == after_frames(p0, i as nat));
                    }
                    return Err(e);
                },
                Ok(()) => {
                    proof {
                        assert forall|j: int| 0 <= j < xs.len() implies (#[trigger] xs[j]) is Ok by {
                            if j < xs.len() - 1 {
                            }
                        }
                    }
                },
            }
            self.read_offset = self.read_offset + consumed;
            proof {
                assert(self.pending() =~= before.skip(consumed as int));
            }
            i = i + 1;
        }
        proof {
            lemma_frames_walk(p0, fs.len());
            lemma_rest_at_end(after_frames(p0, fs.len()));
        }
        match outcome {
            Err(e) => {
                return Err(IngestError::Decode(e));
            },
            Ok(_) => {},
        }
        if self.read_offset >= COMPACT_THRESHOLD {
            let ghost before = self.pending();
            let rest = slice_to_vec(slice_subrange(self.buffer.as_slice(), self.read_offset, self.buffer.len()));
            self.buffer = rest;
            self.read_offset = 0;
            assert(self.pending() =~= before);
        }
        Ok(())
    }
}

/// Walking the first `j` frames: what is left decodes into the remaining frames and
/// ends as the whole stream does.
proof fn lemma_frames_walk(b: Seq<u8>, j: nat)
    requires
        j <= stream_frames(b).len(),
    ensures
        stream_frames(after_frames(b, j)) =~= stream_frames(b).skip(j as int),
        stream_rest(after_frames(b, j)) == stream_rest(b),
    decreases j,
{
    if j > 0 {
        match pop_spec(b, true) {
            Ok(Some((_, n))) => {
                assert(0 < n <= b.len());
                assert(stream_frames(b) == seq![stream_frames(b)[0]] + stream_frames(b.skip(n as int)));
                lemma_frames_walk(b.skip(n as int), (j - 1) as nat);
                assert(stream_frames(b).skip(j as int) =~= stream_frames(b.skip(n as int)).skip(j - 1));
            },
            _ => {},
        }
    }
}

/// Where no whole frame is left, a stream that ends well ends right there.
proof fn lemma_rest_at_end(b: Seq<u8>)
    requires
        stream_frames(b).len() == 0,
    ensures
        stream_rest(b) matches Ok(x) ==> x == b,
{
}

/// One more frame: the `k + 1`-th suffix is the `k`-th with its first frame removed.
proof fn lemma_after_frames_step(b: Seq<u8>, k: nat)
    requires
        pop_spec(after_frames(b, k), true) matches Ok(Some(_)),
    ensures
        after_frames(b, k + 1) == (match pop_spec(after_frames(b, k), true) {
            Ok(Some((_, n))) => after_frames(b, k).skip(n as int),
            _ => after_frames(b, k),
        }),
    decreases k,
{
    if k > 0 {
        match pop_spec(b, true) {
            Ok(Some((_, n))) => {
                assert(after_frames(b, k) == after_frames(b.skip(n as int), (k - 1) as nat));
                assert(after_frames(b, k + 1) == after_frames(b.skip(n as int), k));
                lemma_after_frames_step(b.skip(n as int), (k - 1) as nat);
                assert((((k - 1) as nat) + 1) as nat == k);
            },
            _ => {},
        }
    } else {
        assert(after_frames(b, 0) == b);
        match pop_spec(b, true) {
            Ok(Some((_, n))) => {
                assert(after_frames(b.skip(n as int), 0) == b.skip(n as int));
            },
            _ => {},
        }
    }
}

impl Default for DatagramIngestor {
    fn default() -> (r: Self)
        ensures
            r.wf(),
            r.pending() == Seq::<u8>::empty(),
    {
        DatagramIngestor::new()
    }
}

} // verus!
