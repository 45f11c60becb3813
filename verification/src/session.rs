//! The full-copy transfer engine: chunk accounting, size framing,
//! progress events, and the verified in-memory pipeline.
//!
//! A [`TransferSession`] tracks one file's movement in either direction:
//! how many bytes are done, which bytes were streamed (as a ghost
//! sequence), and the progress events emitted so far. The I/O layer feeds
//! it one chunk at a time; everything it reports is proved here.

use crate::error::{ErrorKind, ProtocolError};
use crate::handshake::{spec_file_name, Handshake};
use crate::handshake::{HANDSHAKE_BUFFER_SIZE, HANDSHAKE_OVERHEAD};
use crate::hashing::{bytes_equal, content_hash, digest_of, hex_of, DIGEST_LEN};
use crate::progress::{
    event_done_bytes, event_total_bytes, events_monotonic, events_track, is_yield, Progressing,
};
use vstd::math::min;
use vstd::prelude::*;

verus! {

/// Chunk size for reading a file during full-copy streaming.
pub const DEFAULT_BUFFER_SIZE_FOR_FILE: usize = 4096;

/// Chunk size for data-channel messages.
pub const DEFAULT_BUFFER_SIZE_FOR_NETWORK: usize = 4096;

/// Whether `e` is the `Yield` event with exactly these figures.
pub open spec fn yield_matches(
    e: Progressing,
    df: u64,
    tb: u64,
    db: u64,
    path: Seq<u8>,
) -> bool {
    match e {
        Progressing::Yield { done_files, total_bytes, done_bytes, path_to_file } => {
            &&& done_files == df
            &&& total_bytes == tb
            &&& done_bytes == db
            &&& path_to_file@ == path
        },
        Progressing::Done => false,
    }
}

/// One file's transfer, in either direction: byte accounting against the
/// announced total, the streamed bytes (ghost), and the progress events
/// emitted so far.
pub struct TransferSession {
    /// Total bytes this file takes, as announced by the handshake.
    pub total_bytes: u64,
    /// Bytes accounted so far; never exceeds `total_bytes`.
    pub done_bytes: u64,
    /// How many files preceded this one in the operation.
    pub done_files: u64,
    /// The file's path, carried into every `Yield` event.
    pub path_to_file: Vec<u8>,
    /// The bytes accepted so far, in order.
    pub streamed: Ghost<Seq<u8>>,
    /// Every progress event emitted so far.
    pub events: Vec<Progressing>,
}

impl TransferSession {
    /// The session invariant: accounting matches the streamed bytes and
    /// the event log reports only truthful, monotonic figures.
    pub open spec fn wf(self) -> bool {
        &&& self.done_bytes <= self.total_bytes
        &&& self.streamed@.len() == self.done_bytes
        &&& events_monotonic(self.events@)
        &&& events_track(self.events@, self.total_bytes, self.done_bytes)
    }

    /// All announced bytes are accounted for.
    pub open spec fn is_complete(self) -> bool {
        self.done_bytes == self.total_bytes
    }

    /// Start a session for one file of `total_bytes` bytes.
    pub fn new(total_bytes: u64, done_files: u64, path_to_file: Vec<u8>) -> (s: Self)
        ensures
            s.wf(),
            s.total_bytes == total_bytes,
            s.done_bytes == 0,
            s.done_files == done_files,
            s.path_to_file@ == path_to_file@,
            s.streamed@ =~= Seq::<u8>::empty(),
            s.events@ =~= Seq::<Progressing>::empty(),
    {
        TransferSession {
            total_bytes,
            done_bytes: 0,
            done_files,
            path_to_file,
            streamed: Ghost(Seq::empty()),
            events: Vec::new(),
        }
    }

    /// Whether the announced total has been reached.
    pub fn complete(&self) -> (r: bool)
        ensures
            r == self.is_complete(),
    {
        self.done_bytes == self.total_bytes
    }

    /// Account one non-empty chunk and emit a `Yield` event. Returns how
    /// many of the chunk's bytes belong to this file: the whole chunk,
    /// or, for an oversized read, exactly what is still missing.
    pub fn push_chunk(&mut self, chunk: &[u8]) -> (n: usize)
        requires
            old(self).wf(),
            old(self).done_bytes < old(self).total_bytes,
            chunk@.len() > 0,
        ensures
            final(self).wf(),
            n as int == min(
                chunk@.len() as int,
                old(self).total_bytes - old(self).done_bytes,
            ),
            1 <= n <= chunk@.len(),
            final(self).done_bytes == old(self).done_bytes + n,
            final(self).streamed@ == old(self).streamed@ + chunk@.take(n as int),
            final(self).total_bytes == old(self).total_bytes,
            final(self).done_files == old(self).done_files,
            final(self).path_to_file@ == old(self).path_to_file@,
            final(self).events@.len() == old(self).events@.len() + 1,
            final(self).events@.drop_last() == old(self).events@,
            yield_matches(
                final(self).events@.last(),
                old(self).done_files,
                old(self).total_bytes,
                (old(self).done_bytes + n) as u64,
                old(self).path_to_file@,
            ),
    {
        let remaining: u64 = self.total_bytes - self.done_bytes;
        let n: usize = if (chunk.len() as u64) <= remaining {
            chunk.len()
        } else {
            remaining as usize
        };
        self.done_bytes = self.done_bytes + (n as u64);
        proof {
            self.streamed@ = self.streamed@ + chunk@.take(n as int);
        }
        let path_copy = vstd::slice::slice_to_vec(self.path_to_file.as_slice());
        let event = Progressing::Yield {
            done_files: self.done_files,
            total_bytes: self.total_bytes,
            done_bytes: self.done_bytes,
            path_to_file: path_copy,
        };
        let ghost pre_events = self.events@;
        self.events.push(event);
        proof {
            assert(self.events@.drop_last() =~= pre_events);
            assert forall|i: int, j: int|
                0 <= i <= j < self.events@.len() && is_yield(#[trigger] self.events@[i])
                    && is_yield(#[trigger] self.events@[j]) implies event_done_bytes(
                self.events@[i],
            ) <= event_done_bytes(self.events@[j]) by {
                if j < self.events@.len() - 1 {
                    assert(self.events@[i] == pre_events[i]);
                    assert(self.events@[j] == pre_events[j]);
                } else if i < self.events@.len() - 1 {
                    assert(self.events@[i] == pre_events[i]);
                }
            }
        }
        n
    }

    /// Record successful completion with a final `Done` event.
    pub fn finish(&mut self)
        requires
            old(self).wf(),
            old(self).is_complete(),
        ensures
            final(self).wf(),
            final(self).is_complete(),
            final(self).total_bytes == old(self).total_bytes,
            final(self).done_bytes == old(self).done_bytes,
            final(self).streamed@ == old(self).streamed@,
            final(self).events@ == old(self).events@.push(Progressing::Done),
    {
        let ghost pre_events = self.events@;
        self.events.push(Progressing::Done);
        proof {
            assert forall|i: int, j: int|
                0 <= i <= j < self.events@.len() && is_yield(#[trigger] self.events@[i])
                    && is_yield(#[trigger] self.events@[j]) implies event_done_bytes(
                self.events@[i],
            ) <= event_done_bytes(self.events@[j]) by {
                assert(self.events@[i] == pre_events[i]);
                assert(self.events@[j] == pre_events[j]);
            }
        }
    }
}

/// Progress events of any well-formed session are truthful: totals all
/// equal the announced size, `done_bytes` figures never decrease, none
/// overshoots, and once the session is complete the latest `Yield`
/// reports exactly the total.
pub proof fn lemma_progress_discipline(s: TransferSession)
    requires
        s.wf(),
    ensures
        events_monotonic(s.events@),
        forall|i: int|
            0 <= i < s.events@.len() && is_yield(#[trigger] s.events@[i]) ==> {
                &&& event_total_bytes(s.events@[i]) == s.total_bytes
                &&& event_done_bytes(s.events@[i]) <= s.total_bytes
            },
        s.is_complete() && s.events@.len() > 0 && is_yield(s.events@.last())
            ==> event_done_bytes(s.events@.last()) == s.total_bytes,
{
}

/// The fixed-size chunking of a byte sequence: full `cs`-byte pieces,
/// then one shorter piece for what remains.
pub open spec fn spec_chunks(data: Seq<u8>, cs: int) -> Seq<Seq<u8>>
    recommends
        cs >= 1,
    decreases data.len(),
    when cs >= 1
{
    if data.len() == 0 {
        Seq::empty()
    } else if data.len() <= cs {
        seq![data]
    } else {
        seq![data.take(cs)] + spec_chunks(data.skip(cs), cs)
    }
}

/// The bytes a sequence of reads delivers, in order.
pub open spec fn flatten_reads(reads: Seq<Seq<u8>>) -> Seq<u8>
    decreases reads.len(),
{
    if reads.len() == 0 {
        Seq::empty()
    } else {
        reads[0] + flatten_reads(reads.skip(1))
    }
}

/// Chunking loses nothing: flattening the chunks gives back the data.
pub proof fn lemma_chunks_flatten(data: Seq<u8>, cs: int)
    requires
        cs >= 1,
    ensures
        flatten_reads(spec_chunks(data, cs)) == data,
    decreases data.len(),
{
    if data.len() == 0 {
        assert(flatten_reads(spec_chunks(data, cs)) =~= data);
    } else if data.len() <= cs {
        let c = spec_chunks(data, cs);
        assert(c == seq![data]);
        assert(c[0] == data);
        assert(c.skip(1) =~= Seq::<Seq<u8>>::empty());
        assert(flatten_reads(c) == data + flatten_reads(c.skip(1)));
        assert(flatten_reads(c) =~= data);
    } else {
        lemma_chunks_flatten(data.skip(cs), cs);
        let c = spec_chunks(data, cs);
        assert(c == seq![data.take(cs)] + spec_chunks(data.skip(cs), cs));
        assert(c[0] == data.take(cs));
        assert(c.skip(1) =~= spec_chunks(data.skip(cs), cs));
        assert(data.take(cs) + data.skip(cs) =~= data);
    }
}

/// Every chunk is non-empty and at most `cs` bytes.
pub proof fn lemma_chunks_shape(data: Seq<u8>, cs: int)
    requires
        cs >= 1,
    ensures
        forall|i: int|
            0 <= i < spec_chunks(data, cs).len() ==> 0 < (
            #[trigger] spec_chunks(data, cs)[i]).len() <= cs,
    decreases data.len(),
{
    if data.len() == 0 {
    } else if data.len() <= cs {
        assert(spec_chunks(data, cs) == seq![data]);
    } else {
        lemma_chunks_shape(data.skip(cs), cs);
        let c = spec_chunks(data, cs);
        let rest = spec_chunks(data.skip(cs), cs);
        assert(c == seq![data.take(cs)] + rest);
        assert(c.len() == 1 + rest.len());
        assert forall|i: int| 0 <= i < c.len() implies 0 < (#[trigger] c[i]).len() <= cs by {
            if i > 0 {
                assert(c[i] == rest[i - 1]);
            } else {
                assert(c[0] == data.take(cs));
            }
        }
    }
}

/// Read `data` as the streaming loop does: successive chunks of
/// `chunk_size` bytes, the last one shorter when the data runs out.
pub fn progressing_read(data: &Vec<u8>, chunk_size: usize) -> (chunks: Vec<Vec<u8>>)
    requires
        chunk_size >= 1,
    ensures
        chunks@.map_values(|c: Vec<u8>| c@) == spec_chunks(data@, chunk_size as int),
{
    let cs = chunk_size;
    let mut chunks: Vec<Vec<u8>> = Vec::new();
    let mut pos: usize = 0;
    proof {
        assert(data@.skip(0) =~= data@);
    }
    while pos < data.len()
        invariant
            cs >= 1,
            0 <= pos <= data@.len(),
            chunks@.map_values(|c: Vec<u8>| c@) + spec_chunks(data@.skip(pos as int), cs as int)
                =~= spec_chunks(data@, cs as int),
        decreases data@.len() - pos,
    {
        let k: usize = if data.len() - pos <= cs {
            data.len() - pos
        } else {
            cs
        };
        let piece = vstd::slice::slice_to_vec(
            vstd::slice::slice_subrange(data.as_slice(), pos, pos + k),
        );
        let ghost pre = chunks@.map_values(|c: Vec<u8>| c@);
        chunks.push(piece);
        proof {
            let tail = data@.skip(pos as int);
            assert(tail.len() == data@.len() - pos);
            if tail.len() <= cs {
                assert(spec_chunks(tail, cs as int) == seq![tail]);
                assert(data@.subrange(pos as int, (pos + k) as int) =~= tail);
            } else {
                assert(spec_chunks(tail, cs as int) == seq![tail.take(cs as int)]
                    + spec_chunks(tail.skip(cs as int), cs as int));
                assert(data@.subrange(pos as int, (pos + k) as int) =~= tail.take(cs as int));
                assert(tail.skip(cs as int) =~= data@.skip((pos + k) as int));
            }
            assert(chunks@.map_values(|c: Vec<u8>| c@) =~= pre.push(
                data@.subrange(pos as int, (pos + k) as int),
            ));
        }
        pos = pos + k;
    }
    proof {
        assert(data@.skip(pos as int) =~= Seq::<u8>::empty());
        assert(chunks@.map_values(|c: Vec<u8>| c@) =~= spec_chunks(data@, cs as int));
    }
    chunks
}

/// Stream one file's bytes as the sender does: cut the content into
/// chunks, account each one, and emit `Yield` events followed by `Done`.
/// Returns the wire chunks in order and the events.
pub fn send_file(
    content: &Vec<u8>,
    chunk_size: usize,
    done_files: u64,
    path_to_file: &Vec<u8>,
) -> (r: (Vec<Vec<u8>>, Vec<Progressing>))
    requires
        chunk_size >= 1,
    ensures
        r.0@.map_values(|c: Vec<u8>| c@) == spec_chunks(content@, chunk_size as int),
        events_monotonic(r.1@),
        r.1@.len() == r.0@.len() + 1,
        r.1@.last() is Done,
        events_track(r.1@.drop_last(), content@.len() as u64, content@.len() as u64),
{
    let total: u64 = content.len() as u64;
    let path_copy = vstd::slice::slice_to_vec(path_to_file.as_slice());
    let mut session = TransferSession::new(total, done_files, path_copy);
    let mut chunks: Vec<Vec<u8>> = Vec::new();
    let mut pos: usize = 0;
    proof {
        assert(content@.skip(0) =~= content@);
    }
    while pos < content.len()
        invariant
            chunk_size >= 1,
            0 <= pos <= content@.len(),
            total == content@.len(),
            session.wf(),
            session.total_bytes == total,
            session.done_bytes == pos,
            session.events@.len() == chunks@.len(),
            chunks@.map_values(|c: Vec<u8>| c@) + spec_chunks(
                content@.skip(pos as int),
                chunk_size as int,
            ) =~= spec_chunks(content@, chunk_size as int),
        decreases content@.len() - pos,
    {
        let k: usize = if content.len() - pos <= chunk_size {
            content.len() - pos
        } else {
            chunk_size
        };
        let piece = vstd::slice::slice_subrange(content.as_slice(), pos, pos + k);
        let n = session.push_chunk(piece);
        proof {
            assert(n == k);
        }
        let ghost pre = chunks@.map_values(|c: Vec<u8>| c@);
        chunks.push(vstd::slice::slice_to_vec(piece));
        proof {
            let cs = chunk_size as int;
            let tail = content@.skip(pos as int);
            if tail.len() <= cs {
                assert(spec_chunks(tail, cs) == seq![tail]);
                assert(content@.subrange(pos as int, (pos + k) as int) =~= tail);
            } else {
                assert(spec_chunks(tail, cs) == seq![tail.take(cs)] + spec_chunks(
                    tail.skip(cs),
                    cs,
                ));
                assert(content@.subrange(pos as int, (pos + k) as int) =~= tail.take(cs));
                assert(tail.skip(cs) =~= content@.skip((pos + k) as int));
            }
            assert(chunks@.map_values(|c: Vec<u8>| c@) =~= pre.push(
                content@.subrange(pos as int, (pos + k) as int),
            ));
        }
        pos = pos + k;
    }
    session.finish();
    proof {
        assert(content@.skip(pos as int) =~= Seq::<u8>::empty());
        assert(chunks@.map_values(|c: Vec<u8>| c@) =~= spec_chunks(
            content@,
            chunk_size as int,
        ));
    }
    (chunks, session.events)
}

/// What the receive loop yields from a sequence of transport reads, given
/// the announced size: `None` when the stream ends (an empty read or no
/// reads left) before `size` bytes arrived, else exactly the first `size`
/// bytes delivered.
pub open spec fn recv_result(size: int, reads: Seq<Seq<u8>>) -> Option<Seq<u8>>
    decreases reads.len(),
{
    if size <= 0 {
        Some(Seq::empty())
    } else if reads.len() == 0 {
        None
    } else if reads[0].len() == 0 {
        None
    } else {
        let n = min(reads[0].len() as int, size);
        match recv_result(size - n, reads.skip(1)) {
            Some(rest) => Some(reads[0].take(n) + rest),
            None => None,
        }
    }
}

/// Prepend already-received bytes to a receive outcome.
pub open spec fn prefix_recv(p: Seq<u8>, o: Option<Seq<u8>>) -> Option<Seq<u8>> {
    match o {
        Some(rest) => Some(p + rest),
        None => None,
    }
}

proof fn lemma_prefix_recv_assoc(a: Seq<u8>, b: Seq<u8>, o: Option<Seq<u8>>)
    ensures
        prefix_recv(a, prefix_recv(b, o)) == prefix_recv(a + b, o),
{
    match o {
        Some(rest) => {
            assert(a + (b + rest) =~= (a + b) + rest);
        },
        None => {},
    }
}

/// The size announced in the handshake is the authoritative framing
/// boundary: however the transport cuts the stream into reads — single
/// bytes, blocks, or oversized pieces — as long as every read is
/// non-empty and enough bytes arrive in total, the receive loop ends
/// with exactly the first `size` bytes delivered.
pub proof fn lemma_size_framing(size: int, reads: Seq<Seq<u8>>)
    requires
        0 <= size <= flatten_reads(reads).len(),
        forall|i: int| 0 <= i < reads.len() ==> (#[trigger] reads[i]).len() > 0,
    ensures
        recv_result(size, reads) == Some(flatten_reads(reads).take(size)),
    decreases reads.len(),
{
    if size <= 0 {
        assert(flatten_reads(reads).take(0) =~= Seq::<u8>::empty());
    } else {
        assert(reads.len() > 0);
        assert(reads[0].len() > 0);
        let n = min(reads[0].len() as int, size);
        let rest = reads.skip(1);
        assert forall|i: int| 0 <= i < rest.len() implies (#[trigger] rest[i]).len() > 0 by {
            assert(rest[i] == reads[i + 1]);
        }
        lemma_size_framing(size - n, rest);
        assert(reads[0].take(n) + flatten_reads(rest).take(size - n) =~= flatten_reads(
            reads,
        ).take(size));
    }
}

/// Receive one file as the recipient does, from transport reads delivered
/// in order: write-worthy bytes accumulate until exactly `handshake.size`
/// have arrived, then the content hash is recomputed and checked against
/// the handshake. An empty read or exhausted transport before the
/// boundary is a `NetworkIO` error; a hash mismatch is `FileInvalid`
/// (the received bytes are the caller's to keep or discard).
pub fn recv_file(
    handshake: &Handshake,
    reads: &Vec<Vec<u8>>,
    done_files: u64,
    path_to_file: &Vec<u8>,
) -> (r: Result<(Vec<u8>, Vec<Progressing>), ProtocolError>)
    requires
        handshake.size <= usize::MAX,
    ensures
        ({
            let rr = recv_result(
                handshake.size as int,
                reads@.map_values(|v: Vec<u8>| v@),
            );
            &&& (rr is None ==> (r matches Err(e) && e.kind == ErrorKind::NetworkIO))
            &&& (rr matches Some(bytes) ==> {
                if hex_of(digest_of(bytes)) == handshake.hash@ {
                    &&& r matches Ok(p)
                    &&& p.0@ == bytes
                    &&& p.0@.len() == handshake.size
                    &&& events_monotonic(p.1@)
                    &&& p.1@.len() >= 1
                    &&& p.1@.last() is Done
                    &&& events_track(p.1@.drop_last(), handshake.size, handshake.size)
                } else {
                    r matches Err(e) && e.kind == ErrorKind::FileInvalid
                }
            })
        }),
{
    let ghost rv = reads@.map_values(|v: Vec<u8>| v@);
    let path_copy = vstd::slice::slice_to_vec(path_to_file.as_slice());
    let mut session = TransferSession::new(handshake.size, done_files, path_copy);
    let mut out: Vec<u8> = Vec::new();
    let mut i: usize = 0;
    proof {
        assert(rv.skip(0) =~= rv);
        assert(prefix_recv(out@, recv_result(handshake.size as int, rv)) == recv_result(
            handshake.size as int,
            rv,
        )) by {
            match recv_result(handshake.size as int, rv) {
                Some(rest) => {
                    assert(out@ + rest =~= rest);
                },
                None => {},
            }
        }
    }
    while i < reads.len() && !session.complete()
        invariant
            rv == reads@.map_values(|v: Vec<u8>| v@),
            0 <= i <= reads@.len(),
            session.wf(),
            session.total_bytes == handshake.size,
            out@ == session.streamed@,
            recv_result(handshake.size as int, rv) == prefix_recv(
                out@,
                recv_result(
                    handshake.size - session.done_bytes,
                    rv.skip(i as int),
                ),
            ),
        decreases reads@.len() - i,
    {
        let chunk = &reads[i];
        let ghost rem = handshake.size - session.done_bytes;
        let ghost suffix = rv.skip(i as int);
        proof {
            assert(suffix[0] == rv[i as int]);
            assert(rv[i as int] == reads@[i as int]@);
        }
        if chunk.len() == 0 {
            proof {
                assert(recv_result(rem, suffix) is None);
            }
            return Err(ProtocolError::new(
                ErrorKind::NetworkIO,
                "stream ended before the announced size".to_string(),
            ));
        }
        let ghost pre_out = out@;
        let n = session.push_chunk(chunk.as_slice());
        let mut accepted = vstd::slice::slice_to_vec(
            vstd::slice::slice_subrange(chunk.as_slice(), 0, n),
        );
        let ghost accepted_view = accepted@;
        out.append(&mut accepted);
        i = i + 1;
        proof {
            let taken = chunk@.take(n as int);
            assert(accepted_view =~= taken);
            assert(out@ == session.streamed@);
            assert(suffix.skip(1) =~= rv.skip(i as int));
            assert(recv_result(rem, suffix) == prefix_recv(
                taken,
                recv_result(rem - n, rv.skip(i as int)),
            ));
            lemma_prefix_recv_assoc(pre_out, taken, recv_result(rem - n, rv.skip(i as int)));
        }
    }
    if session.complete() {
        proof {
            assert(recv_result(handshake.size - session.done_bytes, rv.skip(i as int))
                == Some(Seq::<u8>::empty()));
            assert(out@ + Seq::<u8>::empty() =~= out@);
            assert(recv_result(handshake.size as int, rv) == Some(out@));
        }
        let hash = content_hash(&out);
        if bytes_equal(&hash, &handshake.hash) {
            session.finish();
            Ok((out, session.events))
        } else {
            Err(ProtocolError::new(
                ErrorKind::FileInvalid,
                "content hash does not match the handshake".to_string(),
            ))
        }
    } else {
        proof {
            assert(rv.skip(i as int) =~= Seq::<Seq<u8>>::empty());
            assert(recv_result(handshake.size - session.done_bytes, rv.skip(i as int))
                is None);
        }
        Err(ProtocolError::new(
            ErrorKind::NetworkIO,
            "transport closed before the announced size".to_string(),
        ))
    }
}

/// Recompute the content hash of received bytes and hold it against the
/// handshake: succeeds exactly when they agree, else `FileInvalid`.
pub fn verify_content(content: &Vec<u8>, handshake: &Handshake) -> (r: Result<
    (),
    ProtocolError,
>)
    ensures
        r is Ok <==> hex_of(digest_of(content@)) == handshake.hash@,
        r matches Err(e) ==> e.kind == ErrorKind::FileInvalid,
{
    let hash = content_hash(content);
    if bytes_equal(&hash, &handshake.hash) {
        Ok(())
    } else {
        Err(ProtocolError::new(
            ErrorKind::FileInvalid,
            "content hash does not match the handshake".to_string(),
        ))
    }
}

/// Map the outcome of one timeout-wrapped step: a completed step passes
/// its value through; an expired timer is the distinguished
/// `TimeoutExpired` error, so callers can tell "nothing happened" from
/// "something broke".
pub fn timeout_result<T>(outcome: Option<T>) -> (r: Result<T, ProtocolError>)
    ensures
        outcome matches Some(v) ==> r matches Ok(w) && w == v,
        outcome is None ==> (r matches Err(e) && e.kind == ErrorKind::TimeoutExpired),
{
    match outcome {
        Some(v) => Ok(v),
        None => Err(ProtocolError::new(
            ErrorKind::TimeoutExpired,
            "operation timed out".to_string(),
        )),
    }
}

/// Everything one loopback full-copy transfer produced.
#[derive(Debug)]
pub struct TransferOutcome {
    /// The handshake as the recipient decoded it.
    pub handshake: Handshake,
    /// The received, verified file content.
    pub output: Vec<u8>,
    /// Progress events of the sending side.
    pub sender_events: Vec<Progressing>,
    /// Progress events of the receiving side.
    pub recipient_events: Vec<Progressing>,
}

/// One complete full-copy transfer over an in-memory loopback: handshake
/// construction, encoding and decoding, chunked streaming, size-framed
/// receiving, and hash verification. For any content, the output is
/// byte-identical to the source and both hashes agree; it fails (with a
/// `Handshake` error, before any bytes move) exactly when the metadata
/// record exceeds the handshake buffer.
pub fn transfer(content: &Vec<u8>, path_to_file: &Vec<u8>, chunk_size: usize) -> (r: Result<
    TransferOutcome,
    ProtocolError,
>)
    requires
        chunk_size >= 1,
    ensures
        r is Ok <==> HANDSHAKE_OVERHEAD + 2 * DIGEST_LEN + spec_file_name(
            path_to_file@,
        ).len() <= HANDSHAKE_BUFFER_SIZE,
        r matches Err(e) ==> e.kind == ErrorKind::Handshake,
        r matches Ok(o) ==> {
            &&& o.output@ == content@
            &&& o.handshake.size == content@.len()
            &&& o.handshake.hash@ == hex_of(digest_of(content@))
            &&& hex_of(digest_of(o.output@)) == o.handshake.hash@
            &&& o.handshake.file_name@ == spec_file_name(path_to_file@)
            &&& events_monotonic(o.sender_events@)
            &&& o.sender_events@.len() >= 1 && o.sender_events@.last() is Done
            &&& events_track(
                o.sender_events@.drop_last(),
                content@.len() as u64,
                content@.len() as u64,
            )
            &&& events_monotonic(o.recipient_events@)
            &&& o.recipient_events@.len() >= 1 && o.recipient_events@.last() is Done
            &&& events_track(
                o.recipient_events@.drop_last(),
                content@.len() as u64,
                content@.len() as u64,
            )
        },
{
    let file_name = crate::handshake::get_file_name_from_as_ref_path(path_to_file);
    let hash = content_hash(content);
    let handshake = Handshake { hash, size: content.len() as u64, file_name };
    let encoded = match handshake.encode() {
        Ok(v) => v,
        Err(e) => {
            return Err(e);
        },
    };
    let decoded = match Handshake::decode(&encoded) {
        Ok(h) => h,
        Err(e) => {
            proof {
                assert(false);
            }
            return Err(e);
        },
    };
    proof {
        crate::handshake::lemma_handshake_encode_injective(decoded, handshake);
    }
    let (chunks, sender_events) = send_file(content, chunk_size, 0, path_to_file);
    proof {
        let cv = chunks@.map_values(|c: Vec<u8>| c@);
        lemma_chunks_flatten(content@, chunk_size as int);
        lemma_chunks_shape(content@, chunk_size as int);
        lemma_size_framing(content@.len() as int, cv);
        assert(flatten_reads(cv).take(content@.len() as int) =~= content@);
    }
    match recv_file(&decoded, &chunks, 0, path_to_file) {
        Ok(p) => {
            let (output, recipient_events) = p;
            Ok(TransferOutcome { handshake: decoded, output, sender_events, recipient_events })
        },
        Err(e) => {
            proof {
                assert(false);
            }
            Err(e)
        },
    }
}

} // verus!
