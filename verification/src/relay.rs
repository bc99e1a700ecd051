//! The output relay: a per-session loop that reads raw bytes from the PTY,
//! decodes them permissively to text, and forwards each chunk to a
//! caller-supplied sink, in read order, until end-of-stream or a read error.

use vstd::prelude::*;
use vstd::slice::slice_subrange;

verus! {

/// The text that permissive UTF-8 decoding yields for a byte sequence;
/// a function of the bytes alone.
pub uninterp spec fn lossy_of(bytes: Seq<u8>) -> Seq<char>;

/// The readable end of a PTY, held opaquely: the underlying handle is a boxed
/// reader that the verifier cannot model.
#[verifier::external_body]
pub struct PtyReader {
    pub(crate) inner: Box<dyn std::io::Read + Send>,
}

/// Relies on std::io::Read::read through the PTY reader handle: on success
/// the count of bytes read never exceeds the buffer's length, and the buffer
/// keeps its length. Which bytes arrive depends on the shell process, so
/// nothing is claimed of them.
#[verifier::external_body]
fn read_chunk(r: &mut PtyReader, buf: &mut Vec<u8>) -> (res: Result<usize, ()>)
    ensures
        final(buf)@.len() == old(buf)@.len(),
        res matches Ok(n) ==> n <= final(buf)@.len(),
{
    match r.inner.read(buf.as_mut_slice()) {
        Ok(n) => Ok(n),
        Err(_) => Err(()),
    }
}

/// Relies on String::from_utf8_lossy: the result depends on the bytes alone;
/// invalid sequences are replaced, the call never fails.
#[verifier::external_body]
fn lossy_decode(bytes: &[u8]) -> (s: String)
    ensures
        s@ == lossy_of(bytes@),
{
    String::from_utf8_lossy(bytes).into_owned()
}

/// One observed outcome of a read from the PTY's output stream.
pub enum ReadEvent {
    /// A positive read: the bytes that arrived.
    Chunk(Vec<u8>),
    /// A zero-byte read: the stream ended because the shell exited.
    Eof,
    /// A read error: the relay stops without forwarding anything further.
    Failed,
}

/// The bytes of a chunk event; empty for the other events.
pub open spec fn chunk_data(e: ReadEvent) -> Seq<u8> {
    match e {
        ReadEvent::Chunk(b) => b@,
        _ => Seq::<u8>::empty(),
    }
}

/// The text chunks the relay forwards to the sink, in order, for a given
/// sequence of read outcomes: one decoded chunk per positive read, stopping
/// at the first end-of-stream or error.
pub open spec fn delivered(events: Seq<ReadEvent>) -> Seq<Seq<char>>
    decreases events.len(),
{
    if events.len() == 0 {
        Seq::<Seq<char>>::empty()
    } else if events[0] is Chunk {
        seq![lossy_of(chunk_data(events[0]))] + delivered(events.drop_first())
    } else {
        Seq::<Seq<char>>::empty()
    }
}

/// The relay's decision logic on a given sequence of read outcomes: exactly
/// the chunks it would hand to the sink, in order.
pub fn relay_plan(events: &Vec<ReadEvent>) -> (out: Vec<String>)
    ensures
        out@.map_values(|s: String| s@) == delivered(events@),
{
    let mut out: Vec<String> = Vec::new();
    let mut i: usize = 0;
    proof {
        assert(events@.skip(0) =~= events@);
        assert(out@.map_values(|s: String| s@) =~= Seq::<Seq<char>>::empty());
    }
    while i < events.len()
        invariant
            i <= events@.len(),
            forall|j: int| 0 <= j < i ==> events@[j] is Chunk,
            delivered(events@) == out@.map_values(|s: String| s@) + delivered(events@.skip(i as int)),
        decreases events@.len() - i,
    {
        let ghost rest = events@.skip(i as int);
        proof {
            assert(rest[0] == events@[i as int]);
            assert(rest.drop_first() =~= events@.skip(i + 1));
        }
        match &events[i] {
            ReadEvent::Chunk(b) => {
                let text = lossy_decode(b.as_slice());
                let ghost out_pre = out@;
                out.push(text);
                proof {
                    assert(delivered(rest) == seq![lossy_of(chunk_data(events@[i as int]))]
                        + delivered(events@.skip(i + 1)));
                    assert(out@.map_values(|s: String| s@)
                        =~= out_pre.map_values(|s: String| s@) + seq![lossy_of(chunk_data(events@[i as int]))]);
                }
            },
            _ => {
                proof {
                    assert(delivered(rest) =~= Seq::<Seq<char>>::empty());
                    assert(delivered(events@) =~= out@.map_values(|s: String| s@));
                }
                return out;
            },
        }
        i += 1;
    }
    proof {
        assert(events@.skip(events@.len() as int) =~= Seq::<ReadEvent>::empty());
        assert(delivered(events@) =~= out@.map_values(|s: String| s@));
    }
    out
}

/// Each chunk of output is forwarded exactly once and never dropped: while
/// the stream keeps yielding data, the relay hands the sink one decoded chunk
/// per read, in read order, with nothing duplicated and nothing lost.
pub proof fn lemma_relay_exactly_once(events: Seq<ReadEvent>)
    requires
        forall|j: int| 0 <= j < events.len() ==> events[j] is Chunk,
    ensures
        delivered(events).len() == events.len(),
        forall|j: int| 0 <= j < events.len()
            ==> delivered(events)[j] == lossy_of(chunk_data(events[j])),
    decreases events.len(),
{
    if events.len() > 0 {
        lemma_relay_exactly_once(events.drop_first());
        assert forall|j: int| 0 <= j < events.len()
            implies delivered(events)[j] == lossy_of(chunk_data(events[j])) by {
            if j > 0 {
                assert(delivered(events)[j] == delivered(events.drop_first())[j - 1]);
                assert(events.drop_first()[j - 1] == events[j]);
            }
        }
    }
}

/// Output ordering: everything read while the first command ran is delivered
/// before anything read afterwards — the relay never reorders chunks.
pub proof fn lemma_relay_keeps_order(first: Seq<ReadEvent>, rest: Seq<ReadEvent>)
    requires
        forall|j: int| 0 <= j < first.len() ==> first[j] is Chunk,
    ensures
        delivered(first + rest) == delivered(first) + delivered(rest),
    decreases first.len(),
{
    if first.len() == 0 {
        assert(first + rest =~= rest);
        assert(delivered(first) + delivered(rest) =~= delivered(rest));
    } else {
        assert((first + rest)[0] == first[0]);
        assert((first + rest).drop_first() =~= first.drop_first() + rest);
        lemma_relay_keeps_order(first.drop_first(), rest);
        assert(delivered(first + rest) =~= delivered(first) + delivered(rest));
    }
}

fn make_buffer(n: usize) -> (buf: Vec<u8>)
    ensures
        buf@.len() == n,
{
    let mut buf: Vec<u8> = Vec::new();
    while buf.len() < n
        invariant
            buf@.len() <= n,
        decreases n - buf@.len(),
    {
        buf.push(0u8);
    }
    buf
}

/// Run one session's relay: read up to 8 KiB per iteration, decode the bytes
/// permissively, and invoke the sink with the session id and the chunk's
/// text. A zero-byte read (the shell exited) or a read error ends the relay;
/// nothing is forwarded for a failed read.
pub fn relay_session<F: Fn(String, String) + Send + 'static>(reader: PtyReader, id: String, sink: F)
    requires
        forall|args: (String, String)| #[trigger] sink.requires(args),
{
    let mut reader = reader;
    let mut buf = make_buffer(8192);
    // The counter only satisfies the termination check; at one read per
    // iteration it cannot run out in practice.
    let mut fuel: u64 = u64::MAX;
    while fuel > 0
        invariant
            buf@.len() == 8192,
            forall|args: (String, String)| #[trigger] sink.requires(args),
        decreases fuel,
    {
        fuel = fuel - 1;
        match read_chunk(&mut reader, &mut buf) {
            Ok(n) => {
                if n == 0 {
                    return ;
                }
                let part = slice_subrange(buf.as_slice(), 0, n);
                let text = lossy_decode(part);
                sink(id.clone(), text);
            },
            Err(_) => {
                return ;
            },
        }
    }
}

} // verus!
