//! A single-process log-forwarding pipeline: a byte stream is reassembled
//! into newline-delimited, size-bounded records and replicated to an ordered
//! list of sinks, with a bounded per-sink queue that retries failed writes a
//! limited number of times before dropping a record.

mod multiwriter;
mod queuewriter;
mod reader;
mod writer;
mod writer_aws;
mod writer_lines;
mod writer_newrelic;

pub use multiwriter::MultiWriter;
pub use queuewriter::{deliver_with_retry, QueueWriter};
pub use reader::{AsyncLogReader, BrokenReader, MemReader};
pub use writer::{AsyncLogWriter, LogEvent, MemoryWriter, ScriptedWriter, WriteAttempt};
pub use writer_aws::{AWSArgs, AWSLogsWriter};
pub use writer_lines::{split_chunk, LinesWriter};
pub use writer_newrelic::{NewRelicArgs, NewRelicRegion, NewRelicWriter};

use vstd::prelude::*;

verus! {

/// Errors surfaced by the pipeline stages.
///
/// - `ReadFailed`: the input source failed; fatal to the read loop.
/// - `WriteFailed`: a sink's write attempt failed.
/// - `QueueClosed`: an enqueue was attempted after the queue's consumer has
///   gone away; fatal to the caller.
#[derive(Clone, Copy, Debug, PartialEq, Eq, Structural)]
pub enum LogError {
    ReadFailed,
    WriteFailed,
    QueueClosed,
}

/// The configuration values the pipeline core consumes: the forced-flush
/// threshold, the per-remote-sink mailbox bound, the per-record retry
/// budget, and the remote-sink options.
pub struct OutlogArgs {
    pub aws: AWSArgs,
    pub newrelic: NewRelicArgs,
    pub max_line_size: usize,
    pub max_memory_items: usize,
    pub max_retries: u32,
}

/// Drive the pipeline: read chunks from `reader` and push each non-empty
/// one through `writer` until the source signals end of stream, stamping
/// every write with the capture time of its read. The first error from
/// either side terminates the loop and is propagated.
///
/// On success the source is exhausted and the writer has recorded one
/// accepted attempt per chunk whose payloads, concatenated in order,
/// reproduce the consumed stream; an empty stream reaches no sink at all.
pub fn read_and_write_loop<R: AsyncLogReader, W: AsyncLogWriter>(
    reader: &mut R,
    writer: &mut W,
) -> (r: Result<(), LogError>)
    ensures
        ({
            let h0 = old(writer).history();
            let h1 = final(writer).history();
            let appended = h1.skip(h0.len() as int);
            &&& h1 == h0 + appended
            &&& h1.take(h0.len() as int) == h0
            &&& writer::payloads(appended).flatten() + final(reader).stream() == old(
                reader,
            ).stream()
            &&& forall|i: int| 0 <= i < appended.len() - 1 ==> (#[trigger] appended[i]).ok
            &&& (r is Ok ==> final(reader).stream().len() == 0 && (forall|i: int|
                0 <= i < appended.len() ==> (#[trigger] appended[i]).ok))
            &&& (old(reader).stream().len() == 0 ==> h1 == h0)
        }),
{
    let ghost h0 = old(writer).history();
    let ghost s_init = old(reader).stream();
    let ghost mut atts: Seq<WriteAttempt> = Seq::empty();
    let mut time: u64 = 0;
    proof {
        assert(h0 + atts =~= h0);
        assert(writer::payloads(atts) =~= Seq::<Seq<u8>>::empty());
        assert(writer::payloads(atts).flatten() + reader.stream() =~= s_init);
    }
    loop
        invariant
            h0 == old(writer).history(),
            s_init == old(reader).stream(),
            writer.history() == h0 + atts,
            forall|i: int| 0 <= i < atts.len() ==> (#[trigger] atts[i]).ok,
            writer::payloads(atts).flatten() + reader.stream() == s_init,
            s_init.len() == 0 ==> atts.len() == 0,
        decreases reader.stream().len(),
    {
        let ghost stream_before = reader.stream();
        let res = reader.read_logs(&mut time);
        match res {
            Ok(chunk) => {
                if chunk.len() == 0 {
                    proof {
                        assert(reader.stream().len() == 0);
                        assert(writer::payloads(atts).flatten() + reader.stream()
                            =~= writer::payloads(atts).flatten());
                        assert((h0 + atts).skip(h0.len() as int) =~= atts);
                        assert((h0 + atts).take(h0.len() as int) =~= h0);
                        if s_init.len() == 0 {
                            assert(h0 + atts =~= h0);
                        }
                    }
                    return Ok(());
                }
                let res2 = writer.write_logs(time, chunk.as_slice());
                proof {
                    let att = WriteAttempt { time, payload: chunk@, ok: res2 is Ok };
                    assert(writer.history() == (h0 + atts).push(att));
                    assert((h0 + atts).push(att) =~= h0 + atts.push(att));
                    assert(writer::payloads(atts.push(att)) =~= writer::payloads(atts).push(
                        chunk@,
                    ));
                    writer::payloads(atts).lemma_flatten_push(chunk@);
                    assert(chunk@ + reader.stream() =~= stream_before);
                    assert(writer::payloads(atts).push(chunk@).flatten() + reader.stream()
                        =~= writer::payloads(atts).flatten() + (chunk@ + reader.stream()));
                    atts = atts.push(att);
                }
                match res2 {
                    Ok(_) => {
                    },
                    Err(e) => {
                        proof {
                            assert((h0 + atts).skip(h0.len() as int) =~= atts);
                            assert((h0 + atts).take(h0.len() as int) =~= h0);
                            assert(s_init.len() > 0);
                        }
                        return Err(e);
                    },
                }
            },
            Err(e) => {
                proof {
                    assert((h0 + atts).skip(h0.len() as int) =~= atts);
                    assert((h0 + atts).take(h0.len() as int) =~= h0);
                    if s_init.len() == 0 {
                        assert(h0 + atts =~= h0);
                    }
                }
                return Err(e);
            },
        }
    }
}

} // verus!
