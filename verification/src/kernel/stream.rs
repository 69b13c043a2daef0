//! The byte streams handed to modules: a child's stdout or stderr, an HTTP
//! response body, a child's stdin. Waiting on a channel is the host's work;
//! what a read or a write answers is decided here.
use vstd::prelude::*;
use crate::text::{owned, push_str, string_of};

verus! {

/// The call did not fail; it has nothing to report yet. Retryable.
pub const PENDING: u32 = 504;

/// The transport failed. Not retryable, and not an HTTP status: a peer
/// answering 504 would otherwise look like [`PENDING`].
pub const TRANSPORT_FAILED: u32 = 502;

/// An error handed back to a module: a code and a message.
pub struct KernelError {
    pub code: u32,
    pub message: String,
}

/// An error with the given code and message.
pub fn err(code: u32, message: String) -> (r: KernelError)
    ensures
        r.code == code,
        r.message@ == message@,
{
    KernelError { code, message }
}

/// How many of the held bytes `h` a read of at most `max` takes.
pub open spec fn cut(h: Seq<u8>, max: int) -> int {
    if max < h.len() {
        max
    } else {
        h.len() as int
    }
}

/// A receive end plus whatever the reader has not asked for yet.
///
/// A read asks for at most `max` bytes, but the sender decides chunk sizes;
/// the part of a chunk beyond `max` is held here for the next read rather
/// than discarded.
pub struct Incoming<R> {
    pub rx: R,
    leftover: Vec<u8>,
}

impl<R> Incoming<R> {
    /// The bytes held back from an earlier oversized chunk.
    pub closed spec fn held(&self) -> Seq<u8> {
        self.leftover@
    }

    /// The receive end.
    pub closed spec fn receiver(&self) -> R {
        self.rx
    }

    pub fn new(rx: R) -> (r: Self)
        ensures
            r.receiver() == rx,
            r.held() == Seq::<u8>::empty(),
    {
        Incoming { rx, leftover: Vec::new() }
    }

    /// Bytes held back from an earlier oversized chunk, up to `max`; `None`
    /// when nothing is held. What is handed out and what stays held are,
    /// together, what was held before.
    pub fn drain(&mut self, max: usize) -> (r: Option<Vec<u8>>)
        ensures
            final(self).receiver() == old(self).receiver(),
            old(self).held().len() == 0 ==> r is None && *final(self) == *old(self),
            old(self).held().len() > 0 ==> final(self).held() == old(self).held().subrange(
                cut(old(self).held(), max as int),
                old(self).held().len() as int,
            ),
            old(self).held().len() > 0 ==> (r matches Some(d) && d@ == old(self).held().subrange(
                0,
                if max < old(self).held().len() {
                    max as int
                } else {
                    old(self).held().len() as int
                },
            ) && d@ + final(self).held() == old(self).held()),
    {
        if self.leftover.len() == 0 {
            return None;
        }
        let n = if max < self.leftover.len() {
            max
        } else {
            self.leftover.len()
        };
        let ghost before = self.leftover@;
        let mut out: Vec<u8> = Vec::new();
        let mut rest: Vec<u8> = Vec::new();
        let mut i: usize = 0;
        while i < self.leftover.len()
            invariant
                i <= self.leftover@.len(),
                self.leftover@ == before,
                n <= before.len(),
                out@ == before.subrange(0, if i < n { i as int } else { n as int }),
                rest@ == if i <= n { Seq::<u8>::empty() } else { before.subrange(n as int, i as int) },
            decreases self.leftover.len() - i,
        {
            if i < n {
                out.push(self.leftover[i]);
            } else {
                rest.push(self.leftover[i]);
            }
            proof {
                if i < n {
                    assert(out@ =~= before.subrange(0, i + 1));
                } else if i == n {
                    assert(rest@ =~= before.subrange(n as int, i + 1));
                } else {
                    assert(rest@ =~= before.subrange(n as int, i + 1));
                }
            }
            i = i + 1;
        }
        self.leftover = rest;
        proof {
            if before.len() == n {
                assert(self.leftover@ =~= before.subrange(n as int, n as int));
            }
            assert(out@ + self.leftover@ =~= before);
            assert(self.leftover@ =~= before.subrange(n as int, before.len() as int));
        }
        Some(out)
    }

    /// Hands back at most `max` bytes of `data` and holds the rest, after
    /// whatever was held before.
    pub fn split(&mut self, data: Vec<u8>, max: usize) -> (r: Vec<u8>)
        ensures
            final(self).receiver() == old(self).receiver(),
            data@.len() <= max ==> r@ == data@ && final(self).held() == old(self).held(),
            data@.len() > max ==> r@ == data@.subrange(0, max as int) && final(self).held()
                == old(self).held() + data@.subrange(max as int, data@.len() as int),
    {
        if data.len() <= max {
            return data;
        }
        let ghost h = self.leftover@;
        let mut out: Vec<u8> = Vec::new();
        let mut i: usize = 0;
        while i < data.len()
            invariant
                i <= data@.len(),
                max < data@.len(),
                self.rx == old(self).rx,
                out@ == data@.subrange(0, if i < max { i as int } else { max as int }),
                self.leftover@ == h + if i <= max {
                    Seq::<u8>::empty()
                } else {
                    data@.subrange(max as int, i as int)
                },
            decreases data.len() - i,
        {
            if i < max {
                out.push(data[i]);
                assert(out@ =~= data@.subrange(0, i + 1));
            } else {
                self.leftover.push(data[i]);
                assert(self.leftover@ =~= h + data@.subrange(max as int, i + 1));
            }
            i = i + 1;
        }
        out
    }
}

/// One of the streams a module can hold.
pub enum KernelStream<R, F, W> {
    /// A child process's stdout or stderr. End of stream and "nothing yet"
    /// are both an empty read; waiting on the process tells them apart.
    Reader(Incoming<R>),
    /// An HTTP response body: it can fail mid-stream, and an empty read
    /// means the body is complete, so "nothing yet" is [`PENDING`].
    Fallible(Incoming<F>),
    /// A child's stdin.
    Writer(W),
    /// A stream already taken or closed: reads are empty, writes refused.
    Closed,
}

/// How a read begins.
pub enum ReadStart {
    /// The read is answered now.
    Answer(Result<Vec<u8>, KernelError>),
    /// Nothing is held: the host waits on the channel and hands the outcome
    /// to [`finish_reader`] or [`finish_fallible`].
    Wait,
}

/// What waiting on a channel gave.
pub enum Received<T> {
    Item(T),
    TimedOut,
    Disconnected,
}

/// The first step of `read(max)` on a stream.
///
/// `read(0)` is refused rather than answered empty, which on a fallible
/// stream would say the response is over. Held bytes are answered first.
pub fn read_start<R, F, W>(stream: &mut KernelStream<R, F, W>, max: u32) -> (r: ReadStart)
    ensures
        max == 0 ==> (r matches ReadStart::Answer(Err(e)) && e.code == 400 && e.message@
            == "read(0) requests no bytes"@) && *final(stream) == *old(stream),
        max > 0 ==> match *old(stream) {
            KernelStream::Reader(i) => if i.held().len() == 0 {
                r is Wait && *final(stream) == *old(stream)
            } else {
                (r matches ReadStart::Answer(Ok(d)) && d@ == i.held().subrange(0, cut(i.held(), max as int)))
                    && (*final(stream) matches KernelStream::Reader(j) && j.receiver() == i.receiver() && j.held()
                    == i.held().subrange(cut(i.held(), max as int), i.held().len() as int))
            },
            KernelStream::Fallible(i) => if i.held().len() == 0 {
                r is Wait && *final(stream) == *old(stream)
            } else {
                (r matches ReadStart::Answer(Ok(d)) && d@ == i.held().subrange(0, cut(i.held(), max as int)))
                    && (*final(stream) matches KernelStream::Fallible(j) && j.receiver() == i.receiver()
                    && j.held() == i.held().subrange(cut(i.held(), max as int), i.held().len() as int))
            },
            KernelStream::Writer(_) => r matches ReadStart::Answer(Err(e)) && e.code == 400
                && e.message@ == "cannot read from a write-only stream"@ && *final(stream) == *old(stream),
            KernelStream::Closed => r matches ReadStart::Answer(Ok(d)) && d@.len() == 0 && *final(stream)
                == *old(stream),
        },
{
    if max == 0 {
        return ReadStart::Answer(Err(err(400, owned("read(0) requests no bytes"))));
    }
    let m = max as usize;
    match stream {
        KernelStream::Reader(incoming) => match incoming.drain(m) {
            Some(held) => ReadStart::Answer(Ok(held)),
            None => ReadStart::Wait,
        },
        KernelStream::Fallible(incoming) => match incoming.drain(m) {
            Some(held) => ReadStart::Answer(Ok(held)),
            None => ReadStart::Wait,
        },
        KernelStream::Writer(_) => ReadStart::Answer(
            Err(err(400, owned("cannot read from a write-only stream"))),
        ),
        KernelStream::Closed => ReadStart::Answer(Ok(Vec::new())),
    }
}

/// The answer of a read on a process stream, after waiting: a chunk is cut
/// to `max` with the rest held; a timeout and a disconnect are both empty.
pub fn finish_reader<R>(incoming: &mut Incoming<R>, max: u32, received: Received<Vec<u8>>) -> (r: Vec<u8>)
    ensures
        match received {
            Received::Item(d) => (d@.len() <= max ==> r@ == d@) && (d@.len() > max ==> r@
                == d@.subrange(0, max as int)),
            _ => r@.len() == 0,
        },
        final(incoming).receiver() == old(incoming).receiver(),
        final(incoming).held() == match received {
            Received::Item(d) => if d@.len() > max {
                old(incoming).held() + d@.subrange(max as int, d@.len() as int)
            } else {
                old(incoming).held()
            },
            _ => old(incoming).held(),
        },
{
    match received {
        Received::Item(d) => incoming.split(d, max as usize),
        _ => Vec::new(),
    }
}

/// The answer of a read on an HTTP body, after waiting: a chunk is cut to
/// `max` with the rest held; a failure is [`TRANSPORT_FAILED`]; a timeout
/// is [`PENDING`]; a disconnect means the body is complete.
pub fn finish_fallible<F>(incoming: &mut Incoming<F>, max: u32, received: Received<Result<Vec<u8>, String>>) -> (r: Result<Vec<u8>, KernelError>)
    ensures
        match received {
            Received::Item(Ok(d)) => r matches Ok(x) && (d@.len() <= max ==> x@ == d@) && (d@.len()
                > max ==> x@ == d@.subrange(0, max as int)),
            Received::Item(Err(m)) => r matches Err(e) && e.code == TRANSPORT_FAILED && e.message@ == m@,
            Received::TimedOut => r matches Err(e) && e.code == PENDING && e.message@ == "no data yet"@,
            Received::Disconnected => r matches Ok(x) && x@.len() == 0,
        },
        final(incoming).receiver() == old(incoming).receiver(),
        final(incoming).held() == match received {
            Received::Item(Ok(d)) => if d@.len() > max {
                old(incoming).held() + d@.subrange(max as int, d@.len() as int)
            } else {
                old(incoming).held()
            },
            _ => old(incoming).held(),
        },
{
    match received {
        Received::Item(Ok(d)) => Ok(incoming.split(d, max as usize)),
        Received::Item(Err(m)) => Err(err(TRANSPORT_FAILED, m)),
        Received::TimedOut => Err(err(PENDING, owned("no data yet"))),
        Received::Disconnected => Ok(Vec::new()),
    }
}

/// What a read answers when its handle names no stream (the table's error
/// reads `e`): `read(0)` is refused first, whatever the handle; otherwise
/// the stream is not found.
pub fn read_missing_stream(max: u32, e: &str) -> (r: KernelError)
    ensures
        max == 0 ==> r.code == 400 && r.message@ == "read(0) requests no bytes"@,
        max > 0 ==> r.code == 404 && r.message@ == "no such stream: "@ + e@,
{
    if max == 0 {
        return err(400, owned("read(0) requests no bytes"));
    }
    no_such_stream(e)
}

/// A handle naming no stream, whose lookup error reads `e`.
pub fn no_such_stream(e: &str) -> (r: KernelError)
    ensures
        r.code == 404,
        r.message@ == "no such stream: "@ + e@,
{
    let mut b: Vec<char> = Vec::new();
    push_str(&mut b, "no such stream: ");
    push_str(&mut b, e);
    err(404, string_of(b.as_slice()))
}

/// A write to a child's stdin that failed with `e`.
pub fn write_failed(e: &str) -> (r: KernelError)
    ensures
        r.code == 500,
        r.message@ == "write failed: "@ + e@,
{
    let mut b: Vec<char> = Vec::new();
    push_str(&mut b, "write failed: ");
    push_str(&mut b, e);
    err(500, string_of(b.as_slice()))
}

/// Whether a write may go ahead: only a writer accepts bytes.
pub fn write_check<R, F, W>(stream: &KernelStream<R, F, W>) -> (r: Result<(), KernelError>)
    ensures
        match *stream {
            KernelStream::Writer(_) => r is Ok,
            KernelStream::Closed => r matches Err(e) && e.code == 400 && e.message@ == "stream is closed"@,
            _ => r matches Err(e) && e.code == 400 && e.message@ == "cannot write to a read-only stream"@,
        },
{
    match stream {
        KernelStream::Writer(_) => Ok(()),
        KernelStream::Closed => Err(err(400, owned("stream is closed"))),
        _ => Err(err(400, owned("cannot write to a read-only stream"))),
    }
}

} // verus!
