//! I/O traits used by this crate: a minimal byte reader and writer, so that
//! `&[u8]` and `Vec<u8>` can be used as proof buffers.

use vstd::prelude::*;

verus! {

/// A list specifying general categories of I/O error.
#[derive(Clone, Copy, Debug, PartialEq, Eq, Structural)]
pub enum ErrorKind {
    /// An operation could not be completed because an "end of file" was
    /// reached prematurely.
    UnexpectedEof,
    /// Invalid input parameter was passed.
    InvalidInput,
    /// An error not covered by any other variant.
    Other,
}

/// The error type for I/O operations.
#[derive(Debug)]
pub struct Error {
    kind: ErrorKind,
    desc: &'static str,
}

/// A specialised `Result` for I/O operations.
pub type Result<T> = core::result::Result<T, Error>;

impl Error {
    /// The category of this error.
    pub closed spec fn spec_kind(&self) -> ErrorKind {
        self.kind
    }

    /// The description this error was made with.
    pub closed spec fn description(&self) -> Seq<char> {
        self.desc@
    }

    /// Creates a new I/O error from a known kind and a static description.
    pub fn new(kind: ErrorKind, desc: &'static str) -> (e: Self)
        ensures
            e.spec_kind() == kind,
            e.description() == desc@,
    {
        Error { kind, desc }
    }

    /// Returns the corresponding [`ErrorKind`] for this error.
    pub fn kind(&self) -> (k: ErrorKind)
        ensures
            k == self.spec_kind(),
    {
        self.kind
    }

    /// The static description this error was made with.
    pub fn desc(&self) -> (d: &'static str)
        ensures
            d@ == self.description(),
    {
        self.desc
    }

    /// The description of this error, as `Display` would show it.
    pub fn to_string(&self) -> (s: String)
        ensures
            s@ == self.description(),
    {
        self.desc.to_string()
    }
}

/// The outcome that a fault plan holds for the `i`-th call from now:
/// `Some(e)` for a call that fails with `e`, `None` for one that succeeds.
/// Calls past the end of the plan succeed.
pub open spec fn fault_at(plan: Seq<Option<Error>>, i: int) -> Option<Error> {
    if 0 <= i < plan.len() {
        plan[i]
    } else {
        None
    }
}

/// The fault plan left after `k` calls.
pub open spec fn faults_after(plan: Seq<Option<Error>>, k: int) -> Seq<Option<Error>> {
    if k < plan.len() {
        plan.skip(k)
    } else {
        Seq::empty()
    }
}

/// One more call moves a fault plan on by one.
proof fn lemma_faults_after_one_more(plan: Seq<Option<Error>>, k: int)
    requires
        0 <= k,
    ensures
        faults_after(faults_after(plan, k), 1) == faults_after(plan, k + 1),
        fault_at(faults_after(plan, k), 0) == fault_at(plan, k),
{
    if k + 1 < plan.len() {
        assert(faults_after(faults_after(plan, k), 1) =~= faults_after(plan, k + 1));
    } else {
        assert(faults_after(faults_after(plan, k), 1) =~= faults_after(plan, k + 1));
    }
}

/// Whether `e` is the error that [`Read::read_exact`] reports when a read
/// produces nothing before the buffer is full.
pub open spec fn is_fill_error(e: Error) -> bool {
    &&& e.spec_kind() == ErrorKind::UnexpectedEof
    &&& e.description() == "failed to fill whole buffer"@
}

/// Whether `e` is the error that [`Write::write_all`] reports when a write
/// accepts nothing before the buffer is written.
pub open spec fn is_write_all_error(e: Error) -> bool {
    &&& e.spec_kind() == ErrorKind::Other
    &&& e.description() == "failed to write whole buffer"@
}

/// What [`Read::read_exact`] makes of one result of `read` on the non-empty
/// rest of its buffer: `Ok(n)` for `n > 0` bytes read goes on past them,
/// `Ok(0)` stops with the fill error, and the reader's error is handed on
/// as it is.
pub fn read_exact_step(read_result: Result<usize>) -> (step: Result<usize>)
    ensures
        match read_result {
            Ok(n) => if n == 0 {
                step matches Err(e) && is_fill_error(e)
            } else {
                step == Ok::<usize, Error>(n)
            },
            Err(e) => step == Err::<usize, Error>(e),
        },
{
    match read_result {
        Ok(0) => Err(Error::new(ErrorKind::UnexpectedEof, "failed to fill whole buffer")),
        Ok(n) => Ok(n),
        Err(e) => Err(e),
    }
}

/// What [`Write::write_all`] makes of one result of `write` on the
/// non-empty rest of its buffer: `Ok(n)` for `n > 0` bytes written goes on
/// past them, `Ok(0)` stops with the write-all error, and the sink's error
/// is handed on as it is.
pub fn write_all_step(write_result: Result<usize>) -> (step: Result<usize>)
    ensures
        match write_result {
            Ok(n) => if n == 0 {
                step matches Err(e) && is_write_all_error(e)
            } else {
                step == Ok::<usize, Error>(n)
            },
            Err(e) => step == Err::<usize, Error>(e),
        },
{
    match write_result {
        Ok(0) => Err(Error::new(ErrorKind::Other, "failed to write whole buffer")),
        Ok(n) => Ok(n),
        Err(e) => Err(e),
    }
}

/// The `Read` trait allows for reading bytes from a source.
///
/// A source may state what it holds, [`Read::remaining`]: the bytes that it
/// will still produce, in order. The contracts below speak of those bytes
/// only for a source that states them.
pub trait Read {
    /// The bytes that this source will still produce, in order, where the
    /// source states them.
    open spec fn remaining(&self) -> Option<Seq<u8>> {
        None
    }

    /// Whether `read` on this source never reports an error.
    open spec fn never_fails(&self) -> bool {
        false
    }

    /// What this source's calls of `read` will meet, in order, where the
    /// source states it: `Some(e)` for a call that fails with `e`, `None`
    /// for one that succeeds. Calls past the end of the plan succeed.
    open spec fn faults(&self) -> Option<Seq<Option<Error>>> {
        None
    }

    /// Whether each successful `read` on this source reads as many bytes as
    /// both the buffer and the bytes it states allow.
    open spec fn reads_fully(&self) -> bool {
        false
    }

    /// Pull some bytes from this source into the specified buffer, returning
    /// how many bytes were read.
    ///
    /// The `n` bytes read are the first `n` that the source held, put at the
    /// front of `buf`; `Ok(0)` on a non-empty buffer means that the source is
    /// exhausted, and an error consumes nothing from the source. A source that
    /// states what it holds leaves `buf` past the bytes read as it was; one
    /// that states its fault plan fails exactly as the plan says; one that
    /// reads fully reads as many bytes as fit.
    fn read(&mut self, buf: &mut [u8]) -> (r: Result<usize>)
        ensures
            final(buf)@.len() == old(buf)@.len(),
            final(self).never_fails() == old(self).never_fails(),
            final(self).remaining() is Some == old(self).remaining() is Some,
            old(self).never_fails() ==> r is Ok,
            r matches Ok(n) ==> n <= old(buf)@.len(),
            final(self).faults() is Some == old(self).faults() is Some,
            final(self).reads_fully() == old(self).reads_fully(),
            old(self).faults() matches Some(p) ==> {
                &&& final(self).faults() == Some(faults_after(p, 1))
                &&& match fault_at(p, 0) {
                    Some(e) => r == Err::<usize, Error>(e),
                    None => r is Ok,
                }
            },
            old(self).reads_fully() && old(self).remaining() is Some ==> (r matches Ok(n) ==> (n
                == old(buf)@.len() || n == old(self).remaining()->0.len())),
            old(self).remaining() matches Some(src) ==> {
                &&& r is Err ==> final(self).remaining() == Some(src)
                &&& r matches Ok(n) ==> {
                    &&& n <= src.len()
                    &&& final(buf)@.take(n as int) == src.take(n as int)
                    &&& final(buf)@.skip(n as int) == old(buf)@.skip(n as int)
                    &&& final(self).remaining() == Some(src.skip(n as int))
                    &&& (n == 0 && old(buf)@.len() > 0 ==> src.len() == 0)
                }
            },
    ;

    /// Read the exact number of bytes required to fill `buf`.
    ///
    /// It calls `read` on the unfilled rest of `buf` until that is empty, and
    /// makes of each result what [`read_exact_step`] does: it goes on past
    /// the bytes read, stops with the error [`is_fill_error`] describes when
    /// a read produces nothing, and stops with the reader's own error when a
    /// read fails. An empty `buf` is filled without a read. On success `buf`
    /// holds the next `buf.len()` bytes of the source; on any error some
    /// prefix of what was asked for is consumed. A source that never fails
    /// and holds too few bytes is consumed whole: its bytes go to the front
    /// of `buf`, and the rest of `buf` stays as it was. For a source that
    /// states its fault plan, the reads made are the first `k` of the plan:
    /// all but the last succeed, a failing last one is handed on as it is,
    /// and a source with enough bytes and no fault planned is read in full.
    fn read_exact(&mut self, buf: &mut [u8]) -> (r: Result<()>)
        ensures
            final(buf)@.len() == old(buf)@.len(),
            final(self).never_fails() == old(self).never_fails(),
            final(self).remaining() is Some == old(self).remaining() is Some,
            final(self).faults() is Some == old(self).faults() is Some,
            final(self).reads_fully() == old(self).reads_fully(),
            old(buf)@.len() == 0 ==> r is Ok && &*final(self) == &*old(self),
            old(self).faults() matches Some(p) ==> exists|k: int|
                #![trigger faults_after(p, k)]
                0 <= k && final(self).faults() == Some(faults_after(p, k)) && {
                    &&& forall|i: int| 0 <= i < k - 1 ==> #[trigger] fault_at(p, i) is None
                    &&& (k == 0 <==> old(buf)@.len() == 0)
                    &&& k > 0 && fault_at(p, k - 1) is Some ==> r == Err::<(), Error>(
                        fault_at(p, k - 1)->0,
                    )
                    &&& r matches Err(e) ==> is_fill_error(e) || (k > 0 && fault_at(p, k - 1) == Some(e))
                },
            old(self).remaining() matches Some(src) ==> (old(self).faults() matches Some(p) ==> (
            old(buf)@.len() <= src.len() && (forall|i: int| 0 <= i < p.len() ==> #[trigger] p[i] is None)
                ==> r is Ok)),
            old(self).remaining() matches Some(src) ==> {
                &&& r is Ok ==> {
                    &&& old(buf)@.len() <= src.len()
                    &&& final(buf)@ == src.take(old(buf)@.len() as int)
                    &&& final(self).remaining() == Some(src.skip(old(buf)@.len() as int))
                }
                &&& r is Err ==> exists|k: int|
                    0 <= k <= old(buf)@.len() && k <= src.len()
                        && #[trigger] final(self).remaining() == Some(src.skip(k))
                        && final(buf)@.take(k) == src.take(k)
                &&& old(self).never_fails() ==> (r is Ok <==> old(buf)@.len() <= src.len())
                &&& old(self).never_fails() && src.len() < old(buf)@.len() ==> {
                    &&& final(self).remaining() == Some(Seq::<u8>::empty())
                    &&& final(buf)@ == src + old(buf)@.skip(src.len() as int)
                }
            },
            old(self).never_fails() ==> (r matches Err(e) ==> is_fill_error(e)),
    {
        let ghost src0 = self.remaining();
        let ghost total = buf@.len();
        let ghost mut filled: Seq<u8> = Seq::empty();
        let ghost p0 = self.faults();
        let ghost mut calls: int = 0;
        let mut rest = buf;
        while rest.len() > 0
            invariant
                final(buf)@ == filled + final(rest)@,
                filled.len() + rest@.len() == total,
                total == old(buf)@.len(),
                src0 == old(self).remaining(),
                self.remaining() is Some == src0 is Some,
                src0 matches Some(src) ==> {
                    &&& filled.len() <= src.len()
                    &&& filled == src.take(filled.len() as int)
                    &&& self.remaining() == Some(src.skip(filled.len() as int))
                    &&& rest@ == old(buf)@.skip(filled.len() as int)
                },
                filled.len() == 0 ==> self == old(self),
                self.never_fails() == old(self).never_fails(),
                self.reads_fully() == old(self).reads_fully(),
                p0 == old(self).faults(),
                self.faults() is Some == p0 is Some,
                0 <= calls,
                total == 0 ==> calls == 0,
                filled.len() > 0 ==> calls > 0,
                p0 matches Some(p) ==> {
                    &&& self.faults() == Some(faults_after(p, calls))
                    &&& forall|i: int| 0 <= i < calls ==> #[trigger] fault_at(p, i) is None
                },
            decreases rest@.len(),
        {
            let ghost before = rest@;
            let res = self.read(&mut *rest);
            proof {
                assert(rest@.skip(0) =~= rest@);
                assert(before.skip(0) =~= before);
                if let Some(p) = p0 {
                    lemma_faults_after_one_more(p, calls);
                }
                calls = calls + 1;
            }
            match read_exact_step(res) {
                Ok(n) => {
                    let tmp = rest;
                    let (head, tail) = tmp.split_at_mut(n);
                    proof {
                        filled = filled + head@;
                    }
                    rest = tail;
                },
                Err(e) => {
                    proof {
                        assert((filled + final(rest)@).take(filled.len() as int) =~= filled);
                        if let Some(src) = src0 {
                            if self.never_fails() {
                                assert(filled =~= src);
                                assert(src.skip(src.len() as int) =~= Seq::<u8>::empty());
                            }
                        }
                    }
                    return Err(e);
                },
            }
        }
        Ok(())
    }
}

/// A trait for objects which are byte-oriented sinks.
///
/// A sink may state what it has accepted, [`Write::written`]: the bytes
/// written to it, in order. The contracts below speak of those bytes only
/// for a sink that states them.
pub trait Write {
    /// The bytes that this sink has accepted, in order, where the sink
    /// states them.
    open spec fn written(&self) -> Option<Seq<u8>> {
        None
    }

    /// Whether `write` on this sink always accepts at least one byte of a
    /// non-empty buffer, and `write` and `flush` never report an error.
    open spec fn never_fails(&self) -> bool {
        false
    }

    /// What this sink's calls of `write` will meet, in order, where the sink
    /// states it: `Some(e)` for a call that fails with `e`, `None` for one
    /// that succeeds. Calls past the end of the plan succeed.
    open spec fn faults(&self) -> Option<Seq<Option<Error>>> {
        None
    }

    /// Write a buffer into this writer, returning how many bytes were written.
    ///
    /// The `n` bytes written are the first `n` of `buf`; an error writes
    /// nothing. A sink that states its fault plan fails exactly as the plan
    /// says.
    fn write(&mut self, buf: &[u8]) -> (r: Result<usize>)
        ensures
            final(self).never_fails() == old(self).never_fails(),
            final(self).written() is Some == old(self).written() is Some,
            old(self).never_fails() ==> (r matches Ok(n) && (buf@.len() > 0 ==> n > 0)),
            r matches Ok(n) ==> n <= buf@.len(),
            final(self).faults() is Some == old(self).faults() is Some,
            old(self).faults() matches Some(p) ==> {
                &&& final(self).faults() == Some(faults_after(p, 1))
                &&& match fault_at(p, 0) {
                    Some(e) => r == Err::<usize, Error>(e),
                    None => r is Ok,
                }
            },
            old(self).written() matches Some(w) ==> {
                &&& r is Err ==> final(self).written() == Some(w)
                &&& r matches Ok(n) ==> final(self).written() == Some(w + buf@.take(n as int))
            },
    ;

    /// Flush this output stream, ensuring that all buffered contents reach
    /// their destination.
    fn flush(&mut self) -> (r: Result<()>)
        ensures
            final(self).never_fails() == old(self).never_fails(),
            final(self).written() == old(self).written(),
            final(self).faults() == old(self).faults(),
            old(self).never_fails() ==> r is Ok,
    ;

    /// Attempts to write an entire buffer into this writer.
    ///
    /// It calls `write` on the unwritten rest of `buf` until that is empty,
    /// and makes of each result what [`write_all_step`] does: it goes on past
    /// the bytes written, stops with the error [`is_write_all_error`]
    /// describes when a write accepts nothing, and stops with the sink's own
    /// error when a write fails. An empty `buf` is written without a write.
    /// On success the sink has accepted all of `buf`; on any error it has
    /// accepted some prefix of `buf`. For a sink that states its fault plan,
    /// the writes made are the first `k` of the plan: all but the last
    /// succeed, and a failing last one is handed on as it is.
    fn write_all(&mut self, buf: &[u8]) -> (r: Result<()>)
        ensures
            buf@.len() == 0 ==> r is Ok && &*final(self) == &*old(self),
            final(self).never_fails() == old(self).never_fails(),
            final(self).faults() is Some == old(self).faults() is Some,
            old(self).faults() matches Some(p) ==> exists|k: int|
                #![trigger faults_after(p, k)]
                0 <= k && final(self).faults() == Some(faults_after(p, k)) && {
                    &&& forall|i: int| 0 <= i < k - 1 ==> #[trigger] fault_at(p, i) is None
                    &&& (k == 0 <==> buf@.len() == 0)
                    &&& k > 0 && fault_at(p, k - 1) is Some ==> r == Err::<(), Error>(
                        fault_at(p, k - 1)->0,
                    )
                    &&& r matches Err(e) ==> is_write_all_error(e) || (k > 0 && fault_at(p, k - 1)
                        == Some(e))
                },
            final(self).written() is Some == old(self).written() is Some,
            old(self).written() matches Some(w) ==> {
                &&& r is Ok ==> final(self).written() == Some(w + buf@)
                &&& r is Err ==> exists|k: int|
                    0 <= k <= buf@.len() && #[trigger] final(self).written() == Some(w + buf@.take(k))
            },
            old(self).never_fails() ==> r is Ok,
    {
        let mut rest: &[u8] = buf;
        let ghost mut done: int = 0;
        let ghost w0 = self.written();
        let ghost p0 = self.faults();
        let ghost mut calls: int = 0;
        while rest.len() > 0
            invariant
                0 <= done <= buf@.len(),
                rest@ == buf@.skip(done),
                w0 == old(self).written(),
                self.written() is Some == w0 is Some,
                w0 matches Some(w) ==> self.written() == Some(w + buf@.take(done)),
                self.never_fails() == old(self).never_fails(),
                buf@.len() == 0 ==> self == old(self),
                p0 == old(self).faults(),
                self.faults() is Some == p0 is Some,
                0 <= calls,
                buf@.len() == 0 ==> calls == 0,
                done > 0 ==> calls > 0,
                p0 matches Some(p) ==> {
                    &&& self.faults() == Some(faults_after(p, calls))
                    &&& forall|i: int| 0 <= i < calls ==> #[trigger] fault_at(p, i) is None
                },
            decreases rest@.len(),
        {
            let res = self.write(rest);
            proof {
                if let Some(p) = p0 {
                    lemma_faults_after_one_more(p, calls);
                }
                calls = calls + 1;
            }
            match write_all_step(res) {
                Ok(n) => {
                    proof {
                        assert(buf@.take(done) + rest@.take(n as int) == buf@.take(done + n));
                        done = done + n;
                    }
                    rest = &rest[n..rest.len()];
                },
                Err(e) => return Err(e),
            }
        }
        proof {
            assert(buf@.take(done) == buf@);
        }
        Ok(())
    }
}

impl<'a> Read for &'a [u8] {
    /// A byte slice produces its own bytes.
    open spec fn remaining(&self) -> Option<Seq<u8>> {
        Some((**self)@)
    }

    open spec fn never_fails(&self) -> bool {
        true
    }

    /// No read of a byte slice fails.
    open spec fn faults(&self) -> Option<Seq<Option<Error>>> {
        Some(Seq::empty())
    }

    /// A read of a byte slice copies as many bytes as fit.
    open spec fn reads_fully(&self) -> bool {
        true
    }

    /// Copies as many bytes as fit into `buf` and advances past them.
    fn read(&mut self, buf: &mut [u8]) -> (r: Result<usize>)
        ensures
            r matches Ok(n) && n == if old(buf)@.len() < (**old(self))@.len() {
                old(buf)@.len()
            } else {
                (**old(self))@.len()
            },
    {
        let len = if buf.len() < self.len() {
            buf.len()
        } else {
            self.len()
        };
        let (a, b) = self.split_at(len);
        let mut i: usize = 0;
        while i < len
            invariant
                len <= buf@.len(),
                a@.len() == len,
                buf@.len() == old(buf)@.len(),
                i <= len,
                buf@.take(i as int) == a@.take(i as int),
                forall|j: int| len <= j < buf@.len() ==> buf@[j] == old(buf)@[j],
            decreases len - i,
        {
            buf[i] = a[i];
            proof {
                assert(buf@.take(i + 1) == a@.take(i + 1));
            }
            i = i + 1;
        }
        proof {
            assert(buf@.skip(len as int) =~= old(buf)@.skip(len as int));
        }
        *self = b;
        Ok(len)
    }
}

impl<'a, R: Read> Read for &'a mut R {
    /// A mutable reference produces what its referent produces.
    open spec fn remaining(&self) -> Option<Seq<u8>> {
        (**self).remaining()
    }

    open spec fn never_fails(&self) -> bool {
        (**self).never_fails()
    }

    open spec fn faults(&self) -> Option<Seq<Option<Error>>> {
        (**self).faults()
    }

    open spec fn reads_fully(&self) -> bool {
        (**self).reads_fully()
    }

    fn read(&mut self, buf: &mut [u8]) -> (r: Result<usize>) {
        (**self).read(buf)
    }
}

impl Write for Vec<u8> {
    /// A vector holds exactly the bytes written to it.
    open spec fn written(&self) -> Option<Seq<u8>> {
        Some(self@)
    }

    open spec fn never_fails(&self) -> bool {
        true
    }

    /// No write to a vector fails.
    open spec fn faults(&self) -> Option<Seq<Option<Error>>> {
        Some(Seq::empty())
    }

    /// Appends all of `buf`.
    fn write(&mut self, buf: &[u8]) -> (r: Result<usize>)
        ensures
            r matches Ok(n) && n == buf@.len(),
    {
        self.extend_from_slice(buf);
        proof {
            assert(self@ =~= old(self)@ + buf@.take(buf@.len() as int));
        }
        Ok(buf.len())
    }

    fn flush(&mut self) -> (r: Result<()>)
        ensures
            r is Ok,
    {
        Ok(())
    }
}

/// What a reader over a vector's bytes produces, past the bytes the vector
/// held before a write, is what that write appended: bytes written to a
/// `Vec<u8>` are read back unchanged from it.
pub proof fn lemma_written_bytes_read_back(before: Vec<u8>, after: Vec<u8>, data: Seq<u8>, source: &[u8])
    requires
        after.written() == Some(before@ + data),
        source@ == after@,
    ensures
        source.remaining() matches Some(src) && src.skip(before@.len() as int) == data
            && src.take(before@.len() as int) == before@,
{
    assert(source@.skip(before@.len() as int) =~= data);
    assert(source@.take(before@.len() as int) =~= before@);
}

} // verus!
