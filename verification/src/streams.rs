//! Seeking over byte streams that can only be read forward, once, from
//! their start — the shape of a compressed archive entry, whose format
//! gives no random access into its decompressed bytes.
//!
//! The types here hold the bookkeeping and make every decision: where a
//! seek lands, whether it can be replayed from the bytes kept from the
//! last reads or needs the stream restarted, and how much to read and
//! throw away to reach it. Reading the stream itself, and restarting it,
//! is left to the caller, which reports what it read back.

use std::collections::VecDeque;

use vstd::prelude::*;

use crate::error::{ErrorKind, SourceError};

verus! {

/// The most bytes read and thrown away in one step while seeking forward.
pub const DISCARD_CHUNK: usize = 65536;

/// Where a seek is measured from, as in `std::io::SeekFrom`.
#[derive(Clone, Copy, Debug, PartialEq, Eq, Structural)]
pub enum SeekOrigin {
    Start(u64),
    End(i64),
    Current(i64),
}

/// The offset a seek asks for, before clamping; negative when it points
/// before the start.
pub open spec fn spec_seek_offset(from: SeekOrigin, position: u64, total_len: u64) -> int {
    match from {
        SeekOrigin::Start(n) => n as int,
        SeekOrigin::End(n) => total_len + n,
        SeekOrigin::Current(n) => position + n,
    }
}

/// Where a seek lands: its offset, clamped to the end of the stream.
pub open spec fn spec_seek_target(from: SeekOrigin, position: u64, total_len: u64) -> int {
    let t = spec_seek_offset(from, position, total_len);
    if t < total_len { t } else { total_len as int }
}

pub open spec fn negative_seek_message() -> Seq<char> {
    "invalid seek to a negative position"@
}

/// The position a seek from `from` lands on, for a stream of `total_len`
/// bytes read up to `position`. A seek that points before the start is
/// refused as invalid input; one past the end stops at the end.
pub fn resolve_seek(from: SeekOrigin, position: u64, total_len: u64) -> (r: Result<u64, SourceError>)
    ensures
        r is Err <==> spec_seek_offset(from, position, total_len) < 0,
        r matches Ok(t) ==> t == spec_seek_target(from, position, total_len),
        r matches Err(e) ==> e.kind == ErrorKind::InvalidInput && e.message@ == negative_seek_message(),
{
    let target: i128 = match from {
        SeekOrigin::Start(n) => n as i128,
        SeekOrigin::End(n) => total_len as i128 + n as i128,
        SeekOrigin::Current(n) => position as i128 + n as i128,
    };
    if target < 0 {
        return Err(SourceError::new(ErrorKind::InvalidInput, String::from_str("invalid seek to a negative position")));
    }
    if target < total_len as i128 {
        Ok(target as u64)
    } else {
        Ok(total_len)
    }
}

/// What to do next while completing a seek.
#[derive(Clone, Copy, Debug, PartialEq, Eq, Structural)]
pub enum SeekNext {
    /// The seek is complete; the stream now stands at this position.
    Done(u64),
    /// Read up to this many bytes from the stream and report them back
    /// with `discarded`.
    Discard(usize),
}

/// The first step of completing a seek: whether the stream must first be
/// thrown away and opened afresh from its start, and what comes next.
#[derive(Clone, Copy, Debug, PartialEq, Eq, Structural)]
pub struct CompleteStep {
    pub restart: bool,
    pub next: SeekNext,
}

/// How many bytes to read next to move from `at` towards `target`.
pub open spec fn discard_want(at: int, target: int) -> int {
    if target - at < DISCARD_CHUNK { target - at } else { DISCARD_CHUNK as int }
}

/// The last `k` elements of `s` (all of it when it is shorter).
pub open spec fn keep_last(s: Seq<u8>, k: int) -> Seq<u8> {
    if s.len() <= k { s } else { s.subrange(s.len() - k, s.len() as int) }
}

pub open spec fn slow_pipes_message() -> Seq<char> {
    "construction requires random access but underlying stream is not random access (see --allow-slow-pipes to permit simulated seeking)"@
}

/// Seeking faked over a stream that can only be read forward from its
/// start. A forward seek reads and throws bytes away; a backward seek
/// that lands among the most recently read bytes (kept in a bounded
/// buffer) is replayed from them; any other backward seek restarts the
/// stream and reads forward from its start again.
pub struct SimulatedSeek {
    /// The most recently read bytes, covering the offsets
    /// `[stream_pos - buffer.len(), stream_pos)`.
    buffer: VecDeque<u8>,
    buffer_capacity: usize,
    /// How far the current stream has been read since it was (re)started.
    stream_pos: u64,
    /// The position the caller sees; at most `stream_pos`, any gap being
    /// replayed from `buffer`.
    position: u64,
    total_len: u64,
    seek_target: Option<u64>,
    /// Every byte the current stream has produced since it was (re)started.
    streamed: Ghost<Seq<u8>>,
}

impl SimulatedSeek {
    #[verifier::type_invariant]
    spec fn inv(self) -> bool {
        &&& self.buffer@.len() <= self.buffer_capacity
        &&& self.buffer@.len() <= self.stream_pos
        &&& self.stream_pos - self.buffer@.len() <= self.position <= self.stream_pos
        &&& self.streamed@.len() == self.stream_pos
        &&& self.buffer@ == self.streamed@.subrange(self.stream_pos - self.buffer@.len(), self.stream_pos as int)
        &&& (self.seek_target matches Some(t) ==> t <= self.total_len)
    }

    /// The position the caller sees.
    pub closed spec fn position(&self) -> nat {
        self.position as nat
    }

    /// How far the current stream has actually been read.
    pub closed spec fn stream_pos(&self) -> nat {
        self.stream_pos as nat
    }

    /// The bytes kept for replay.
    pub closed spec fn buffer(&self) -> Seq<u8> {
        self.buffer@
    }

    pub closed spec fn capacity(&self) -> nat {
        self.buffer_capacity as nat
    }

    pub closed spec fn total_len(&self) -> u64 {
        self.total_len
    }

    /// The position a started seek is heading for.
    pub closed spec fn target(&self) -> Option<u64> {
        self.seek_target
    }

    /// Every byte the current stream has produced since it was (re)started.
    pub closed spec fn streamed(&self) -> Seq<u8> {
        self.streamed@
    }

    /// The first offset the buffer still covers.
    pub open spec fn buffer_start(&self) -> int {
        self.stream_pos() - self.buffer().len()
    }

    /// Seeking over a stream of `total_len` bytes, keeping up to
    /// `buffer_capacity` of the most recently read bytes for replay. Refused
    /// unless slow pipes were allowed on the command line: a seek outside
    /// the buffer redoes whatever work producing the stream took.
    pub fn new(total_len: u64, buffer_capacity: usize, allow_slow_pipes: bool) -> (r: Result<SimulatedSeek, SourceError>)
        ensures
            r is Ok <==> allow_slow_pipes,
            r matches Ok(s) ==> s.position() == 0 && s.stream_pos() == 0 && s.buffer() == Seq::<u8>::empty()
                && s.capacity() == buffer_capacity && s.total_len() == total_len && s.target() is None
                && s.streamed() == Seq::<u8>::empty(),
            r matches Err(e) ==> e.kind == ErrorKind::Unsupported && e.message@ == slow_pipes_message(),
    {
        if !allow_slow_pipes {
            return Err(SourceError::new(ErrorKind::Unsupported, String::from_str(
                "construction requires random access but underlying stream is not random access (see --allow-slow-pipes to permit simulated seeking)",
            )));
        }
        proof {
            assert(Seq::<u8>::empty().subrange(0, 0) =~= Seq::<u8>::empty());
        }
        Ok(SimulatedSeek {
            buffer: VecDeque::new(),
            buffer_capacity,
            stream_pos: 0,
            position: 0,
            total_len,
            seek_target: None,
            streamed: Ghost(Seq::empty()),
        })
    }

    /// The position the caller sees.
    pub fn current_position(&self) -> (p: u64)
        ensures
            p == self.position(),
    {
        self.position
    }

    /// Appends freshly read `bytes` to the buffer, dropping from its front
    /// so it never holds more than its capacity.
    fn extend_buffer(buffer: &mut VecDeque<u8>, cap: usize, bytes: &[u8])
        requires
            old(buffer)@.len() <= cap,
        ensures
            final(buffer)@ == keep_last(old(buffer)@ + bytes@, cap as int),
            final(buffer)@.len() <= cap,
    {
        let ghost all = old(buffer)@ + bytes@;
        if bytes.len() >= cap {
            buffer.clear();
            let start: usize = bytes.len() - cap;
            let mut i: usize = start;
            while i < bytes.len()
                invariant
                    start <= i <= bytes@.len(),
                    start == bytes@.len() - cap,
                    buffer@ == bytes@.subrange(start as int, i as int),
                decreases bytes.len() - i,
            {
                buffer.push_back(bytes[i]);
                i = i + 1;
            }
            proof {
                assert(all.subrange(all.len() - cap, all.len() as int) =~= bytes@.subrange(start as int, bytes@.len() as int));
            }
            return;
        }
        let ghost before = buffer@;
        let mut i: usize = 0;
        while i < bytes.len()
            invariant
                i <= bytes@.len(),
                buffer@ == before + bytes@.subrange(0, i as int),
            decreases bytes.len() - i,
        {
            buffer.push_back(bytes[i]);
            proof {
                assert(before + bytes@.subrange(0, i + 1) =~= (before + bytes@.subrange(0, i as int)).push(bytes@[i as int]));
            }
            i = i + 1;
        }
        proof {
            assert(bytes@.subrange(0, bytes@.len() as int) =~= bytes@);
        }
        let ghost full = buffer@;
        while buffer.len() > cap
            invariant
                full == all,
                buffer@.len() <= full.len(),
                full.len() <= cap ==> buffer@ == full,
                full.len() > cap ==> buffer@.len() >= cap,
                buffer@ == full.subrange(full.len() - buffer@.len(), full.len() as int),
            decreases buffer.len(),
        {
            buffer.pop_front();
        }
        proof {
            if all.len() <= cap {
                assert(buffer@ =~= all);
            }
        }
    }

    /// Serves a read from the kept bytes when the caller's position lags
    /// behind the stream (after a seek back into them): up to `room` bytes,
    /// exactly those the stream produced at the caller's position. `None`
    /// when the caller is level with the stream, so the read must come from
    /// the stream itself (see `record_read`).
    pub fn replay(&mut self, room: usize) -> (r: Option<Vec<u8>>)
        ensures
            r is None <==> old(self).position() == old(self).stream_pos(),
            r is None ==> *final(self) == *old(self),
            r matches Some(v) ==> ({
                let n = v@.len() as int;
                &&& n == (if room < old(self).stream_pos() - old(self).position() { room as int } else { old(self).stream_pos() - old(self).position() })
                &&& v@ == old(self).streamed().subrange(old(self).position() as int, old(self).position() + n)
                &&& final(self).position() == old(self).position() + n
                &&& final(self).stream_pos() == old(self).stream_pos()
                &&& final(self).buffer() == old(self).buffer()
                &&& final(self).streamed() == old(self).streamed()
                &&& final(self).capacity() == old(self).capacity()
                &&& final(self).total_len() == old(self).total_len()
                &&& final(self).target() == old(self).target()
            }),
    {
        proof {
            use_type_invariant(&*self);
        }
        if self.position >= self.stream_pos {
            return None;
        }
        let start: u64 = self.stream_pos - self.buffer.len() as u64;
        let offset: usize = (self.position - start) as usize;
        let available: usize = self.buffer.len() - offset;
        let n: usize = if room < available { room } else { available };
        let blen: usize = self.buffer.len();
        let mut out: Vec<u8> = Vec::new();
        let mut i: usize = 0;
        let ghost s = self.streamed@;
        let ghost b = self.buffer@;
        while i < n
            invariant
                i <= n,
                offset + n <= b.len(),
                blen == b.len(),
                s.len() == self.stream_pos,
                start <= self.position <= self.stream_pos,
                b == self.buffer@,
                b == s.subrange(start as int, self.stream_pos as int),
                start == self.stream_pos - b.len(),
                offset == self.position - start,
                out@ == s.subrange(self.position as int, self.position + i),
            decreases n - i,
        {
            out.push(self.buffer[offset + i]);
            proof {
                assert(b[offset + i] == s[self.position + i]);
                assert(s.subrange(self.position as int, self.position + i + 1)
                    =~= s.subrange(self.position as int, self.position + i).push(b[offset + i]));
            }
            i = i + 1;
        }
        self.position = self.position + n as u64;
        Some(out)
    }

    /// Records `bytes` just read from the stream itself (the caller being
    /// level with it): they are kept for replay, and both positions move
    /// past them.
    pub fn record_read(&mut self, bytes: &[u8])
        requires
            old(self).position() == old(self).stream_pos(),
            old(self).stream_pos() + bytes@.len() <= u64::MAX,
        ensures
            final(self).position() == old(self).position() + bytes@.len(),
            final(self).stream_pos() == old(self).stream_pos() + bytes@.len(),
            final(self).streamed() == old(self).streamed() + bytes@,
            final(self).buffer() == keep_last(old(self).buffer() + bytes@, old(self).capacity() as int),
            final(self).capacity() == old(self).capacity(),
            final(self).total_len() == old(self).total_len(),
            final(self).target() == old(self).target(),
    {
        proof {
            use_type_invariant(&*self);
        }
        let n: u64 = bytes.len() as u64;
        let ghost new_streamed = self.streamed@ + bytes@;
        proof {
            assert(self.streamed@.subrange(self.stream_pos as int, self.stream_pos as int) =~= Seq::<u8>::empty());
        }
        let mut buffer = VecDeque::new();
        std::mem::swap(&mut buffer, &mut self.buffer);
        let ghost ob = buffer@;
        Self::extend_buffer(&mut buffer, self.buffer_capacity, bytes);
        proof {
            let sp = self.stream_pos as int;
            let all = ob + bytes@;
            assert(ob == self.streamed@.subrange(sp - ob.len(), sp));
            assert(all =~= new_streamed.subrange(sp - ob.len(), sp + bytes@.len()));
            if all.len() > self.buffer_capacity {
                assert(buffer@ =~= new_streamed.subrange(sp + bytes@.len() - buffer@.len(), sp + bytes@.len()));
            }
        }
        let cap = self.buffer_capacity;
        let total = self.total_len;
        let target = self.seek_target;
        let sp = self.stream_pos + n;
        *self = SimulatedSeek {
            buffer,
            buffer_capacity: cap,
            stream_pos: sp,
            position: sp,
            total_len: total,
            seek_target: target,
            streamed: Ghost(new_streamed),
        };
    }

    /// Starts a seek: works out where it lands (refusing one before the
    /// start) and leaves the work of getting there to `begin_complete`.
    pub fn start_seek(&mut self, from: SeekOrigin) -> (r: Result<(), SourceError>)
        ensures
            r is Err <==> spec_seek_offset(from, old(self).position() as u64, old(self).total_len()) < 0,
            r is Ok ==> final(self).target() == Some(spec_seek_target(from, old(self).position() as u64, old(self).total_len()) as u64),
            r is Err ==> final(self).target() == old(self).target(),
            r matches Err(e) ==> e.kind == ErrorKind::InvalidInput && e.message@ == negative_seek_message(),
            final(self).position() == old(self).position(),
            final(self).stream_pos() == old(self).stream_pos(),
            final(self).buffer() == old(self).buffer(),
            final(self).streamed() == old(self).streamed(),
            final(self).capacity() == old(self).capacity(),
            final(self).total_len() == old(self).total_len(),
    {
        proof {
            use_type_invariant(&*self);
        }
        let t = resolve_seek(from, self.position, self.total_len)?;
        self.seek_target = Some(t);
        Ok(())
    }

    /// Begins (or resumes) completing the started seek. With none started,
    /// the position is reported as it is. A target before the first kept
    /// byte can only be reached from a fresh stream: the caller must
    /// restart the stream from its start (the bookkeeping is reset here).
    /// A target at or before how far the stream has been read is then
    /// reached at once, from the kept bytes; one beyond it needs bytes
    /// read and thrown away (see `discarded`).
    pub fn begin_complete(&mut self) -> (st: CompleteStep)
        ensures
            old(self).target() is None ==> st == (CompleteStep { restart: false, next: SeekNext::Done(old(self).position() as u64) })
                && *final(self) == *old(self),
            old(self).target() matches Some(t) ==> ({
                let restart = t < old(self).buffer_start();
                let sp = if restart { 0 } else { old(self).stream_pos() as int };
                &&& st.restart == restart
                &&& final(self).stream_pos() == sp
                &&& final(self).streamed() == (if restart { Seq::<u8>::empty() } else { old(self).streamed() })
                &&& final(self).buffer() == (if restart { Seq::<u8>::empty() } else { old(self).buffer() })
                &&& if t <= sp {
                    st.next == SeekNext::Done(t) && final(self).position() == t && final(self).target() is None
                } else {
                    st.next == SeekNext::Discard(discard_want(sp, t as int) as usize)
                        && final(self).position() == sp && final(self).target() == Some(t)
                }
            }),
            final(self).capacity() == old(self).capacity(),
            final(self).total_len() == old(self).total_len(),
    {
        proof {
            use_type_invariant(&*self);
        }
        let t = match self.seek_target {
            None => {
                return CompleteStep { restart: false, next: SeekNext::Done(self.position) };
            },
            Some(t) => t,
        };
        let start: u64 = self.stream_pos - self.buffer.len() as u64;
        let restart = t < start;
        if restart {
            proof {
                assert(Seq::<u8>::empty().subrange(0, 0) =~= Seq::<u8>::empty());
            }
            let cap = self.buffer_capacity;
            let total = self.total_len;
            *self = SimulatedSeek {
                buffer: VecDeque::new(),
                buffer_capacity: cap,
                stream_pos: 0,
                position: 0,
                total_len: total,
                seek_target: Some(t),
                streamed: Ghost(Seq::empty()),
            };
        }
        if t <= self.stream_pos {
            self.position = t;
            self.seek_target = None;
            return CompleteStep { restart, next: SeekNext::Done(t) };
        }
        self.position = self.stream_pos;
        let gap: u64 = t - self.stream_pos;
        let want: usize = if gap < DISCARD_CHUNK as u64 { gap as usize } else { DISCARD_CHUNK };
        CompleteStep { restart, next: SeekNext::Discard(want) }
    }

    /// Records `bytes` read and thrown away on the way to the seek target.
    /// An empty read is the stream's end, short of the target: the seek
    /// stops where it got to.
    pub fn discarded(&mut self, bytes: &[u8]) -> (next: SeekNext)
        requires
            old(self).target() matches Some(t) && old(self).stream_pos() < t
                && old(self).stream_pos() + bytes@.len() <= t,
            old(self).position() == old(self).stream_pos(),
        ensures
            ({
                let t = old(self).target()->Some_0;
                let sp = old(self).stream_pos() + bytes@.len();
                &&& final(self).stream_pos() == sp
                &&& final(self).position() == sp
                &&& final(self).streamed() == old(self).streamed() + bytes@
                &&& final(self).buffer() == keep_last(old(self).buffer() + bytes@, old(self).capacity() as int)
                &&& if bytes@.len() == 0 || sp >= t {
                    next == SeekNext::Done(sp as u64) && final(self).target() is None
                } else {
                    next == SeekNext::Discard(discard_want(sp as int, t as int) as usize) && final(self).target() == Some(t)
                }
            }),
            final(self).capacity() == old(self).capacity(),
            final(self).total_len() == old(self).total_len(),
    {
        proof {
            use_type_invariant(&*self);
        }
        let t = match self.seek_target {
            Some(t) => t,
            None => {
                proof {
                    assert(false);
                }
                0
            },
        };
        if bytes.len() == 0 {
            self.seek_target = None;
            return SeekNext::Done(self.position);
        }
        self.record_read(bytes);
        proof {
            use_type_invariant(&*self);
        }
        if self.stream_pos < t {
            let gap: u64 = t - self.stream_pos;
            let want: usize = if gap < DISCARD_CHUNK as u64 { gap as usize } else { DISCARD_CHUNK };
            SeekNext::Discard(want)
        } else {
            self.seek_target = None;
            SeekNext::Done(self.position)
        }
    }

    /// A read failed while seeking: the seek is abandoned.
    pub fn discard_failed(&mut self)
        ensures
            final(self).target() is None,
            final(self).position() == old(self).position(),
            final(self).stream_pos() == old(self).stream_pos(),
            final(self).buffer() == old(self).buffer(),
            final(self).streamed() == old(self).streamed(),
            final(self).capacity() == old(self).capacity(),
            final(self).total_len() == old(self).total_len(),
    {
        proof {
            use_type_invariant(&*self);
        }
        self.seek_target = None;
    }
}

/// Seeking over a stream that can be restarted from its start and read
/// forward, with nothing kept for replay: any seek backward restarts it,
/// and any seek forward reads and throws bytes away.
pub struct EntrySeek {
    /// The offset of the next byte the caller reads.
    position: u64,
    total_len: u64,
    seek_target: Option<u64>,
}

impl EntrySeek {
    #[verifier::type_invariant]
    spec fn inv(self) -> bool {
        self.seek_target matches Some(t) ==> t <= self.total_len
    }

    pub closed spec fn position(&self) -> nat {
        self.position as nat
    }

    pub closed spec fn total_len(&self) -> u64 {
        self.total_len
    }

    pub closed spec fn target(&self) -> Option<u64> {
        self.seek_target
    }

    /// Seeking over a stream of `total_len` bytes, read from its start.
    pub fn new(total_len: u64) -> (s: EntrySeek)
        ensures
            s.position() == 0,
            s.total_len() == total_len,
            s.target() is None,
    {
        EntrySeek { position: 0, total_len, seek_target: None }
    }

    pub fn current_position(&self) -> (p: u64)
        ensures
            p == self.position(),
    {
        self.position
    }

    /// Records `n` bytes handed to the caller.
    pub fn record_read(&mut self, n: usize)
        requires
            old(self).position() + n <= u64::MAX,
        ensures
            final(self).position() == old(self).position() + n,
            final(self).total_len() == old(self).total_len(),
            final(self).target() == old(self).target(),
    {
        proof {
            use_type_invariant(&*self);
        }
        self.position = self.position + n as u64;
    }

    /// Starts a seek: works out where it lands (refusing one before the
    /// start) and leaves the work of getting there to `begin_complete`.
    pub fn start_seek(&mut self, from: SeekOrigin) -> (r: Result<(), SourceError>)
        ensures
            r is Err <==> spec_seek_offset(from, old(self).position() as u64, old(self).total_len()) < 0,
            r is Ok ==> final(self).target() == Some(spec_seek_target(from, old(self).position() as u64, old(self).total_len()) as u64),
            r is Err ==> final(self).target() == old(self).target(),
            r matches Err(e) ==> e.kind == ErrorKind::InvalidInput && e.message@ == negative_seek_message(),
            final(self).position() == old(self).position(),
            final(self).total_len() == old(self).total_len(),
    {
        let t = resolve_seek(from, self.position, self.total_len)?;
        self.seek_target = Some(t);
        Ok(())
    }

    /// Begins (or resumes) completing the started seek. A target behind
    /// the position needs the stream restarted from its start; the target
    /// is then reached at once if the position already stands on it, or
    /// by reading and throwing bytes away (see `discarded`).
    pub fn begin_complete(&mut self) -> (st: CompleteStep)
        ensures
            old(self).target() is None ==> st == (CompleteStep { restart: false, next: SeekNext::Done(old(self).position() as u64) })
                && *final(self) == *old(self),
            old(self).target() matches Some(t) ==> ({
                let restart = t < old(self).position();
                let p = if restart { 0 } else { old(self).position() as int };
                &&& st.restart == restart
                &&& final(self).position() == p
                &&& if t <= p {
                    st.next == SeekNext::Done(p as u64) && final(self).target() is None
                } else {
                    st.next == SeekNext::Discard(discard_want(p, t as int) as usize) && final(self).target() == Some(t)
                }
            }),
            final(self).total_len() == old(self).total_len(),
    {
        proof {
            use_type_invariant(&*self);
        }
        let t = match self.seek_target {
            None => {
                return CompleteStep { restart: false, next: SeekNext::Done(self.position) };
            },
            Some(t) => t,
        };
        let restart = t < self.position;
        if restart {
            self.position = 0;
        }
        if t <= self.position {
            self.seek_target = None;
            return CompleteStep { restart, next: SeekNext::Done(self.position) };
        }
        let gap: u64 = t - self.position;
        let want: usize = if gap < DISCARD_CHUNK as u64 { gap as usize } else { DISCARD_CHUNK };
        CompleteStep { restart, next: SeekNext::Discard(want) }
    }

    /// Records `n` bytes read and thrown away on the way to the seek
    /// target. An empty read is the stream's end, short of the target: the
    /// seek stops where it got to.
    pub fn discarded(&mut self, n: usize) -> (next: SeekNext)
        requires
            old(self).target() matches Some(t) && old(self).position() < t && old(self).position() + n <= t,
        ensures
            ({
                let t = old(self).target()->Some_0;
                let p = old(self).position() + n;
                &&& final(self).position() == p
                &&& if n == 0 || p >= t {
                    next == SeekNext::Done(p as u64) && final(self).target() is None
                } else {
                    next == SeekNext::Discard(discard_want(p as int, t as int) as usize) && final(self).target() == Some(t)
                }
            }),
            final(self).total_len() == old(self).total_len(),
    {
        proof {
            use_type_invariant(&*self);
        }
        let t = match self.seek_target {
            Some(t) => t,
            None => {
                proof {
                    assert(false);
                }
                0
            },
        };
        if n == 0 {
            self.seek_target = None;
            return SeekNext::Done(self.position);
        }
        self.position = self.position + n as u64;
        if self.position < t {
            let gap: u64 = t - self.position;
            let want: usize = if gap < DISCARD_CHUNK as u64 { gap as usize } else { DISCARD_CHUNK };
            SeekNext::Discard(want)
        } else {
            self.seek_target = None;
            SeekNext::Done(self.position)
        }
    }

    /// A read failed while seeking: the seek is abandoned.
    pub fn discard_failed(&mut self)
        ensures
            final(self).target() is None,
            final(self).position() == old(self).position(),
            final(self).total_len() == old(self).total_len(),
    {
        self.seek_target = None;
    }
}

/// The chunk most recently received from a stream's producer, handed out
/// to readers piece by piece.
pub struct ChunkBuffer {
    pending: Vec<u8>,
    pending_pos: usize,
}

impl ChunkBuffer {
    #[verifier::type_invariant]
    spec fn inv(self) -> bool {
        self.pending_pos <= self.pending@.len()
    }

    /// The bytes of the current chunk not yet handed out.
    pub closed spec fn rest(&self) -> Seq<u8> {
        self.pending@.subrange(self.pending_pos as int, self.pending@.len() as int)
    }

    pub fn new() -> (b: ChunkBuffer)
        ensures
            b.rest() == Seq::<u8>::empty(),
    {
        let b = ChunkBuffer { pending: Vec::new(), pending_pos: 0 };
        proof {
            assert(b.rest() =~= Seq::<u8>::empty());
        }
        b
    }

    /// Up to `room` of the bytes not yet handed out, in order; `None` when
    /// the chunk is used up and the next one must be received.
    pub fn take(&mut self, room: usize) -> (r: Option<Vec<u8>>)
        ensures
            r is None <==> old(self).rest().len() == 0,
            r is None ==> final(self).rest() == old(self).rest(),
            r matches Some(v) ==> ({
                let n = if room < old(self).rest().len() { room as int } else { old(self).rest().len() as int };
                &&& v@ == old(self).rest().subrange(0, n)
                &&& final(self).rest() == old(self).rest().subrange(n, old(self).rest().len() as int)
            }),
    {
        proof {
            use_type_invariant(&*self);
        }
        if self.pending_pos >= self.pending.len() {
            return None;
        }
        let left: usize = self.pending.len() - self.pending_pos;
        let n: usize = if room < left { room } else { left };
        let mut out: Vec<u8> = Vec::new();
        let mut i: usize = 0;
        while i < n
            invariant
                i <= n,
                self.pending_pos + n <= self.pending@.len(),
                n <= left,
                self.pending.len() == self.pending@.len(),
                out@ == self.pending@.subrange(self.pending_pos as int, self.pending_pos + i),
            decreases n - i,
        {
            out.push(self.pending[self.pending_pos + i]);
            proof {
                assert(self.pending@.subrange(self.pending_pos as int, self.pending_pos + i + 1)
                    =~= self.pending@.subrange(self.pending_pos as int, self.pending_pos + i).push(self.pending@[self.pending_pos + i]));
            }
            i = i + 1;
        }
        let ghost before = self.rest();
        self.pending_pos = self.pending_pos + n;
        proof {
            assert(out@ =~= before.subrange(0, n as int));
            assert(self.rest() =~= before.subrange(n as int, before.len() as int));
        }
        Some(out)
    }

    /// Replaces the used-up chunk with the next one received.
    pub fn refill(&mut self, chunk: Vec<u8>)
        ensures
            final(self).rest() == chunk@,
    {
        *self = ChunkBuffer { pending: chunk, pending_pos: 0 };
        proof {
            assert(self.rest() =~= chunk@);
        }
    }
}

} // verus!
