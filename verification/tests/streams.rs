use iotactl::error::ErrorKind;
use iotactl::streams::{ChunkBuffer, EntrySeek, SeekNext, SeekOrigin, SimulatedSeek, resolve_seek};

/// A forward-only source over `data` that counts how often it was
/// (re)started, driven through a `SimulatedSeek` the way the program's
/// reader does.
struct Driver {
    data: &'static [u8],
    calls: usize,
    inner_pos: usize,
    seek: SimulatedSeek,
}

impl Driver {
    fn new(data: &'static [u8], capacity: usize) -> Driver {
        let seek = SimulatedSeek::new(data.len() as u64, capacity, true).expect("--allow-slow-pipes is on for tests");
        Driver { data, calls: 1, inner_pos: 0, seek }
    }

    fn pull(&mut self, want: usize) -> Vec<u8> {
        let end = (self.inner_pos + want).min(self.data.len());
        let bytes = self.data[self.inner_pos..end].to_vec();
        self.inner_pos = end;
        bytes
    }

    fn read(&mut self, room: usize) -> Vec<u8> {
        if let Some(replayed) = self.seek.replay(room) {
            return replayed;
        }
        let bytes = self.pull(room);
        self.seek.record_read(&bytes);
        bytes
    }

    fn read_exact(&mut self, n: usize) -> Vec<u8> {
        let mut out = Vec::new();
        while out.len() < n {
            let got = self.read(n - out.len());
            assert!(!got.is_empty(), "unexpected end of stream");
            out.extend(got);
        }
        out
    }

    fn seek_to(&mut self, from: SeekOrigin) -> u64 {
        self.seek.start_seek(from).unwrap();
        let step = self.seek.begin_complete();
        if step.restart {
            self.calls += 1;
            self.inner_pos = 0;
        }
        let mut next = step.next;
        loop {
            match next {
                SeekNext::Done(p) => return p,
                SeekNext::Discard(want) => {
                    let bytes = self.pull(want);
                    next = self.seek.discarded(&bytes);
                }
            }
        }
    }
}

#[test]
fn seek_within_the_buffer_replays_instead_of_restarting() {
    let mut stream = Driver::new(b"hello", 2);
    assert_eq!(stream.read_exact(5), b"hello");
    assert_eq!(stream.calls, 1);
    assert_eq!(stream.seek_to(SeekOrigin::Start(4)), 4);
    assert_eq!(stream.read_exact(1), b"o");
    assert_eq!(stream.calls, 1);
}

#[test]
fn seek_outside_the_buffer_restarts_the_stream() {
    let mut stream = Driver::new(b"hello", 2);
    assert_eq!(stream.read_exact(5), b"hello");
    assert_eq!(stream.calls, 1);
    stream.seek_to(SeekOrigin::Start(0));
    assert_eq!(stream.read_exact(5), b"hello");
    assert_eq!(stream.calls, 2);
}

#[test]
fn a_zero_size_buffer_restarts_on_every_backward_seek() {
    let mut stream = Driver::new(b"hello", 0);
    assert_eq!(stream.read_exact(5), b"hello");
    assert_eq!(stream.calls, 1);
    stream.seek_to(SeekOrigin::Start(4));
    assert_eq!(stream.read_exact(1), b"o");
    assert_eq!(stream.calls, 2);
}

#[test]
fn seeking_needs_slow_pipes_allowed() {
    let Err(e) = SimulatedSeek::new(5, 2, false) else {
        panic!("expected construction to be refused");
    };
    assert_eq!(e.kind, ErrorKind::Unsupported);
    assert!(e.message.contains("--allow-slow-pipes"));
}

#[test]
fn seek_targets_clamp_to_the_end_and_refuse_negatives() {
    assert_eq!(resolve_seek(SeekOrigin::Start(3), 1, 10).unwrap(), 3);
    assert_eq!(resolve_seek(SeekOrigin::Start(30), 1, 10).unwrap(), 10);
    assert_eq!(resolve_seek(SeekOrigin::End(-4), 1, 10).unwrap(), 6);
    assert_eq!(resolve_seek(SeekOrigin::Current(2), 1, 10).unwrap(), 3);
    let e = resolve_seek(SeekOrigin::Current(-2), 1, 10).unwrap_err();
    assert_eq!(e.kind, ErrorKind::InvalidInput);
    assert_eq!(e.message, "invalid seek to a negative position");
}

#[test]
fn forward_seek_discards_and_stops_at_end_of_stream() {
    let mut stream = Driver::new(b"hello", 8);
    assert_eq!(stream.seek_to(SeekOrigin::Start(3)), 3);
    assert_eq!(stream.read_exact(2), b"lo");
    assert_eq!(stream.calls, 1);
    // A seek back into the kept bytes replays them.
    assert_eq!(stream.seek_to(SeekOrigin::Current(-4)), 1);
    assert_eq!(stream.read_exact(4), b"ello");
    assert_eq!(stream.calls, 1);
}

#[test]
fn entry_seek_restarts_only_when_going_back() {
    let mut s = EntrySeek::new(5);
    s.record_read(3);
    s.start_seek(SeekOrigin::Start(1)).unwrap();
    let step = s.begin_complete();
    assert!(step.restart);
    assert_eq!(step.next, SeekNext::Discard(1));
    assert_eq!(s.discarded(1), SeekNext::Done(1));
    assert_eq!(s.current_position(), 1);
    s.start_seek(SeekOrigin::End(0)).unwrap();
    let step = s.begin_complete();
    assert!(!step.restart);
    assert_eq!(step.next, SeekNext::Discard(4));
    // The stream ends early: the seek stops where it got to.
    assert_eq!(s.discarded(2), SeekNext::Discard(2));
    assert_eq!(s.discarded(0), SeekNext::Done(3));
}

#[test]
fn chunks_are_handed_out_in_pieces() {
    let mut b = ChunkBuffer::new();
    assert_eq!(b.take(4), None);
    b.refill(b"abcdef".to_vec());
    assert_eq!(b.take(4), Some(b"abcd".to_vec()));
    assert_eq!(b.take(4), Some(b"ef".to_vec()));
    assert_eq!(b.take(4), None);
}
