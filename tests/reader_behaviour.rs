use preambled::{
    write_preambled, Bufferer, ByteSink, ByteSource, CanDeserialize, CanSerialize, CodecError, De,
    FrameError, GrowingBuffer, MsgError, ReadOutcome, Ser, Step,
};

/// A source that hands out its bytes in pieces of at most `chunk`, reporting "not ready"
/// before every piece when `stall` is set.
struct Scripted {
    data: Vec<u8>,
    pos: usize,
    chunk: usize,
    stall: bool,
    stalled: bool,
}

impl Scripted {
    fn new(data: Vec<u8>, chunk: usize, stall: bool) -> Self {
        Scripted { data, pos: 0, chunk, stall, stalled: false }
    }
}

impl ByteSource for Scripted {
    type Error = String;

    fn read_up_to(&mut self, max: usize) -> ReadOutcome<String> {
        if self.stall && !self.stalled {
            self.stalled = true;
            return ReadOutcome::NotReady;
        }
        self.stalled = false;
        let n = max.min(self.chunk).min(self.data.len() - self.pos);
        let v = self.data[self.pos..self.pos + n].to_vec();
        self.pos += n;
        ReadOutcome::Data(v)
    }
}

/// A source that fails on every read.
struct Broken;

impl ByteSource for Broken {
    type Error = String;

    fn read_up_to(&mut self, _max: usize) -> ReadOutcome<String> {
        ReadOutcome::Failed("gone".to_string())
    }
}

/// A sink that keeps what it is given.
struct Collect(Vec<u8>);

impl ByteSink for Collect {
    type Error = String;

    fn write_all(&mut self, bytes: &[u8]) -> Result<(), String> {
        self.0.extend_from_slice(bytes);
        Ok(())
    }

    fn flush(&mut self) -> Result<(), String> {
        Ok(())
    }
}

fn scenario_payloads() -> Vec<Vec<u8>> {
    vec![
        vec![0, 1, 3, 4],
        vec![2, 3, 1],
        vec![],
        vec![0, 32, 34, 43, 34, 34, 3, 2, 23, 4],
    ]
}

fn wire(payloads: &[Vec<u8>]) -> Vec<u8> {
    let mut out = Collect(Vec::new());
    for p in payloads {
        write_preambled(&mut out, p).unwrap();
    }
    out.0
}

/// Reads every frame out of `src`, calling again on `Ok(None)` until the data runs out.
fn read_all(src: &mut Scripted, calls: usize) -> Vec<Vec<u8>> {
    let mut r = Bufferer::new();
    let mut out = Vec::new();
    for _ in 0..calls {
        if let Some(p) = r.try_read_preambled(src).unwrap() {
            out.push(p.to_vec());
        }
    }
    out
}

#[test]
fn wire_bytes_of_scenario() {
    assert_eq!(
        wire(&scenario_payloads()),
        vec![4, 0, 1, 3, 4, 3, 2, 3, 1, 0, 10, 0, 32, 34, 43, 34, 34, 3, 2, 23, 4]
    );
}

#[test]
fn scenario_in_chunks_of_every_size() {
    let data = wire(&scenario_payloads());
    for chunk in 1..=data.len() {
        let mut src = Scripted::new(data.clone(), chunk, false);
        assert_eq!(read_all(&mut src, 100), scenario_payloads(), "chunk {}", chunk);
    }
}

#[test]
fn scenario_with_not_ready_before_each_byte() {
    let data = wire(&scenario_payloads());
    let mut src = Scripted::new(data, 1, true);
    assert_eq!(read_all(&mut src, 200), scenario_payloads());
}

#[test]
fn round_trip_empty_message() {
    let data = wire(&[vec![]]);
    assert_eq!(data, vec![0]);
    let mut src = Scripted::new(data, 1, false);
    let mut r = Bufferer::new();
    assert_eq!(r.try_read_preambled(&mut src).unwrap(), Some(&[][..]));
}

#[test]
fn round_trip_two_byte_preamble() {
    let msg: Vec<u8> = (0..300u32).map(|i| (i % 251) as u8).collect();
    let data = wire(&[msg.clone()]);
    assert_eq!(&data[..2], &[0xAC, 0x02]);
    assert_eq!(data.len(), 302);
    for chunk in [1usize, 7, 302] {
        let mut src = Scripted::new(data.clone(), chunk, false);
        let mut r = Bufferer::new();
        assert_eq!(r.try_read_preambled(&mut src).unwrap().unwrap(), &msg[..]);
    }
}

#[test]
fn partial_frame_waits_for_the_rest() {
    let data = wire(&[vec![9, 8, 7, 6, 5]]);
    let mut r = Bufferer::new();
    let mut first = Scripted::new(data[..4].to_vec(), 2, false);
    assert_eq!(r.try_read_preambled(&mut first).unwrap(), None);
    assert_eq!(r.try_read_preambled(&mut first).unwrap(), None);
    let mut second = Scripted::new(data[4..].to_vec(), 1, false);
    assert_eq!(r.try_read_preambled(&mut second).unwrap().unwrap(), &[9, 8, 7, 6, 5][..]);
    assert_eq!(r.try_read_preambled(&mut second).unwrap(), None);
}

#[test]
fn not_ready_keeps_state() {
    let mut r = Bufferer::new();
    let mut src = Scripted::new(vec![2, 1, 2], 1, true);
    assert_eq!(r.try_read_preambled(&mut src).unwrap(), None);
    assert_eq!(r.try_read_preambled(&mut src).unwrap(), None);
    assert_eq!(r.try_read_preambled(&mut src).unwrap(), None);
    assert_eq!(r.try_read_preambled(&mut src).unwrap().unwrap(), &[1, 2][..]);
}

#[test]
fn non_canonical_preamble_is_read() {
    let mut r = Bufferer::new();
    let mut src = Scripted::new(vec![0x81, 0x00, 7], 3, false);
    assert_eq!(r.try_read_preambled(&mut src).unwrap().unwrap(), &[7][..]);
}

#[test]
fn unterminated_preamble_is_an_error_and_stays_one() {
    let mut r = Bufferer::new();
    let mut src = Scripted::new(vec![0xFF; 12], 1, false);
    assert!(matches!(r.try_read_preambled(&mut src), Err(FrameError::BadPreamble)));
    assert_eq!(src.pos, 10);
    assert!(matches!(r.try_read_preambled(&mut src), Err(FrameError::BadPreamble)));
    assert_eq!(src.pos, 10);
}

#[test]
fn tenth_preamble_byte_above_one_is_an_error() {
    let mut data = vec![0x80; 9];
    data.push(2);
    let mut r = Bufferer::new();
    let mut src = Scripted::new(data, 1, false);
    assert!(matches!(r.try_read_preambled(&mut src), Err(FrameError::BadPreamble)));
}

#[test]
fn oversized_frame_is_an_error() {
    let mut data = vec![0xFF; 9];
    data.push(1);
    let mut r = Bufferer::new();
    let mut src = Scripted::new(data, 1, false);
    assert!(matches!(r.try_read_preambled(&mut src), Err(FrameError::TooLarge)));
    assert!(matches!(r.try_read_preambled(&mut src), Err(FrameError::TooLarge)));
}

#[test]
fn stream_failure_is_passed_on() {
    let mut r = Bufferer::new();
    match r.try_read_preambled(&mut Broken) {
        Err(FrameError::Stream(e)) => assert_eq!(e, "gone"),
        _ => panic!("expected a stream error"),
    }
}

#[test]
fn growing_buffer_collects_and_clears() {
    let mut b = GrowingBuffer::new();
    assert_eq!(b.occupancy(), 0);
    assert_eq!(b.write(&[1, 2, 3]), 3);
    assert_eq!(b.write(&[4]), 1);
    assert_eq!(b.contents(), &[1, 2, 3, 4][..]);
    assert_eq!(b.occupancy(), 4);
    b.clear();
    assert_eq!(b.occupancy(), 0);
    assert_eq!(b.contents(), &[][..]);
}

/// Encodes a number as its little-endian bytes; a byte payload decodes, anything else fails.
struct Bytes;

impl CanSerialize<u32> for Bytes {
    fn serialize_into(&mut self, t: &u32, out: &mut GrowingBuffer) -> Result<(), CodecError> {
        if *t == 0 {
            return Err(CodecError);
        }
        out.write(&t.to_le_bytes());
        Ok(())
    }
}

impl CanDeserialize<u8> for Bytes {
    fn deserialize(&mut self, bytes: &[u8]) -> Result<u8, CodecError> {
        if bytes.len() == 1 {
            Ok(bytes[0])
        } else {
            Err(CodecError)
        }
    }
}

#[test]
fn write_msg_frames_the_encoding() {
    let mut w = Ser::new(Collect(Vec::new()), Bytes);
    assert_eq!(w.write_msg(&0x0102_0304u32).unwrap(), 4);
    assert!(matches!(w.write_msg(&0u32), Err(MsgError::Encode(_))));
    assert_eq!(w.write_msg(&5u32).unwrap(), 4);
    w.flush().unwrap();
}

#[test]
fn decode_failure_drops_the_frame() {
    let data = wire(&[vec![1, 2], vec![42]]);
    let mut d = De::new(Scripted::new(data, 64, false), Bytes);
    let first: Result<Option<u8>, _> = d.try_read();
    assert!(matches!(first, Err(MsgError::Decode(_))));
    assert!(!d.pop_holding());
    let second: Option<u8> = d.try_read().unwrap();
    assert_eq!(second, Some(42));
    let third: Option<u8> = d.try_read().unwrap();
    assert_eq!(third, None);
}

#[test]
fn step_by_step_frame() {
    let mut b = Bufferer::new();
    assert_eq!(b.want(), 1);
    assert!(matches!(b.take_in::<String>(ReadOutcome::Data(vec![2])), Step::More));
    assert_eq!(b.want(), 2);
    assert!(matches!(b.take_in::<String>(ReadOutcome::NotReady), Step::Idle));
    assert!(matches!(b.take_in::<String>(ReadOutcome::Data(vec![])), Step::Idle));
    assert!(matches!(b.take_in::<String>(ReadOutcome::Data(vec![7])), Step::More));
    assert_eq!(b.want(), 1);
    match b.take_in::<String>(ReadOutcome::Data(vec![8])) {
        Step::Frame(start, end) => assert_eq!(b.stored_slice(start, end), &[7, 8][..]),
        _ => panic!("expected a frame"),
    }
    assert_eq!(b.want(), 1);
}

#[test]
fn step_failed_read_is_a_stream_error() {
    let mut b = Bufferer::new();
    match b.take_in(ReadOutcome::Failed("down".to_string())) {
        Step::Fail(FrameError::Stream(e)) => assert_eq!(e, "down"),
        _ => panic!("expected a stream error"),
    }
    assert_eq!(b.want(), 1);
}

#[test]
fn step_two_byte_preamble_asks_for_the_payload() {
    let mut b = Bufferer::new();
    assert!(matches!(b.take_in::<String>(ReadOutcome::Data(vec![0xAC])), Step::More));
    assert_eq!(b.want(), 1);
    assert!(matches!(b.take_in::<String>(ReadOutcome::Data(vec![0x02])), Step::More));
    assert_eq!(b.want(), 300);
}
