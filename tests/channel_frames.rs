use preambled::{
    rw_channel, write_preambled, Bufferer, ByteSink, CanDeserialize, CanSerialize, CodecError, De,
    GrowingBuffer, ReadWrapper, Ser,
};

fn raw_bytes() -> Vec<Vec<u8>> {
    vec![
        vec![0, 1, 3, 4],
        vec![2, 3, 1],
        vec![],
        vec![0, 32, 34, 43, 34, 34, 3, 2, 23, 4],
    ]
}

#[test]
fn raw() {
    let (mut a, mut b) = rw_channel();

    // write
    for msg in raw_bytes().iter() {
        write_preambled(&mut a, msg).unwrap();
    }
    a.flush().unwrap();

    // read
    let mut r = Bufferer::new();
    for msg in raw_bytes().iter() {
        let x = r.try_read_preambled(&mut b).unwrap().unwrap();
        assert_eq!(msg, &x);
    }
}

#[test]
fn raw_wrapped() {
    let (mut a, b) = rw_channel();
    let mut r = ReadWrapper::new(b);

    // write
    for msg in raw_bytes().iter() {
        write_preambled(&mut a, msg).unwrap();
    }
    a.flush().unwrap();

    // read
    for msg in raw_bytes().iter() {
        let x = r.try_read_preambled().unwrap().unwrap();
        assert_eq!(msg, &x);
    }
}

#[derive(Clone, Debug, PartialEq)]
struct Whatever {
    x: u32,
    y: u64,
    z: String,
}

fn messages() -> Vec<Whatever> {
    vec![
        Whatever { x: 32, y: 243, z: "Hello, there.".into() },
        Whatever { x: 23, y: 11, z: "Peace, friend.".into() },
        Whatever { x: 1231, y: 12324, z: "My, you're a tall one!".into() },
        Whatever { x: 0, y: 23, z: "What would you ask of Death?".into() },
    ]
}

#[test]
fn raw_wrapped_serde() {
    let (mut a, b) = rw_channel();
    let mut r = ReadWrapper::new(b);
    let messages = messages();

    // write
    for msg in messages.iter() {
        let vec = bincode::serialize(&(msg.x, msg.y, msg.z.clone())).unwrap();
        write_preambled(&mut a, &vec).unwrap();
    }
    a.flush().unwrap();

    // read
    for msg in messages.iter() {
        let msg2 = r.try_read_preambled().unwrap().unwrap();
        let (x, y, z): (u32, u64, String) = bincode::deserialize(msg2).unwrap();
        assert_eq!(msg, &Whatever { x, y, z });
    }
}

struct Bincoder;

impl CanSerialize<Whatever> for Bincoder {
    fn serialize_into(&mut self, t: &Whatever, out: &mut GrowingBuffer) -> Result<(), CodecError> {
        match bincode::serialize(&(t.x, t.y, t.z.clone())) {
            Ok(bytes) => {
                out.write(&bytes);
                Ok(())
            }
            Err(_) => Err(CodecError),
        }
    }
}

impl CanDeserialize<Whatever> for Bincoder {
    fn deserialize(&mut self, bytes: &[u8]) -> Result<Whatever, CodecError> {
        match bincode::deserialize::<(u32, u64, String)>(bytes) {
            Ok((x, y, z)) => Ok(Whatever { x, y, z }),
            Err(_) => Err(CodecError),
        }
    }
}

#[test]
fn both_wrapped_serde() {
    let (a, b) = rw_channel();
    let (mut w, mut r) = (Ser::new(a, Bincoder), De::new(b, Bincoder));
    let messages = vec![
        Whatever { x: 32, y: 243, z: "Hello, there.".into() },
        Whatever { x: 23, y: 11, z: "Peace, friend.".into() },
    ];

    // write
    for msg in messages.iter() {
        w.write_msg(msg).unwrap();
    }
    w.flush().unwrap();

    //read
    for msg in messages.iter() {
        let msg2: Whatever = r.try_read().unwrap().unwrap();
        assert_eq!(msg, &msg2);
    }
}
