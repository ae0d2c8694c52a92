//! Round-trip and failure behaviour of the binary codec.

use relay_core::codec::Bitwise;
use relay_core::codec::Decoder;
use relay_core::codec::Encoder;
use relay_core::codec::PairMap;
use relay_core::sample::Foo;
use relay_core::sample::Goo;

fn round_trip<T: Bitwise + Default>(v: &T) -> T {
    let mut buffer: Vec<u8> = Vec::new();
    v.encode(&mut buffer);
    let mut out = T::default();
    let mut cursor: usize = 0;
    assert!(out.decode(&mut cursor, &buffer).is_some());
    assert_eq!(cursor, buffer.len());
    out
}

#[test]
fn test_all() {
    let mut buffer = Vec::new();
    let mut cursor = 0;

    let foo = Foo {
        a: 1,
        b: 2,
        c: 3,
        d: 4,
        e: 5,
        f: 6,
        g: 7,
        h: 8,
        i: 9,
        j: 10,
        k: 11,
        l: 12,
        o: "hello world".to_string(),
        p: vec![
            1, 2, 3, 4, 5, 6, 7, 8, 9, 10, 11, 12, 13, 14, 15, 16, 17, 18, 19, 20,
        ],
        q: {
            let mut q = PairMap::new();
            q.insert(1, 2);
            q.insert(3, 4);
            q.insert(5, 6);
            q
        },
        r: true,
        s: Goo::A { a: 1, b: 2 },
        t: Goo::B(3, 4),
        u: Goo::C,
    };

    foo.encode(&mut buffer);

    let mut foo2 = Foo::default();
    foo2.decode(&mut cursor, &buffer).unwrap();

    assert_eq!(foo, foo2);
}

#[test]
fn numbers_round_trip() {
    assert_eq!(round_trip(&0u8), 0u8);
    assert_eq!(round_trip(&255u8), 255u8);
    assert_eq!(round_trip(&0xabcdu16), 0xabcdu16);
    assert_eq!(round_trip(&0xdead_beefu32), 0xdead_beefu32);
    assert_eq!(round_trip(&u64::MAX), u64::MAX);
    assert_eq!(round_trip(&u128::MAX), u128::MAX);
    assert_eq!(round_trip(&usize::MAX), usize::MAX);
    assert_eq!(round_trip(&-1i8), -1i8);
    assert_eq!(round_trip(&i8::MIN), i8::MIN);
    assert_eq!(round_trip(&i16::MIN), i16::MIN);
    assert_eq!(round_trip(&-123456i32), -123456i32);
    assert_eq!(round_trip(&i64::MIN), i64::MIN);
    assert_eq!(round_trip(&i128::MIN), i128::MIN);
    assert_eq!(round_trip(&isize::MIN), isize::MIN);
    assert_eq!(round_trip(&true), true);
    assert_eq!(round_trip(&false), false);
}

#[test]
fn u32_wire_form_is_little_endian() {
    let mut buffer: Vec<u8> = Vec::new();
    0x0403_0201u32.encode(&mut buffer);
    assert_eq!(buffer, vec![1, 2, 3, 4]);
}

#[test]
fn strings_round_trip() {
    assert_eq!(round_trip(&String::new()), String::new());
    assert_eq!(round_trip(&"hello".to_string()), "hello".to_string());
    let snowman = "\u{2603} and text".to_string();
    assert_eq!(round_trip(&snowman), snowman);
}

#[test]
fn string_rejects_invalid_utf8() {
    // length prefix 1, then an orphan continuation byte
    let mut buffer: Vec<u8> = Vec::new();
    1usize.encode(&mut buffer);
    buffer.push(0xFF);
    let mut out = String::new();
    let mut cursor: usize = 0;
    assert!(out.decode(&mut cursor, &buffer).is_none());
    assert_eq!(cursor, 0);
}

#[test]
fn sequences_round_trip() {
    let empty: Vec<u8> = Vec::new();
    assert_eq!(round_trip(&empty), empty);
    let bytes: Vec<u8> = vec![9, 8, 7];
    assert_eq!(round_trip(&bytes), bytes);
    let words: Vec<u16> = vec![1, 0xffff, 42];
    assert_eq!(round_trip(&words), words);
}

#[test]
fn maps_round_trip() {
    let empty: PairMap<u8, u16> = PairMap::new();
    let back = round_trip(&empty);
    assert_eq!(back.len(), 0);

    let mut m: PairMap<u8, u16> = PairMap::new();
    m.insert(7, 700);
    m.insert(9, 900);
    m.insert(7, 701);
    assert_eq!(m.len(), 2);
    let back = round_trip(&m);
    assert!(m.same(&back));
    assert_eq!(back.get(&7), Some(&701));
    assert_eq!(back.get(&9), Some(&900));
    assert_eq!(back.get(&8), None);
}

#[test]
fn map_decode_tolerates_duplicate_keys() {
    // count 2, entries (5, 10) then (5, 20): the later value wins
    let mut buffer: Vec<u8> = Vec::new();
    2usize.encode(&mut buffer);
    5u8.encode(&mut buffer);
    10u16.encode(&mut buffer);
    5u8.encode(&mut buffer);
    20u16.encode(&mut buffer);
    let mut out: PairMap<u8, u16> = PairMap::new();
    let mut cursor: usize = 0;
    assert!(out.decode(&mut cursor, &buffer).is_some());
    assert_eq!(out.len(), 1);
    assert_eq!(out.get(&5), Some(&20));
}

#[test]
fn tagged_variants_round_trip() {
    assert_eq!(round_trip(&Goo::A { a: 200, b: 60000 }), Goo::A { a: 200, b: 60000 });
    assert_eq!(round_trip(&Goo::B(-5, 5)), Goo::B(-5, 5));
    assert_eq!(round_trip(&Goo::C), Goo::C);
}

#[test]
fn tagged_decode_rejects_unknown_tag() {
    let buffer: Vec<u8> = vec![3];
    let mut out = Goo::C;
    let mut cursor: usize = 0;
    assert!(out.decode(&mut cursor, &buffer).is_none());
    assert_eq!(cursor, 0);
}

#[test]
fn truncated_buffers_fail_cleanly() {
    // a u32 needs four bytes
    let buffer: Vec<u8> = vec![1, 2, 3];
    let mut out = 0u32;
    let mut cursor: usize = 0;
    assert!(out.decode(&mut cursor, &buffer).is_none());
    assert_eq!(cursor, 0);

    // a string whose declared length exceeds the remaining bytes
    let mut buffer: Vec<u8> = Vec::new();
    100usize.encode(&mut buffer);
    buffer.push(b'x');
    let mut out = String::new();
    let mut cursor: usize = 0;
    assert!(out.decode(&mut cursor, &buffer).is_none());
    assert_eq!(cursor, 0);
}

#[test]
fn oversized_sequence_length_is_rejected() {
    // declares u64::MAX elements with no data behind it: refused before
    // any allocation is attempted
    let mut buffer: Vec<u8> = Vec::new();
    u64::MAX.encode(&mut buffer);
    let mut out: Vec<u8> = Vec::new();
    let mut cursor: usize = 0;
    assert!(out.decode(&mut cursor, &buffer).is_none());
    assert_eq!(cursor, 0);
}

#[test]
fn encoder_frames_and_clears() {
    let mut encoder = Encoder::new();
    encoder.assert_empty();
    encoder.encode(&7u32);
    encoder.encode(&true);
    let frame = encoder.data().to_vec();
    // 4-byte little-endian length prefix over a 5-byte payload
    assert_eq!(&frame[..4], &[5, 0, 0, 0]);
    assert_eq!(&frame[4..], &[7, 0, 0, 0, 1]);
    encoder.clear();
    encoder.assert_empty();
    let empty_frame = encoder.data().to_vec();
    assert_eq!(empty_frame, vec![0, 0, 0, 0]);
}

#[test]
fn encoder_encode_str_uses_short_length() {
    let mut encoder = Encoder::new();
    encoder.encode_str("ab");
    let frame = encoder.data().to_vec();
    assert_eq!(&frame[4..], &[2, 0, 0, 0, b'a', b'b']);
}

#[test]
fn decoder_reads_loaded_frames() {
    let mut payload: Vec<u8> = Vec::new();
    0x1234u16.encode(&mut payload);
    "ok".to_string().encode(&mut payload);
    let mut decoder = Decoder::new();
    decoder.load(payload);
    assert_eq!(decoder.decode::<u16>(), Some(0x1234));
    assert_eq!(decoder.decode::<String>(), Some("ok".to_string()));
    assert_eq!(decoder.decode::<u8>(), None);
}
