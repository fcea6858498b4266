use helium_api::cobs::{decode, encode};

fn frame(data: &[u8]) -> Vec<u8> {
    encode(data)
}

#[test]
fn encode_empty_packet() {
    assert_eq!(frame(&[]), vec![0x01, 0x00]);
}

#[test]
fn encode_zero_bytes() {
    assert_eq!(frame(&[0x00]), vec![0x01, 0x01, 0x00]);
    assert_eq!(frame(&[0x00, 0x00]), vec![0x01, 0x01, 0x01, 0x00]);
    assert_eq!(frame(&[0x11, 0x00, 0x00, 0x00]), vec![0x02, 0x11, 0x01, 0x01, 0x01, 0x00]);
}

#[test]
fn encode_mixed_bytes() {
    assert_eq!(frame(&[0x11, 0x22, 0x00, 0x33]), vec![0x03, 0x11, 0x22, 0x02, 0x33, 0x00]);
    assert_eq!(frame(&[0x11, 0x22, 0x33, 0x44]), vec![0x05, 0x11, 0x22, 0x33, 0x44, 0x00]);
}

#[test]
fn encode_long_blocks() {
    // 254 non-zero bytes fill one block exactly.
    let data: Vec<u8> = (1..=254u8).collect();
    let mut expected = vec![0xFF];
    expected.extend_from_slice(&data);
    expected.push(0x00);
    assert_eq!(frame(&data), expected);

    // A leading zero, then 254 non-zero bytes.
    let data: Vec<u8> = (0..=254u8).collect();
    let mut expected = vec![0x01, 0xFF];
    expected.extend(1..=254u8);
    expected.push(0x00);
    assert_eq!(frame(&data), expected);

    // 255 non-zero bytes need a second block.
    let data: Vec<u8> = (1..=255u8).collect();
    let mut expected = vec![0xFF];
    expected.extend(1..=254u8);
    expected.extend_from_slice(&[0x02, 0xFF, 0x00]);
    assert_eq!(frame(&data), expected);

    // 254 non-zero bytes then a zero.
    let mut data: Vec<u8> = (2..=255u8).collect();
    data.push(0x00);
    let mut expected = vec![0xFF];
    expected.extend(2..=255u8);
    expected.extend_from_slice(&[0x01, 0x01, 0x00]);
    assert_eq!(frame(&data), expected);

    // 253 non-zero bytes, a zero, then one byte.
    let mut data: Vec<u8> = (3..=255u8).collect();
    data.extend_from_slice(&[0x00, 0x01]);
    let mut expected = vec![0xFE];
    expected.extend(3..=255u8);
    expected.extend_from_slice(&[0x02, 0x01, 0x00]);
    assert_eq!(frame(&data), expected);
}

#[test]
fn encoding_has_no_zero_but_the_delimiter() {
    let data: Vec<u8> = (0..600u32).map(|i| (i % 7) as u8).collect();
    let f = frame(&data);
    assert_eq!(f.last(), Some(&0x00));
    assert!(f[..f.len() - 1].iter().all(|&b| b != 0));
}

#[test]
fn decode_gives_back_the_packet_and_the_rest() {
    let data = vec![0x11, 0x22, 0x00, 0x33];
    let mut buf = frame(&data);
    buf.extend_from_slice(&[0x09, 0x08]);
    let (packet, rest) = decode(&buf);
    assert_eq!(packet, data);
    assert_eq!(rest, &[0x09, 0x08]);
}

#[test]
fn decode_roundtrip_many_lengths() {
    for n in 0..700usize {
        let data: Vec<u8> = (0..n).map(|i| ((i * 31 + 7) % 256) as u8).collect();
        let f = frame(&data);
        let (packet, rest) = decode(&f);
        assert_eq!(packet, data);
        assert!(rest.is_empty());
    }
}

#[test]
fn decode_without_delimiter_keeps_everything() {
    let buf = [0x03, 0x11, 0x22];
    let (packet, rest) = decode(&buf);
    assert!(packet.is_empty());
    assert_eq!(rest, &buf);
}

#[test]
fn decode_malformed_frame_gives_empty_packet() {
    // The code byte promises four data bytes but the frame ends after one.
    let buf = [0x05, 0x11, 0x00, 0x42];
    let (packet, rest) = decode(&buf);
    assert!(packet.is_empty());
    assert_eq!(rest, &[0x42]);

    // A frame with no bytes before its delimiter.
    let (packet, rest) = decode(&[0x00, 0x07]);
    assert!(packet.is_empty());
    assert_eq!(rest, &[0x07]);
}
