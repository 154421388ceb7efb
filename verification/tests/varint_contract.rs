//! What the library takes on trust about `prost`'s varints, held against
//! `prost` itself. The three functions below say in plain code what the
//! library's contracts say of a varint's width, value and acceptance.

use flood_chat::wire::{read_key, ChatMessage, DecodeError};

fn width(s: &[u8]) -> usize {
    match s.iter().position(|b| *b < 128) {
        Some(at) => at + 1,
        None => 0,
    }
}

fn value(s: &[u8]) -> u128 {
    match s.first() {
        None => 0,
        Some(b) if *b < 128 => *b as u128,
        Some(b) => (*b as u128 - 128) + 128 * value(&s[1..]),
    }
}

fn accepted(s: &[u8]) -> bool {
    let w = width(s);
    1 <= w && w <= 10 && (w != 10 || s[9] < 2)
}

fn bytes_of(v: u128) -> Vec<u8> {
    if v < 128 {
        vec![v as u8]
    } else {
        let mut out = vec![(v % 128 + 128) as u8];
        out.extend(bytes_of(v / 128));
        out
    }
}

fn held_against_prost(input: &[u8]) {
    let mut rest = input;
    match prost::encoding::decode_varint(&mut rest) {
        Ok(read) => {
            assert!(accepted(input), "{:?}", input);
            assert_eq!(read as u128, value(&input[..width(input)]), "{:?}", input);
            assert_eq!(rest, &input[width(input)..], "{:?}", input);
        }
        Err(_) => assert!(!accepted(input), "{:?}", input),
    }
}

#[test]
fn prost_writes_varints_as_the_contract_says() {
    let mut samples: Vec<u64> = vec![0, 1, 127, 128, 129, 300, 16383, 16384, u64::MAX, u64::MAX - 1];
    for shift in 0..64 {
        samples.push(1u64 << shift);
        samples.push((1u64 << shift) - 1);
        samples.push((1u64 << shift) + 1);
    }
    let mut state: u64 = 0x9e37_79b9_7f4a_7c15;
    for _ in 0..5000 {
        state ^= state << 13;
        state ^= state >> 7;
        state ^= state << 17;
        samples.push(state >> (state % 64));
    }
    for v in samples {
        let mut buf = vec![0xaa];
        prost::encoding::encode_varint(v, &mut buf);
        assert_eq!(buf[0], 0xaa);
        assert_eq!(&buf[1..], &bytes_of(v as u128)[..], "{}", v);
        assert!(buf.len() - 1 <= 10);
        held_against_prost(&buf[1..]);
    }
}

#[test]
fn prost_reads_varints_as_the_contract_says() {
    // every input of up to two bytes
    held_against_prost(&[]);
    for a in 0..=255u8 {
        held_against_prost(&[a]);
        for b in 0..=255u8 {
            held_against_prost(&[a, b]);
        }
    }
    // long runs of continuation bytes, ended or not, with every tenth byte
    for len in 1..=12usize {
        for last in [0x00u8, 0x01, 0x02, 0x03, 0x7f, 0x80, 0x81, 0xff] {
            for fill in [0x80u8, 0x81, 0xff] {
                let mut input = vec![fill; len - 1];
                input.push(last);
                held_against_prost(&input);
                input.extend_from_slice(&[0x00, 0x05, 0x80]);
                held_against_prost(&input);
            }
        }
    }
    // arbitrary bytes
    let mut state: u64 = 0x2545_f491_4f6c_dd1d;
    for _ in 0..50000 {
        state ^= state << 13;
        state ^= state >> 7;
        state ^= state << 17;
        let len = (state % 14) as usize;
        let mut input = Vec::new();
        let mut pick = state;
        for _ in 0..len {
            pick ^= pick << 13;
            pick ^= pick >> 7;
            pick ^= pick << 17;
            // lean towards bytes with the top bit set, so that long varints occur
            let byte = (pick >> 8) as u8;
            input.push(if pick % 4 == 0 { byte } else { byte | 0x80 });
        }
        held_against_prost(&input);
    }
}

#[test]
fn the_library_reads_a_key_where_the_varint_is_accepted() {
    for input in [vec![0x0a], vec![0x8a, 0x00], vec![0x80], vec![], vec![0xff; 10], vec![0xff; 11]] {
        let outcome = read_key(&input);
        if accepted(&input) {
            assert_ne!(outcome, Err(DecodeError::InvalidVarint), "{:?}", input);
        } else {
            assert_eq!(outcome, Err(DecodeError::InvalidVarint), "{:?}", input);
        }
    }
    // a key written with a needless second byte is still field 1, length-delimited
    assert_eq!(
        ChatMessage::decode(&[0x8a, 0x00, 1, b'a']),
        Ok(ChatMessage { from: "a".to_string(), content: String::new() })
    );
}
