use flood_chat::wire::{read_key, read_text, skip_field, ChatMessage, DecodeError, WireType};
use prost::encoding::DecodeContext;
use prost::Message;

fn message(from: &str, content: &str) -> ChatMessage {
    ChatMessage { from: from.to_string(), content: content.to_string() }
}

/// The same record, written and read by `prost` itself.
#[derive(Debug, Default, Clone, PartialEq)]
struct Reference {
    from: String,
    content: String,
}

impl Message for Reference {
    fn encode_raw(&self, buf: &mut impl prost::bytes::BufMut) {
        if !self.from.is_empty() {
            prost::encoding::string::encode(1, &self.from, buf);
        }
        if !self.content.is_empty() {
            prost::encoding::string::encode(2, &self.content, buf);
        }
    }

    fn merge_field(
        &mut self,
        tag: u32,
        wire_type: prost::encoding::WireType,
        buf: &mut impl prost::bytes::Buf,
        ctx: DecodeContext,
    ) -> Result<(), prost::DecodeError> {
        match tag {
            1 => prost::encoding::string::merge(wire_type, &mut self.from, buf, ctx),
            2 => prost::encoding::string::merge(wire_type, &mut self.content, buf, ctx),
            _ => prost::encoding::skip_field(wire_type, tag, buf, ctx),
        }
    }

    fn encoded_len(&self) -> usize {
        let mut len = 0;
        if !self.from.is_empty() {
            len += prost::encoding::string::encoded_len(1, &self.from);
        }
        if !self.content.is_empty() {
            len += prost::encoding::string::encoded_len(2, &self.content);
        }
        len
    }

    fn clear(&mut self) {
        self.from.clear();
        self.content.clear();
    }
}

fn reference_decode(bytes: &[u8]) -> Option<(String, String)> {
    match Reference::decode(bytes) {
        Ok(m) => Some((m.from, m.content)),
        Err(_) => None,
    }
}

fn library_decode(bytes: &[u8]) -> Option<(String, String)> {
    match ChatMessage::decode(bytes) {
        Ok(m) => Some((m.from, m.content)),
        Err(_) => None,
    }
}

#[test]
fn encodes_both_fields_in_order() {
    let bytes = message("alice", "hello").encode_to_vec();
    assert_eq!(
        bytes,
        vec![0x0a, 5, b'a', b'l', b'i', b'c', b'e', 0x12, 5, b'h', b'e', b'l', b'l', b'o']
    );
}

#[test]
fn encode_appends_to_what_the_buffer_holds() {
    let mut buf = vec![0xee, 0xff];
    message("a", "b").encode(&mut buf);
    assert_eq!(buf, vec![0xee, 0xff, 0x0a, 1, b'a', 0x12, 1, b'b']);
}

#[test]
fn encode_leaves_out_an_empty_text() {
    assert_eq!(message("", "hi").encode_to_vec(), vec![0x12, 2, b'h', b'i']);
    assert_eq!(message("bob", "").encode_to_vec(), vec![0x0a, 3, b'b', b'o', b'b']);
}

#[test]
fn round_trip_plain_text() {
    let written = message("alice", "hello");
    let decoded = ChatMessage::decode(&written.encode_to_vec());
    assert_eq!(decoded, Ok(written));
}

#[test]
fn round_trip_empty_strings() {
    let written = message("", "");
    let bytes = written.encode_to_vec();
    assert!(bytes.is_empty());
    assert_eq!(ChatMessage::decode(&bytes), Ok(written));
}

#[test]
fn round_trip_one_empty_field() {
    let only_content = message("", "text");
    assert_eq!(ChatMessage::decode(&only_content.encode_to_vec()), Ok(only_content));
    let only_alias = message("name", "");
    assert_eq!(ChatMessage::decode(&only_alias.encode_to_vec()), Ok(only_alias));
}

#[test]
fn round_trip_non_ascii_text() {
    let written = message("Zoë", "grüß dich, 世界 🌍");
    let decoded = ChatMessage::decode(&written.encode_to_vec());
    assert_eq!(decoded, Ok(written));
}

#[test]
fn round_trip_long_text_needs_two_length_bytes() {
    let text = "x".repeat(300);
    let written = message("bob", &text);
    let bytes = written.encode_to_vec();
    assert_eq!(&bytes[..5], &[0x0a, 3, b'b', b'o', b'b']);
    assert_eq!(&bytes[5..8], &[0x12, 0xac, 0x02]);
    assert_eq!(bytes.len(), 8 + 300);
    assert_eq!(ChatMessage::decode(&bytes), Ok(written));
}

#[test]
fn round_trip_text_of_many_lengths() {
    for len in [0usize, 1, 127, 128, 129, 16383, 16384, 70000] {
        let written = message("n", &"é".repeat(len));
        let bytes = written.encode_to_vec();
        assert_eq!(ChatMessage::decode(&bytes), Ok(written));
    }
}

#[test]
fn encoding_agrees_with_prost() {
    for (from, content) in [("alice", "hello"), ("", ""), ("", "x"), ("Zoë", "世界 🌍"), ("y", "")] {
        let reference = Reference { from: from.to_string(), content: content.to_string() };
        assert_eq!(message(from, content).encode_to_vec(), Message::encode_to_vec(&reference));
    }
    let long = "long ".repeat(5000);
    let reference = Reference { from: long.clone(), content: long.clone() };
    assert_eq!(message(&long, &long).encode_to_vec(), Message::encode_to_vec(&reference));
}

#[test]
fn decode_takes_fields_in_either_order() {
    let bytes = vec![0x12, 2, b'h', b'i', 0x0a, 3, b'b', b'o', b'b'];
    assert_eq!(ChatMessage::decode(&bytes), Ok(message("bob", "hi")));
}

#[test]
fn decode_keeps_the_last_of_a_repeated_field() {
    let bytes = vec![0x0a, 1, b'a', 0x12, 1, b'x', 0x0a, 1, b'b'];
    assert_eq!(ChatMessage::decode(&bytes), Ok(message("b", "x")));
}

#[test]
fn decode_takes_an_empty_text_that_is_written_out() {
    let bytes = vec![0x0a, 1, b'a', 0x0a, 0];
    assert_eq!(ChatMessage::decode(&bytes), Ok(message("", "")));
}

#[test]
fn decode_steps_over_unknown_fields() {
    let mut bytes = vec![0x0a, 1, b'a'];
    bytes.extend_from_slice(&[0x18, 0xac, 0x02]); // field 3, varint 300
    bytes.extend_from_slice(&[0x21, 1, 2, 3, 4, 5, 6, 7, 8]); // field 4, eight bytes
    bytes.extend_from_slice(&[0x2a, 2, 0xff, 0xfe]); // field 5, two bytes, no text
    bytes.extend_from_slice(&[0x35, 1, 2, 3, 4]); // field 6, four bytes
    bytes.extend_from_slice(&[0x12, 1, b'b']);
    assert_eq!(ChatMessage::decode(&bytes), Ok(message("a", "b")));
}

#[test]
fn decode_steps_over_an_unknown_group() {
    // field 3 begins a group that holds a varint field and a nested group
    let bytes = vec![0x1b, 0x08, 0x01, 0x23, 0x24, 0x1c, 0x12, 1, b'b'];
    assert_eq!(ChatMessage::decode(&bytes), Ok(message("", "b")));
    assert_eq!(reference_decode(&bytes), Some((String::new(), "b".to_string())));
}

#[test]
fn decode_takes_a_known_field_number_inside_a_group_as_unknown() {
    let bytes = vec![0x1b, 0x0a, 1, b'z', 0x1c];
    assert_eq!(ChatMessage::decode(&bytes), Ok(message("", "")));
}

#[test]
fn decode_rejects_a_truncated_varint() {
    assert_eq!(ChatMessage::decode(&[0x80]), Err(DecodeError::InvalidVarint));
    assert_eq!(ChatMessage::decode(&[0x0a, 0x80]), Err(DecodeError::InvalidVarint));
    assert_eq!(ChatMessage::decode(&[0x18]), Err(DecodeError::InvalidVarint));
}

#[test]
fn decode_rejects_a_varint_beyond_64_bits() {
    let mut bytes = vec![0x18];
    bytes.extend_from_slice(&[0xff; 9]);
    bytes.push(0x02);
    assert_eq!(ChatMessage::decode(&bytes), Err(DecodeError::InvalidVarint));
    let mut eleven = vec![0x18];
    eleven.extend_from_slice(&[0x80; 10]);
    eleven.push(0x00);
    assert_eq!(ChatMessage::decode(&eleven), Err(DecodeError::InvalidVarint));
}

#[test]
fn decode_takes_the_largest_varint() {
    let mut bytes = vec![0x18];
    bytes.extend_from_slice(&[0xff; 9]);
    bytes.push(0x01);
    assert_eq!(ChatMessage::decode(&bytes), Ok(message("", "")));
}

#[test]
fn decode_rejects_a_key_beyond_32_bits() {
    let bytes = vec![0x80, 0x80, 0x80, 0x80, 0x10];
    assert_eq!(ChatMessage::decode(&bytes), Err(DecodeError::InvalidKey));
}

#[test]
fn decode_rejects_a_layout_that_does_not_exist() {
    assert_eq!(ChatMessage::decode(&[0x0e]), Err(DecodeError::InvalidWireType));
    assert_eq!(ChatMessage::decode(&[0x0f]), Err(DecodeError::InvalidWireType));
}

#[test]
fn decode_rejects_field_zero() {
    assert_eq!(ChatMessage::decode(&[0x02, 0x00]), Err(DecodeError::InvalidTag));
}

#[test]
fn decode_rejects_a_text_field_of_another_layout() {
    assert_eq!(ChatMessage::decode(&[0x08, 0x01]), Err(DecodeError::UnexpectedWireType));
    assert_eq!(ChatMessage::decode(&[0x15, 1, 2, 3, 4]), Err(DecodeError::UnexpectedWireType));
}

#[test]
fn decode_rejects_a_value_longer_than_the_input() {
    assert_eq!(ChatMessage::decode(&[0x0a, 5, b'a']), Err(DecodeError::BufferUnderflow));
    assert_eq!(ChatMessage::decode(&[0x21, 1, 2, 3]), Err(DecodeError::BufferUnderflow));
    assert_eq!(ChatMessage::decode(&[0x35, 1, 2, 3]), Err(DecodeError::BufferUnderflow));
    assert_eq!(ChatMessage::decode(&[0x2a, 3, 1]), Err(DecodeError::BufferUnderflow));
}

#[test]
fn decode_rejects_text_that_is_not_utf8() {
    assert_eq!(ChatMessage::decode(&[0x0a, 1, 0xff]), Err(DecodeError::InvalidString));
    assert_eq!(ChatMessage::decode(&[0x12, 2, 0xc3, 0x28]), Err(DecodeError::InvalidString));
}

#[test]
fn decode_rejects_a_group_end_out_of_place() {
    assert_eq!(ChatMessage::decode(&[0x1c]), Err(DecodeError::UnexpectedEndGroupTag));
    assert_eq!(ChatMessage::decode(&[0x1b, 0x24]), Err(DecodeError::UnexpectedEndGroupTag));
}

#[test]
fn decode_rejects_groups_nested_too_deeply() {
    let mut deep = vec![0x1b; 101];
    deep.extend_from_slice(&[0x1c; 101]);
    assert_eq!(ChatMessage::decode(&deep), Err(DecodeError::RecursionLimitReached));
    assert_eq!(reference_decode(&deep), None);
    let mut fits = vec![0x1b; 100];
    fits.extend_from_slice(&[0x1c; 100]);
    assert_eq!(ChatMessage::decode(&fits), Ok(message("", "")));
    assert_eq!(reference_decode(&fits), Some((String::new(), String::new())));
}

#[test]
fn decode_rejects_a_field_at_the_deepest_level() {
    let mut deep = vec![0x1b; 100];
    deep.extend_from_slice(&[0x08, 0x01]);
    deep.extend_from_slice(&[0x1c; 100]);
    assert_eq!(ChatMessage::decode(&deep), Err(DecodeError::RecursionLimitReached));
    assert_eq!(reference_decode(&deep), None);
}

#[test]
fn decode_rejects_a_group_that_does_not_end() {
    assert_eq!(ChatMessage::decode(&[0x1b]), Err(DecodeError::InvalidVarint));
    assert_eq!(ChatMessage::decode(&[0x1b, 0x08, 0x01]), Err(DecodeError::InvalidVarint));
}

#[test]
fn decoding_agrees_with_prost_on_arbitrary_bytes() {
    // a small generator of byte strings that lean towards the format's bytes
    let palette: [u8; 24] = [
        0x0a, 0x12, 0x08, 0x10, 0x18, 0x1b, 0x1c, 0x21, 0x25, 0x2a, 0x0e, 0x02, 0x00, 0x01, 0x02,
        0x03, 0x7f, 0x80, 0xff, 0xc3, 0xa9, b'a', b'b', 0x23,
    ];
    let mut state: u64 = 0x2545_f491_4f6c_dd1d;
    let mut agreed = 0;
    for _ in 0..20000 {
        state ^= state << 13;
        state ^= state >> 7;
        state ^= state << 17;
        let len = (state % 12) as usize;
        let mut bytes = Vec::new();
        let mut pick = state;
        for _ in 0..len {
            pick ^= pick << 13;
            pick ^= pick >> 7;
            pick ^= pick << 17;
            bytes.push(palette[(pick % 24) as usize]);
        }
        assert_eq!(library_decode(&bytes), reference_decode(&bytes), "input {:?}", bytes);
        if library_decode(&bytes).is_some() {
            agreed += 1;
        }
    }
    assert!(agreed > 100);
}

#[test]
fn read_key_agrees_with_prost() {
    for bytes in [
        vec![0x0a],
        vec![0x12, 1],
        vec![0xfa, 0xff, 0xff, 0xff, 0x0f, 9],
        vec![0x80, 0x01],
        vec![0x00],
        vec![0x07],
        vec![],
        vec![0xff],
        vec![0x80, 0x80, 0x80, 0x80, 0x10],
    ] {
        let mut rest: &[u8] = &bytes;
        let reference = prost::encoding::decode_key(&mut rest).ok();
        let reference = reference.map(|(tag, wire)| (tag, wire as u8, rest.to_vec()));
        let ours = read_key(&bytes).ok().map(|(tag, wire, rest)| {
            let code = match wire {
                WireType::Varint => 0u8,
                WireType::SixtyFourBit => 1,
                WireType::LengthDelimited => 2,
                WireType::StartGroup => 3,
                WireType::EndGroup => 4,
                WireType::ThirtyTwoBit => 5,
            };
            (tag, code, rest.to_vec())
        });
        assert_eq!(ours, reference, "input {:?}", bytes);
    }
}

#[test]
fn read_key_splits_number_and_layout() {
    assert_eq!(read_key(&[0x0a, 7]), Ok((1, WireType::LengthDelimited, &[7u8][..])));
    assert_eq!(
        read_key(&[0xfd, 0xff, 0xff, 0xff, 0x0f]),
        Ok((0x1fff_ffff, WireType::ThirtyTwoBit, &[][..]))
    );
}

#[test]
fn skip_field_returns_what_follows() {
    assert_eq!(skip_field(&[0xac, 0x02, 9], WireType::Varint, 3), Ok(&[9u8][..]));
    assert_eq!(skip_field(&[2, 1, 1, 9], WireType::LengthDelimited, 3), Ok(&[9u8][..]));
    assert_eq!(skip_field(&[0x1c, 9], WireType::StartGroup, 3), Ok(&[9u8][..]));
    assert_eq!(
        skip_field(&[9], WireType::EndGroup, 3),
        Err(DecodeError::UnexpectedEndGroupTag)
    );
}

#[test]
fn read_text_returns_text_and_rest() {
    assert_eq!(
        read_text(&[2, b'h', b'i', 9], WireType::LengthDelimited),
        Ok(("hi".to_string(), &[9u8][..]))
    );
    assert_eq!(read_text(&[0], WireType::LengthDelimited), Ok((String::new(), &[][..])));
}

#[test]
fn a_message_is_shown_as_alias_colon_text() {
    assert_eq!(message("alice", "hello").to_line(), "alice: hello");
    assert_eq!(message("", "").to_line(), ": ");
    assert_eq!(message("Zoë", "grüß dich").to_line(), "Zoë: grüß dich");
}

#[test]
fn a_copy_of_a_message_equals_it() {
    let written = message("alice", "hello");
    assert_eq!(written.clone(), written);
}
