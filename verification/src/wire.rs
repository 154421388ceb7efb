//! The wire form of a chat message: a record of two text fields, each written
//! as a key, a length and the text's UTF-8 bytes. A reader takes the fields in
//! any order, keeps the last value of a repeated field, and steps over fields
//! that it does not know.

use vstd::prelude::*;
use vstd::utf8::*;
use vstd::string::*;
use vstd::slice::{slice_subrange, slice_to_vec};
use crate::varint::{
    lemma_varint_round_trip, lemma_varint_width_bound, put_varint, take_varint, varint_accepted,
    varint_bytes, varint_value, varint_width,
};

verus! {

/// How the value behind a key is laid out.
#[derive(Clone, Copy, Debug, PartialEq, Eq, Structural)]
pub enum WireType {
    Varint,
    SixtyFourBit,
    LengthDelimited,
    StartGroup,
    EndGroup,
    ThirtyTwoBit,
}

/// Why a byte string is no chat message.
#[derive(Clone, Copy, Debug, PartialEq, Eq, Structural)]
pub enum DecodeError {
    /// A varint ends after the input does, or does not fit in 64 bits.
    InvalidVarint,
    /// A key does not fit in 32 bits.
    InvalidKey,
    /// A key names a layout that does not exist.
    InvalidWireType,
    /// A key names field 0.
    InvalidTag,
    /// A text field is not laid out as length-delimited.
    UnexpectedWireType,
    /// A value is longer than the input that is left.
    BufferUnderflow,
    /// A text field is not UTF-8.
    InvalidString,
    /// A group ends that was not begun, or under another field number.
    UnexpectedEndGroupTag,
    /// Groups are nested too deeply.
    RecursionLimitReached,
}

/// The field number of the sender's alias.
pub const FROM_TAG: u32 = 1;

/// The field number of the message text.
pub const CONTENT_TAG: u32 = 2;

/// How many groups may be open at once when a reader steps over a field.
pub const GROUP_DEPTH_LIMIT: usize = 100;

/// The layout that the three low bits of a key name, if any.
pub open spec fn wire_type_of(code: nat) -> Option<WireType> {
    if code == 0 {
        Some(WireType::Varint)
    } else if code == 1 {
        Some(WireType::SixtyFourBit)
    } else if code == 2 {
        Some(WireType::LengthDelimited)
    } else if code == 3 {
        Some(WireType::StartGroup)
    } else if code == 4 {
        Some(WireType::EndGroup)
    } else if code == 5 {
        Some(WireType::ThirtyTwoBit)
    } else {
        None
    }
}

/// A key read from the start of some input, and the input behind it.
pub struct KeyAt {
    pub tag: u32,
    pub wire: WireType,
    pub rest: Seq<u8>,
}

/// The key at the start of `s`: a varint whose low three bits name the layout
/// and whose other bits are the field number.
pub open spec fn key_at(s: Seq<u8>) -> Result<KeyAt, DecodeError> {
    if !varint_accepted(s) {
        Err(DecodeError::InvalidVarint)
    } else if varint_value(s) > u32::MAX {
        Err(DecodeError::InvalidKey)
    } else if wire_type_of(varint_value(s) % 8) is None {
        Err(DecodeError::InvalidWireType)
    } else if varint_value(s) / 8 == 0 {
        Err(DecodeError::InvalidTag)
    } else {
        Ok(
            KeyAt {
                tag: (varint_value(s) / 8) as u32,
                wire: wire_type_of(varint_value(s) % 8).unwrap(),
                rest: s.skip(varint_width(s) as int),
            },
        )
    }
}

/// What is left of `s` behind a value that is no group: a varint, four or
/// eight bytes, or a length and as many bytes.
pub open spec fn skip_plain(s: Seq<u8>, wire: WireType) -> Result<Seq<u8>, DecodeError> {
    match wire {
        WireType::Varint => if varint_accepted(s) {
            Ok(s.skip(varint_width(s) as int))
        } else {
            Err(DecodeError::InvalidVarint)
        },
        WireType::SixtyFourBit => if s.len() >= 8 {
            Ok(s.skip(8))
        } else {
            Err(DecodeError::BufferUnderflow)
        },
        WireType::ThirtyTwoBit => if s.len() >= 4 {
            Ok(s.skip(4))
        } else {
            Err(DecodeError::BufferUnderflow)
        },
        WireType::LengthDelimited => if !varint_accepted(s) {
            Err(DecodeError::InvalidVarint)
        } else if varint_value(s) > s.len() - varint_width(s) {
            Err(DecodeError::BufferUnderflow)
        } else {
            Ok(s.skip(varint_width(s) as int + varint_value(s) as int))
        },
        _ => Err(DecodeError::UnexpectedEndGroupTag),
    }
}

/// What is left of `s` behind the groups that are open, innermost last in
/// `open`. Inside a group stand fields of any layout, further groups among
/// them, up to the key that ends it under its own field number.
pub open spec fn skip_open_groups(s: Seq<u8>, open: Seq<u32>) -> Result<Seq<u8>, DecodeError>
    decreases s.len(),
{
    if open.len() == 0 {
        Ok(s)
    } else {
        match key_at(s) {
            Err(e) => Err(e),
            Ok(key) => {
                proof {
                    lemma_varint_width_bound(s);
                    lemma_varint_width_bound(key.rest);
                }
                if key.wire == WireType::EndGroup {
                    if key.tag != open.last() {
                        Err(DecodeError::UnexpectedEndGroupTag)
                    } else {
                        skip_open_groups(key.rest, open.drop_last())
                    }
                } else if open.len() >= GROUP_DEPTH_LIMIT {
                    Err(DecodeError::RecursionLimitReached)
                } else if key.wire == WireType::StartGroup {
                    skip_open_groups(key.rest, open.push(key.tag))
                } else {
                    match skip_plain(key.rest, key.wire) {
                        Err(e) => Err(e),
                        Ok(rest) => skip_open_groups(rest, open),
                    }
                }
            },
        }
    }
}

/// What is left of `s` behind the value of a field with number `tag` and
/// layout `wire`.
pub open spec fn skip_field_at(s: Seq<u8>, wire: WireType, tag: u32) -> Result<
    Seq<u8>,
    DecodeError,
> {
    match wire {
        WireType::StartGroup => skip_open_groups(s, seq![tag]),
        WireType::EndGroup => Err(DecodeError::UnexpectedEndGroupTag),
        _ => skip_plain(s, wire),
    }
}

/// A text read from the start of some input, and the input behind it.
pub struct TextAt {
    pub text: Seq<char>,
    pub rest: Seq<u8>,
}

/// The text field at the start of `s`: a length, then as many bytes of UTF-8.
pub open spec fn text_at(s: Seq<u8>, wire: WireType) -> Result<TextAt, DecodeError> {
    if wire != WireType::LengthDelimited {
        Err(DecodeError::UnexpectedWireType)
    } else if !varint_accepted(s) {
        Err(DecodeError::InvalidVarint)
    } else if varint_value(s) > s.len() - varint_width(s) {
        Err(DecodeError::BufferUnderflow)
    } else {
        let start = varint_width(s) as int;
        let end = start + varint_value(s) as int;
        if !valid_utf8(s.subrange(start, end)) {
            Err(DecodeError::InvalidString)
        } else {
            Ok(TextAt { text: decode_utf8(s.subrange(start, end)), rest: s.skip(end) })
        }
    }
}

/// Stepping over open groups never yields more input than there was.
pub proof fn lemma_skip_open_groups_shrinks(s: Seq<u8>, open: Seq<u32>)
    ensures
        skip_open_groups(s, open) is Ok ==> skip_open_groups(s, open).unwrap().len() <= s.len(),
        skip_open_groups(s, open) is Ok && open.len() > 0 ==> skip_open_groups(
            s,
            open,
        ).unwrap().len() < s.len(),
    decreases s.len(),
{
    if open.len() > 0 && key_at(s) is Ok {
        let key = key_at(s).unwrap();
        lemma_varint_width_bound(s);
        lemma_varint_width_bound(key.rest);
        if key.wire == WireType::EndGroup {
            if key.tag == open.last() {
                lemma_skip_open_groups_shrinks(key.rest, open.drop_last());
            }
        } else if open.len() >= GROUP_DEPTH_LIMIT {
        } else if key.wire == WireType::StartGroup {
            lemma_skip_open_groups_shrinks(key.rest, open.push(key.tag));
        } else if skip_plain(key.rest, key.wire) is Ok {
            lemma_skip_open_groups_shrinks(skip_plain(key.rest, key.wire).unwrap(), open);
        }
    }
}

/// Stepping over a field never yields more input than there was.
pub proof fn lemma_skip_field_shrinks(s: Seq<u8>, wire: WireType, tag: u32)
    ensures
        skip_field_at(s, wire, tag) is Ok ==> skip_field_at(s, wire, tag).unwrap().len() <= s.len(),
{
    lemma_varint_width_bound(s);
    lemma_skip_open_groups_shrinks(s, seq![tag]);
}

/// A chat message as contracts speak of it: the two texts.
pub struct ChatMessageView {
    pub from: Seq<char>,
    pub content: Seq<char>,
}

/// The message that the fields in `s` make of one that holds `from` and
/// `content` so far: each field of the alias or of the text replaces what was
/// there, and every other field is stepped over.
pub open spec fn fields_at(s: Seq<u8>, from: Seq<char>, content: Seq<char>) -> Result<
    ChatMessageView,
    DecodeError,
>
    decreases s.len(),
{
    if s.len() == 0 {
        Ok(ChatMessageView { from, content })
    } else {
        match key_at(s) {
            Err(e) => Err(e),
            Ok(key) => {
                proof {
                    lemma_varint_width_bound(s);
                    lemma_skip_field_shrinks(key.rest, key.wire, key.tag);
                }
                if key.tag == FROM_TAG {
                    match text_at(key.rest, key.wire) {
                        Err(e) => Err(e),
                        Ok(field) => fields_at(field.rest, field.text, content),
                    }
                } else if key.tag == CONTENT_TAG {
                    match text_at(key.rest, key.wire) {
                        Err(e) => Err(e),
                        Ok(field) => fields_at(field.rest, from, field.text),
                    }
                } else {
                    match skip_field_at(key.rest, key.wire, key.tag) {
                        Err(e) => Err(e),
                        Ok(rest) => fields_at(rest, from, content),
                    }
                }
            },
        }
    }
}

/// The message that `s` stands for, or why it stands for none. A field that
/// is absent leaves its text empty.
pub open spec fn message_at(s: Seq<u8>) -> Result<ChatMessageView, DecodeError> {
    fields_at(s, Seq::empty(), Seq::empty())
}

/// The largest field number that a key can carry.
pub const MAX_TAG: u32 = 0x1fff_ffff;

/// The wire form of one text field: nothing where the text is empty, else the
/// key of a length-delimited field `tag`, the number of bytes, and the bytes.
pub open spec fn text_field_bytes(tag: u32, text: Seq<char>) -> Seq<u8> {
    if text.len() == 0 {
        Seq::empty()
    } else {
        varint_bytes((tag * 8 + 2) as nat) + varint_bytes(encode_utf8(text).len())
            + encode_utf8(text)
    }
}

/// The wire form of a message: the alias, then the text.
pub open spec fn message_bytes(message: ChatMessageView) -> Seq<u8> {
    text_field_bytes(FROM_TAG, message.from) + text_field_bytes(CONTENT_TAG, message.content)
}

/// The line that shows a message: the alias, a colon and a space, the text.
pub open spec fn line_of(message: ChatMessageView) -> Seq<char> {
    message.from + seq![':', ' '] + message.content
}

/// The key of a text field is read as that field's number, with the layout
/// of a length-delimited value.
proof fn lemma_text_key_read_back(tag: u32, value: Seq<u8>)
    requires
        tag == FROM_TAG || tag == CONTENT_TAG,
    ensures
        key_at(varint_bytes((tag * 8 + 2) as nat) + value) == Ok::<KeyAt, DecodeError>(
            KeyAt { tag, wire: WireType::LengthDelimited, rest: value },
        ),
{
    let key = (tag * 8 + 2) as u64;
    let s = varint_bytes(key as nat) + value;
    assert(s.skip(1) =~= value);
}

/// A length and as many bytes of UTF-8 are read as the text that the bytes
/// spell, and leave what follows them.
proof fn lemma_text_value_read_back(raw: Seq<u8>, tail: Seq<u8>)
    requires
        raw.len() <= u64::MAX,
        valid_utf8(raw),
    ensures
        text_at(varint_bytes(raw.len()) + raw + tail, WireType::LengthDelimited) == Ok::<
            TextAt,
            DecodeError,
        >(TextAt { text: decode_utf8(raw), rest: tail }),
{
    let value = varint_bytes(raw.len()) + raw + tail;
    assert(value =~= varint_bytes(raw.len()) + (raw + tail));
    lemma_varint_round_trip(raw.len() as u64, raw + tail);
    let start = varint_width(value) as int;
    assert(value.subrange(start, start + raw.len()) =~= raw);
    assert(value.skip(start + raw.len()) =~= tail);
}

/// A key, a length and as many bytes of UTF-8 are read as one text field,
/// whose text replaces what the message held under that number.
proof fn lemma_text_field_step(
    tag: u32,
    raw: Seq<u8>,
    tail: Seq<u8>,
    from: Seq<char>,
    content: Seq<char>,
)
    requires
        tag == FROM_TAG || tag == CONTENT_TAG,
        raw.len() <= u64::MAX,
        valid_utf8(raw),
    ensures
        fields_at(
            varint_bytes((tag * 8 + 2) as nat) + (varint_bytes(raw.len()) + raw + tail),
            from,
            content,
        ) == fields_at(
            tail,
            if tag == FROM_TAG {
                decode_utf8(raw)
            } else {
                from
            },
            if tag == CONTENT_TAG {
                decode_utf8(raw)
            } else {
                content
            },
        ),
{
    let value = varint_bytes(raw.len()) + raw + tail;
    lemma_text_key_read_back(tag, value);
    lemma_text_value_read_back(raw, tail);
}

/// A text field that was written is read as that text, whatever follows it
/// and whatever the message held before.
pub proof fn lemma_text_field_read_back(
    tag: u32,
    text: Seq<char>,
    tail: Seq<u8>,
    from: Seq<char>,
    content: Seq<char>,
)
    requires
        tag == FROM_TAG || tag == CONTENT_TAG,
        text.len() > 0,
        encode_utf8(text).len() <= u64::MAX,
    ensures
        fields_at(text_field_bytes(tag, text) + tail, from, content) == fields_at(
            tail,
            if tag == FROM_TAG {
                text
            } else {
                from
            },
            if tag == CONTENT_TAG {
                text
            } else {
                content
            },
        ),
{
    let raw = encode_utf8(text);
    let value = varint_bytes(raw.len()) + raw + tail;
    assert(text_field_bytes(tag, text) + tail =~= varint_bytes((tag * 8 + 2) as nat) + value);
    encode_utf8_valid_utf8(text);
    encode_utf8_decode_utf8(text);
    lemma_text_field_step(tag, raw, tail, from, content);
}

/// Writing a message and reading the bytes gives the message back, field for
/// field, whatever the two texts hold: empty, or beyond ASCII.
pub proof fn lemma_message_round_trip(message: ChatMessageView)
    requires
        encode_utf8(message.from).len() <= u64::MAX,
        encode_utf8(message.content).len() <= u64::MAX,
    ensures
        message_at(message_bytes(message)) == Ok::<ChatMessageView, DecodeError>(message),
{
    let empty = Seq::<char>::empty();
    let second = text_field_bytes(CONTENT_TAG, message.content);
    if message.from.len() > 0 {
        lemma_text_field_read_back(FROM_TAG, message.from, second, empty, empty);
    } else {
        assert(message.from =~= empty);
    }
    if message.content.len() > 0 {
        lemma_text_field_read_back(
            CONTENT_TAG,
            message.content,
            Seq::<u8>::empty(),
            message.from,
            empty,
        );
    } else {
        assert(message.content =~= empty);
    }
}

/// The layout that a key's low three bits name.
fn wire_type_from(code: u64) -> (r: Option<WireType>)
    ensures
        r == wire_type_of(code as nat),
{
    if code == 0 {
        Some(WireType::Varint)
    } else if code == 1 {
        Some(WireType::SixtyFourBit)
    } else if code == 2 {
        Some(WireType::LengthDelimited)
    } else if code == 3 {
        Some(WireType::StartGroup)
    } else if code == 4 {
        Some(WireType::EndGroup)
    } else if code == 5 {
        Some(WireType::ThirtyTwoBit)
    } else {
        None
    }
}

/// Reads the key at the start of `input`.
pub fn read_key<'a>(input: &'a [u8]) -> (r: Result<(u32, WireType, &'a [u8]), DecodeError>)
    ensures
        match r {
            Ok((tag, wire, rest)) => key_at(input@) == Ok::<KeyAt, DecodeError>(
                KeyAt { tag, wire, rest: rest@ },
            ),
            Err(e) => key_at(input@) == Err::<KeyAt, DecodeError>(e),
        },
{
    match take_varint(input) {
        None => Err(DecodeError::InvalidVarint),
        Some((key, rest)) => {
            if key > 0xffff_ffff {
                return Err(DecodeError::InvalidKey);
            }
            match wire_type_from(key % 8) {
                None => Err(DecodeError::InvalidWireType),
                Some(wire) => {
                    let tag: u32 = (key / 8) as u32;
                    if tag == 0 {
                        Err(DecodeError::InvalidTag)
                    } else {
                        Ok((tag, wire, rest))
                    }
                },
            }
        },
    }
}

/// Steps over a value that is no group.
fn skip_plain_field<'a>(input: &'a [u8], wire: WireType) -> (r: Result<&'a [u8], DecodeError>)
    ensures
        match r {
            Ok(rest) => skip_plain(input@, wire) == Ok::<Seq<u8>, DecodeError>(rest@),
            Err(e) => skip_plain(input@, wire) == Err::<Seq<u8>, DecodeError>(e),
        },
{
    proof {
        lemma_varint_width_bound(input@);
    }
    match wire {
        WireType::Varint => match take_varint(input) {
            None => Err(DecodeError::InvalidVarint),
            Some((_, rest)) => Ok(rest),
        },
        WireType::SixtyFourBit => if input.len() >= 8 {
            Ok(slice_subrange(input, 8, input.len()))
        } else {
            Err(DecodeError::BufferUnderflow)
        },
        WireType::ThirtyTwoBit => if input.len() >= 4 {
            Ok(slice_subrange(input, 4, input.len()))
        } else {
            Err(DecodeError::BufferUnderflow)
        },
        WireType::LengthDelimited => match take_varint(input) {
            None => Err(DecodeError::InvalidVarint),
            Some((len, rest)) => {
                if len > rest.len() as u64 {
                    Err(DecodeError::BufferUnderflow)
                } else {
                    let after = slice_subrange(rest, len as usize, rest.len());
                    assert(after@ == input@.skip(varint_width(input@) as int + len as int));
                    Ok(after)
                }
            },
        },
        _ => Err(DecodeError::UnexpectedEndGroupTag),
    }
}

/// Steps over a group that the field `tag` has begun, nested groups and all.
fn skip_group<'a>(input: &'a [u8], tag: u32) -> (r: Result<&'a [u8], DecodeError>)
    ensures
        match r {
            Ok(rest) => skip_open_groups(input@, seq![tag]) == Ok::<Seq<u8>, DecodeError>(rest@),
            Err(e) => skip_open_groups(input@, seq![tag]) == Err::<Seq<u8>, DecodeError>(e),
        },
{
    let mut open: Vec<u32> = Vec::new();
    open.push(tag);
    let mut cur: &[u8] = input;
    while open.len() > 0
        invariant
            skip_open_groups(cur@, open@) == skip_open_groups(input@, seq![tag]),
        decreases cur@.len(),
    {
        proof {
            lemma_varint_width_bound(cur@);
        }
        match read_key(cur) {
            Err(e) => {
                return Err(e);
            },
            Ok((inner, wire, rest)) => {
                match wire {
                    WireType::EndGroup => {
                        let innermost: u32 = open[open.len() - 1];
                        if inner != innermost {
                            return Err(DecodeError::UnexpectedEndGroupTag);
                        }
                        open.pop();
                        cur = rest;
                    },
                    WireType::StartGroup => {
                        if open.len() >= GROUP_DEPTH_LIMIT {
                            return Err(DecodeError::RecursionLimitReached);
                        }
                        open.push(inner);
                        cur = rest;
                    },
                    _ => {
                        if open.len() >= GROUP_DEPTH_LIMIT {
                            return Err(DecodeError::RecursionLimitReached);
                        }
                        proof {
                            lemma_varint_width_bound(rest@);
                        }
                        match skip_plain_field(rest, wire) {
                            Err(e) => {
                                return Err(e);
                            },
                            Ok(after) => {
                                cur = after;
                            },
                        }
                    },
                }
            },
        }
    }
    Ok(cur)
}

/// Steps over the value of a field that the message does not know.
pub fn skip_field<'a>(input: &'a [u8], wire: WireType, tag: u32) -> (r: Result<
    &'a [u8],
    DecodeError,
>)
    ensures
        match r {
            Ok(rest) => skip_field_at(input@, wire, tag) == Ok::<Seq<u8>, DecodeError>(rest@),
            Err(e) => skip_field_at(input@, wire, tag) == Err::<Seq<u8>, DecodeError>(e),
        },
{
    match wire {
        WireType::StartGroup => skip_group(input, tag),
        WireType::EndGroup => Err(DecodeError::UnexpectedEndGroupTag),
        _ => skip_plain_field(input, wire),
    }
}

/// Calls `String::from_utf8`. Trusted: the call succeeds exactly on bytes
/// that are UTF-8, and the string it returns is made of those bytes.
#[verifier::external_body]
fn text_from_utf8(bytes: Vec<u8>) -> (r: Option<String>)
    ensures
        r is Some <==> valid_utf8(bytes@),
        r is Some ==> encode_utf8(r.unwrap()@) == bytes@,
{
    match String::from_utf8(bytes) {
        Ok(text) => Some(text),
        Err(_) => None,
    }
}

/// Reads the value of a text field.
pub fn read_text<'a>(input: &'a [u8], wire: WireType) -> (r: Result<(String, &'a [u8]), DecodeError>)
    ensures
        match r {
            Ok((text, rest)) => text_at(input@, wire) == Ok::<TextAt, DecodeError>(
                TextAt { text: text@, rest: rest@ },
            ),
            Err(e) => text_at(input@, wire) == Err::<TextAt, DecodeError>(e),
        },
{
    proof {
        lemma_varint_width_bound(input@);
    }
    match wire {
        WireType::LengthDelimited => {},
        _ => {
            return Err(DecodeError::UnexpectedWireType);
        },
    }
    match take_varint(input) {
        None => Err(DecodeError::InvalidVarint),
        Some((len, rest)) => {
            if len > rest.len() as u64 {
                return Err(DecodeError::BufferUnderflow);
            }
            let raw = slice_subrange(rest, 0, len as usize);
            let after = slice_subrange(rest, len as usize, rest.len());
            let ghost start = varint_width(input@) as int;
            assert(raw@ == input@.subrange(start, start + len as int));
            assert(after@ == input@.skip(start + len as int));
            match text_from_utf8(slice_to_vec(raw)) {
                None => Err(DecodeError::InvalidString),
                Some(text) => {
                    proof {
                        encode_utf8_decode_utf8(text@);
                    }
                    Ok((text, after))
                },
            }
        },
    }
}

/// A chat message: who says it, and what is said.
#[derive(Debug, PartialEq, Eq)]
pub struct ChatMessage {
    pub from: String,
    pub content: String,
}

impl View for ChatMessage {
    type V = ChatMessageView;

    open spec fn view(&self) -> ChatMessageView {
        ChatMessageView { from: self.from@, content: self.content@ }
    }
}

impl ChatMessage {
    /// Reads a message from its wire form. The fields may come in any order
    /// and more than once, among fields that the message does not know; a
    /// field that does not come leaves its text empty.
    pub fn decode(bytes: &[u8]) -> (r: Result<ChatMessage, DecodeError>)
        ensures
            match r {
                Ok(message) => message_at(bytes@) == Ok::<ChatMessageView, DecodeError>(message@),
                Err(e) => message_at(bytes@) == Err::<ChatMessageView, DecodeError>(e),
            },
    {
        let mut from = String::new();
        let mut content = String::new();
        let mut cur: &[u8] = bytes;
        while cur.len() > 0
            invariant
                fields_at(cur@, from@, content@) == message_at(bytes@),
            decreases cur@.len(),
        {
            proof {
                lemma_varint_width_bound(cur@);
            }
            match read_key(cur) {
                Err(e) => {
                    return Err(e);
                },
                Ok((tag, wire, rest)) => {
                    proof {
                        lemma_skip_field_shrinks(rest@, wire, tag);
                    }
                    if tag == FROM_TAG {
                        match read_text(rest, wire) {
                            Err(e) => {
                                return Err(e);
                            },
                            Ok((text, after)) => {
                                from = text;
                                cur = after;
                            },
                        }
                    } else if tag == CONTENT_TAG {
                        match read_text(rest, wire) {
                            Err(e) => {
                                return Err(e);
                            },
                            Ok((text, after)) => {
                                content = text;
                                cur = after;
                            },
                        }
                    } else {
                        match skip_field(rest, wire, tag) {
                            Err(e) => {
                                return Err(e);
                            },
                            Ok(after) => {
                                cur = after;
                            },
                        }
                    }
                },
            }
        }
        Ok(ChatMessage { from, content })
    }

    /// Appends the wire form of the message to `buf`. A text that is empty is
    /// not written.
    pub fn encode(&self, buf: &mut Vec<u8>)
        ensures
            final(buf)@ == old(buf)@ + message_bytes(self@),
            message_at(message_bytes(self@)) == Ok::<ChatMessageView, DecodeError>(self@),
    {
        write_text(FROM_TAG, &self.from, buf);
        write_text(CONTENT_TAG, &self.content, buf);
        proof {
            lemma_message_round_trip(self@);
        }
    }

    /// The wire form of the message. Read again, it gives the message back.
    pub fn encode_to_vec(&self) -> (bytes: Vec<u8>)
        ensures
            bytes@ == message_bytes(self@),
            message_at(bytes@) == Ok::<ChatMessageView, DecodeError>(self@),
    {
        let mut bytes: Vec<u8> = Vec::new();
        self.encode(&mut bytes);
        bytes
    }

    /// The line that shows the message: alias, colon, space, text.
    pub fn to_line(&self) -> (line: String)
        ensures
            line@ == line_of(self@),
    {
        let mut line = String::new();
        line.append(self.from.as_str());
        line.append(": ");
        line.append(self.content.as_str());
        proof {
            reveal_strlit(": ");
        }
        line
    }
}

impl Clone for ChatMessage {
    fn clone(&self) -> (copy: Self)
        ensures
            copy@ == self@,
    {
        ChatMessage { from: self.from.clone(), content: self.content.clone() }
    }
}

/// Appends one text field to `buf`.
fn write_text(tag: u32, text: &String, buf: &mut Vec<u8>)
    requires
        1 <= tag <= MAX_TAG,
    ensures
        final(buf)@ == old(buf)@ + text_field_bytes(tag, text@),
        encode_utf8(text@).len() <= usize::MAX,
{
    let text = text.as_str();
    let raw = text.as_bytes();
    if text.is_empty() {
        return ;
    }
    let key: u64 = tag as u64 * 8 + 2;
    put_varint(key, buf);
    put_varint(raw.len() as u64, buf);
    extend_bytes(buf, raw);
}

/// Appends `bytes` to `buf`.
fn extend_bytes(buf: &mut Vec<u8>, bytes: &[u8])
    ensures
        final(buf)@ == old(buf)@ + bytes@,
{
    buf.extend_from_slice(bytes);
}

} // verus!
