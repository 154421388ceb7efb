//! The names that the node knows its peers and its channels by.

use vstd::prelude::*;
use vstd::slice::slice_to_vec;
use vstd::string::*;

verus! {

/// Whether two byte strings hold the same bytes.
pub fn bytes_equal(a: &[u8], b: &[u8]) -> (same: bool)
    ensures
        same == (a@ == b@),
{
    if a.len() != b.len() {
        return false;
    }
    let mut i: usize = 0;
    while i < a.len()
        invariant
            a@.len() == b@.len(),
            i <= a@.len(),
            forall|j: int| 0 <= j < i ==> a@[j] == b@[j],
        decreases a@.len() - i,
    {
        if a[i] != b[i] {
            return false;
        }
        i += 1;
    }
    assert(a@ =~= b@);
    true
}

/// The sixteen digits that identifiers are written with.
pub open spec fn hex_digits() -> Seq<char> {
    seq!['0', '1', '2', '3', '4', '5', '6', '7', '8', '9', 'a', 'b', 'c', 'd', 'e', 'f']
}

/// The text that shows `bytes`: two digits for each byte, the high half
/// first.
pub open spec fn hex_text(bytes: Seq<u8>) -> Seq<char>
    decreases bytes.len(),
{
    if bytes.len() == 0 {
        Seq::empty()
    } else {
        hex_text(bytes.drop_last()) + seq![
            hex_digits()[bytes.last() as int / 16],
            hex_digits()[bytes.last() as int % 16],
        ]
    }
}

/// The digit for a number below sixteen.
fn hex_digit(n: u8) -> (digit: &'static str)
    requires
        n < 16,
    ensures
        digit@ == seq![hex_digits()[n as int]],
{
    let digits = "0123456789abcdef";
    proof {
        reveal_strlit("0123456789abcdef");
    }
    let digit = digits.substring_ascii(n as usize, n as usize + 1);
    digit
}

/// The identifier of a peer: an opaque byte string, made once from the peer's
/// public key and never changed. Two peers are the same peer exactly when
/// their identifiers hold the same bytes.
#[derive(Debug, PartialEq, Eq, Hash)]
pub struct PeerIdentity {
    bytes: Vec<u8>,
}

impl View for PeerIdentity {
    type V = Seq<u8>;

    closed spec fn view(&self) -> Seq<u8> {
        self.bytes@
    }
}

impl PeerIdentity {
    /// The identity that `bytes` name.
    pub fn from_bytes(bytes: Vec<u8>) -> (id: PeerIdentity)
        ensures
            id@ == bytes@,
    {
        PeerIdentity { bytes }
    }

    /// The bytes of the identifier.
    pub fn as_bytes(&self) -> (bytes: &[u8])
        ensures
            bytes@ == self@,
    {
        self.bytes.as_slice()
    }

    /// Whether `other` names the same peer.
    pub fn same_as(&self, other: &PeerIdentity) -> (same: bool)
        ensures
            same == (self@ == other@),
    {
        bytes_equal(self.bytes.as_slice(), other.bytes.as_slice())
    }

    /// The identifier as text for a log: two digits for each byte, the same
    /// text for the same identifier every time.
    pub fn to_hex(&self) -> (text: String)
        ensures
            text@ == hex_text(self@),
    {
        let mut text = String::new();
        let mut i: usize = 0;
        while i < self.bytes.len()
            invariant
                i <= self.bytes@.len(),
                text@ == hex_text(self.bytes@.take(i as int)),
            decreases self.bytes@.len() - i,
        {
            let byte = self.bytes[i];
            let ghost upto = self.bytes@.take(i + 1);
            assert(upto.drop_last() =~= self.bytes@.take(i as int));
            text.append(hex_digit(byte / 16));
            text.append(hex_digit(byte % 16));
            i += 1;
        }
        assert(self.bytes@.take(i as int) =~= self.bytes@);
        text
    }
}

impl Clone for PeerIdentity {
    fn clone(&self) -> (copy: Self)
        ensures
            copy@ == self@,
    {
        PeerIdentity { bytes: slice_to_vec(self.bytes.as_slice()) }
    }
}

/// A named channel. A node takes part in the channels that it subscribes to.
#[derive(Debug, PartialEq, Eq, Hash)]
pub struct Topic {
    name: String,
}

impl View for Topic {
    type V = Seq<char>;

    closed spec fn view(&self) -> Seq<char> {
        self.name@
    }
}

impl Topic {
    /// The channel called `name`.
    pub fn new(name: String) -> (topic: Topic)
        ensures
            topic@ == name@,
    {
        Topic { name }
    }

    /// The channel's name.
    pub fn name(&self) -> (name: &String)
        ensures
            name@ == self@,
    {
        &self.name
    }

    /// Whether `other` is the same channel.
    pub fn same_as(&self, other: &Topic) -> (same: bool)
        ensures
            same == (self@ == other@),
    {
        self.name == other.name
    }
}

impl Clone for Topic {
    fn clone(&self) -> (copy: Self)
        ensures
            copy@ == self@,
    {
        Topic { name: self.name.clone() }
    }
}

} // verus!
