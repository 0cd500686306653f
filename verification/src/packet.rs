//! Packet types carried on the TCP write path: raw byte packets with a
//! length header, and textual `J`-coded notification packets.

use vstd::prelude::*;
use vstd::string::StrSliceExecFns;
use vstd::string::StringExecFns;
use vstd::string::StringSliceAdditionalSpecFns;
use vstd::utf8::{decode_utf8, encode_utf8, valid_utf8};

verus! {

/// What `String::from_utf8_lossy` makes of a byte string; contracts use
/// this name for the replaced text.
pub uninterp spec fn lossy_of(data: Seq<u8>) -> Seq<char>;

/// Relies on `String::from_utf8_lossy`: a function of the bytes alone,
/// the identity (as text) on valid UTF-8.
#[verifier::external_body]
pub fn lossy_string(data: &[u8]) -> (r: String)
    ensures
        r@ == lossy_of(data@),
        valid_utf8(data@) ==> r@ == decode_utf8(data@),
{
    String::from_utf8_lossy(data).to_string()
}

/// A length-prefixed wire packet.
///
/// The header carries the payload size; the codec writes it before the
/// payload bytes.
#[derive(Clone, Debug)]
pub struct RawPacket {
    pub header: u32,
    pub data: Vec<u8>,
}

impl RawPacket {
    /// A one-byte packet holding a single command code.
    pub fn from_code(code: char) -> (r: Self)
        requires
            code as u32 <= 255,
        ensures
            r.data@ == seq![code as u32 as u8],
            r.header == 1,
    {
        let b: u8 = code as u8;
        let mut data: Vec<u8> = Vec::new();
        data.push(b);
        assert(data@ =~= seq![code as u32 as u8]);
        RawPacket { header: 1, data }
    }

    /// A packet holding the UTF-8 bytes of a text payload.
    pub fn from_str(str_data: &str) -> (r: Self)
        requires
            str_data.spec_bytes().len() <= u32::MAX,
        ensures
            r.data@ == str_data.spec_bytes(),
            r.header == str_data.spec_bytes().len(),
    {
        let data = str_data.as_bytes_vec();
        let header = data.len() as u32;
        RawPacket { header, data }
    }

    /// A packet owning the given payload bytes.
    pub fn from_bytes(data: Vec<u8>) -> (r: Self)
        requires
            data@.len() <= u32::MAX,
        ensures
            r.data@ == data@,
            r.header == data@.len(),
    {
        let header = data.len() as u32;
        RawPacket { header, data }
    }

    /// The payload replaced into text, invalid UTF-8 sequences and all.
    pub fn data_as_string(&self) -> (r: String)
        ensures
            r@ == lossy_of(self.data@),
    {
        lossy_string(self.data.as_slice())
    }
}

/// A server notification: the text of a `J`-coded packet.
#[derive(Clone, Debug)]
pub struct NotificationPacket(String);

impl NotificationPacket {
    /// The full packet text, `J` code included.
    pub closed spec fn text(&self) -> Seq<char> {
        self.0@
    }

    /// A notification carrying the given message after the `J` code.
    pub fn new(msg: &str) -> (r: Self)
        ensures
            r.text() == seq!['J'] + msg@,
    {
        proof {
            reveal_strlit("J");
        }
        let mut s = String::from_str("J");
        assert(s@ =~= seq!['J']);
        s.append(msg);
        NotificationPacket(s)
    }

    /// The packet text as a borrowed string.
    pub fn as_str(&self) -> (r: &str)
        ensures
            r@ == self.text(),
    {
        self.0.as_str()
    }
}

/// One outbound packet: raw bytes, or a notification.
#[derive(Clone, Debug)]
pub enum Packet {
    Raw(RawPacket),
    Notification(NotificationPacket),
}

impl Packet {
    /// The payload bytes of the packet.
    pub open spec fn spec_data(&self) -> Seq<u8> {
        match self {
            Packet::Raw(raw) => raw.data@,
            Packet::Notification(p) => encode_utf8(p.text()),
        }
    }

    /// The length header the packet will be framed with.
    pub open spec fn spec_header(&self) -> u32 {
        match self {
            Packet::Raw(raw) => raw.header,
            Packet::Notification(p) => encode_utf8(p.text()).len() as usize as u32,
        }
    }

    pub fn get_header(&self) -> (r: u32)
        ensures
            r == self.spec_header(),
    {
        match self {
            Packet::Raw(raw) => raw.header,
            Packet::Notification(p) => #[verifier::truncate] (p.as_str().len() as u32),
        }
    }

    pub fn get_data(&self) -> (r: &[u8])
        ensures
            r@ == self.spec_data(),
    {
        match self {
            Packet::Raw(raw) => raw.data.as_slice(),
            Packet::Notification(p) => p.as_str().as_bytes(),
        }
    }

    /// The command code: the first payload byte, or `J` for notifications.
    pub fn get_code(&self) -> (r: Option<char>)
        ensures
            match r {
                Some(c) => (match self {
                    Packet::Raw(raw) => raw.data@.len() > 0 && c == raw.data@[0] as char,
                    Packet::Notification(_) => c == 'J',
                }),
                None => self is Raw && self.spec_data().len() == 0,
            },
    {
        match self {
            Packet::Raw(raw) => if raw.data.len() == 0 {
                None
            } else {
                Some(raw.data[0] as char)
            },
            Packet::Notification(_) => Some('J'),
        }
    }

    /// Replace the payload of a raw packet.
    pub fn set_data(&mut self, data: Vec<u8>)
        requires
            *old(self) is Raw,
        ensures
            *final(self) is Raw,
            final(self).spec_data() == data@,
            final(self).spec_header() == old(self).spec_header(),
    {
        match self {
            Packet::Raw(raw) => {
                raw.data = data;
            },
            Packet::Notification(_) => {
                proof {
                    assert(false);
                }
            },
        }
    }

    /// Replace the header of a raw packet.
    pub fn set_header(&mut self, header: u32)
        requires
            *old(self) is Raw,
        ensures
            *final(self) is Raw,
            final(self).spec_header() == header,
            final(self).spec_data() == old(self).spec_data(),
    {
        match self {
            Packet::Raw(raw) => {
                raw.header = header;
            },
            Packet::Notification(_) => {
                proof {
                    assert(false);
                }
            },
        }
    }

    /// The payload replaced into text.
    pub fn data_as_string(&self) -> (r: String)
        ensures
            r@ == lossy_of(self.spec_data()),
    {
        lossy_string(self.get_data())
    }
}

} // verus!
