use vstd::prelude::*;

verus! {

/// Frame type, carried on the wire as one byte.
#[derive(Debug, Clone, Copy, PartialEq, Eq, Structural)]
pub enum SMDtype {
    Connect,
    Disconnect,
    UpdateRequest,
    Update,
    Updated,
    Upload,
    Download,
    Other,
}

/// The byte a frame type is written as.
pub open spec fn type_value(t: SMDtype) -> u8 {
    match t {
        SMDtype::Connect => 1,
        SMDtype::Disconnect => 2,
        SMDtype::UpdateRequest => 3,
        SMDtype::Update => 4,
        SMDtype::Updated => 5,
        SMDtype::Upload => 6,
        SMDtype::Download => 7,
        SMDtype::Other => 0,
    }
}

/// The frame type a byte is read as; every unassigned byte reads as
/// `Other`.
pub open spec fn type_of_value(v: u8) -> SMDtype {
    if v == 1 {
        SMDtype::Connect
    } else if v == 2 {
        SMDtype::Disconnect
    } else if v == 3 {
        SMDtype::UpdateRequest
    } else if v == 4 {
        SMDtype::Update
    } else if v == 5 {
        SMDtype::Updated
    } else if v == 6 {
        SMDtype::Upload
    } else if v == 7 {
        SMDtype::Download
    } else {
        SMDtype::Other
    }
}

impl SMDtype {
    pub fn to_value(&self) -> (r: u8)
        ensures
            r == type_value(*self),
    {
        match *self {
            Self::Connect => 1,
            Self::Disconnect => 2,
            Self::UpdateRequest => 3,
            Self::Update => 4,
            Self::Updated => 5,
            Self::Upload => 6,
            Self::Download => 7,
            Self::Other => 0,
        }
    }

    pub fn from_value(value: u8) -> (r: Self)
        ensures
            r == type_of_value(value),
    {
        match value {
            1 => Self::Connect,
            2 => Self::Disconnect,
            3 => Self::UpdateRequest,
            4 => Self::Update,
            5 => Self::Updated,
            6 => Self::Upload,
            7 => Self::Download,
            _ => Self::Other,
        }
    }
}

/// Reading back the byte a type was written as yields the same type.
pub proof fn lemma_type_round_trip(t: SMDtype)
    ensures
        type_of_value(type_value(t)) == t,
{
}

/// Mathematical model of one frame; the length field is determined by the
/// payload.
pub struct PacketV {
    pub version: u8,
    pub data_type: SMDtype,
    pub data: Seq<u8>,
}

/// One unit on the wire: a version byte, a type byte, a four-byte
/// big-endian payload length, and the payload itself.
#[derive(Debug, Clone, PartialEq)]
pub struct SMDpacket {
    pub version: u8,
    pub data_type: SMDtype,
    pub data: Vec<u8>,
}

impl View for SMDpacket {
    type V = PacketV;

    open spec fn view(&self) -> PacketV {
        PacketV { version: self.version, data_type: self.data_type, data: self.data@ }
    }
}

/// The largest payload length a receiver accepts.
pub const MAX_DATA_LENGTH: u32 = 0x7FFF_FFFF;

/// The four bytes of `n`, most significant first.
pub open spec fn u32_be_bytes(n: u32) -> Seq<u8> {
    seq![(n >> 24) as u8, (n >> 16) as u8, (n >> 8) as u8, n as u8]
}

/// The value four big-endian bytes denote.
pub open spec fn u32_from_be(b0: u8, b1: u8, b2: u8, b3: u8) -> u32 {
    ((b0 as u32) << 24) | ((b1 as u32) << 16) | ((b2 as u32) << 8) | (b3 as u32)
}

proof fn lemma_u32_be_round_trip(n: u32)
    ensures
        u32_from_be(
            u32_be_bytes(n)[0],
            u32_be_bytes(n)[1],
            u32_be_bytes(n)[2],
            u32_be_bytes(n)[3],
        ) == n,
{
    assert((((n >> 24) as u8 as u32) << 24) | (((n >> 16) as u8 as u32) << 16) | (((n
        >> 8) as u8 as u32) << 8) | ((n as u8) as u32) == n) by (bit_vector);
}

/// The byte string a frame is sent as.
pub open spec fn frame_encode(p: PacketV) -> Seq<u8> {
    seq![p.version, type_value(p.data_type)] + u32_be_bytes(p.data.len() as u32) + p.data
}

/// The frame a byte string is read back as: `None` when the string is not
/// exactly one well-formed frame within the length bound.
pub open spec fn frame_parse(b: Seq<u8>) -> Option<PacketV> {
    if b.len() < 6 {
        None
    } else {
        let n = u32_from_be(b[2], b[3], b[4], b[5]);
        if n > MAX_DATA_LENGTH {
            None
        } else if b.len() != 6 + n {
            None
        } else {
            Some(PacketV { version: b[0], data_type: type_of_value(b[1]), data: b.skip(6) })
        }
    }
}

/// Why a byte string failed to read back as a frame.
#[derive(Debug, Clone, Copy, PartialEq, Eq, Structural)]
pub enum FrameError {
    /// Fewer than the six header bytes.
    ShortHeader,
    /// The length field exceeds the bound a receiver enforces.
    Oversized,
    /// The payload is shorter or longer than the length field says.
    LengthMismatch,
}

impl SMDpacket {
    pub fn new(version: u8, data_type: SMDtype, data: Vec<u8>) -> (r: Self)
        ensures
            r@ == (PacketV { version, data_type, data: data@ }),
    {
        Self { version, data_type, data }
    }

    pub fn get_data(&self) -> (r: &Vec<u8>)
        ensures
            r@ == self@.data,
    {
        &self.data
    }

    pub fn get_type(&self) -> (r: &SMDtype)
        ensures
            *r == self@.data_type,
    {
        &self.data_type
    }

    /// The frame's bytes, in wire order.
    pub fn encode(&self) -> (r: Vec<u8>)
        requires
            self@.data.len() <= u32::MAX,
        ensures
            r@ == frame_encode(self@),
    {
        let n = self.data.len() as u32;
        let mut out: Vec<u8> = Vec::new();
        out.push(self.version);
        out.push(self.data_type.to_value());
        out.push((n >> 24) as u8);
        out.push((n >> 16) as u8);
        out.push((n >> 8) as u8);
        out.push(n as u8);
        proof {
            let fe = frame_encode(self@);
            assert(fe[0] == self@.version);
            assert(fe[1] == type_value(self@.data_type));
            assert(fe[2] == u32_be_bytes(n)[0]);
            assert(fe[3] == u32_be_bytes(n)[1]);
            assert(fe[4] == u32_be_bytes(n)[2]);
            assert(fe[5] == u32_be_bytes(n)[3]);
        }
        let mut i: usize = 0;
        while i < self.data.len()
            invariant
                i <= self.data@.len(),
                self@.data.len() <= u32::MAX,
                n == self.data@.len() as u32,
                out@.len() == 6 + i,
                forall|j: int| 0 <= j < 6 ==> out@[j] == frame_encode(self@)[j],
                forall|j: int| 0 <= j < i ==> out@[6 + j] == self.data@[j],
            decreases self.data@.len() - i,
        {
            out.push(self.data[i]);
            i += 1;
        }
        proof {
            assert forall|j: int| 0 <= j < out@.len() implies out@[j] == frame_encode(self@)[j] by {
                if 6 <= j {
                    assert(out@[j] == self.data@[j - 6]);
                    assert(frame_encode(self@)[j] == self@.data[j - 6]);
                }
            }
            assert(out@ =~= frame_encode(self@));
        }
        out
    }

    /// Read one complete frame back from its bytes.
    pub fn decode(bytes: &Vec<u8>) -> (r: Result<Self, FrameError>)
        ensures
            match r {
                Ok(p) => frame_parse(bytes@) == Some(p@),
                Err(FrameError::ShortHeader) => bytes@.len() < 6,
                Err(FrameError::Oversized) => bytes@.len() >= 6 && u32_from_be(
                    bytes@[2],
                    bytes@[3],
                    bytes@[4],
                    bytes@[5],
                ) > MAX_DATA_LENGTH,
                Err(FrameError::LengthMismatch) => bytes@.len() >= 6 && u32_from_be(
                    bytes@[2],
                    bytes@[3],
                    bytes@[4],
                    bytes@[5],
                ) <= MAX_DATA_LENGTH && bytes@.len() != 6 + u32_from_be(
                    bytes@[2],
                    bytes@[3],
                    bytes@[4],
                    bytes@[5],
                ),
            },
            r is Ok <==> frame_parse(bytes@) is Some,
    {
        if bytes.len() < 6 {
            return Err(FrameError::ShortHeader);
        }
        let n = u32_from_be_exec(bytes[2], bytes[3], bytes[4], bytes[5]);
        if n > MAX_DATA_LENGTH {
            return Err(FrameError::Oversized);
        }
        if bytes.len() - 6 != n as usize {
            return Err(FrameError::LengthMismatch);
        }
        let version = bytes[0];
        let data_type = SMDtype::from_value(bytes[1]);
        let mut data: Vec<u8> = Vec::new();
        let mut i: usize = 6;
        while i < bytes.len()
            invariant
                6 <= i <= bytes@.len(),
                data@.len() == i - 6,
                forall|j: int| 0 <= j < i - 6 ==> data@[j] == bytes@[6 + j],
            decreases bytes@.len() - i,
        {
            data.push(bytes[i]);
            i += 1;
        }
        proof {
            assert(data@ =~= bytes@.skip(6));
        }
        Ok(Self { version, data_type, data })
    }
}

fn u32_from_be_exec(b0: u8, b1: u8, b2: u8, b3: u8) -> (r: u32)
    ensures
        r == u32_from_be(b0, b1, b2, b3),
{
    ((b0 as u32) << 24) | ((b1 as u32) << 16) | ((b2 as u32) << 8) | (b3 as u32)
}

/// Frame round-trip: any frame whose payload is within the length bound
/// reads back from its own encoding unchanged.
pub proof fn lemma_frame_round_trip(p: PacketV)
    requires
        p.data.len() <= MAX_DATA_LENGTH,
    ensures
        frame_parse(frame_encode(p)) == Some(p),
{
    let b = frame_encode(p);
    let n = p.data.len() as u32;
    assert(b.len() == 6 + p.data.len());
    assert(b[2] == u32_be_bytes(n)[0]);
    assert(b[3] == u32_be_bytes(n)[1]);
    assert(b[4] == u32_be_bytes(n)[2]);
    assert(b[5] == u32_be_bytes(n)[3]);
    lemma_u32_be_round_trip(n);
    assert(u32_from_be(b[2], b[3], b[4], b[5]) == n);
    lemma_type_round_trip(p.data_type);
    assert(b.skip(6) =~= p.data);
    assert(frame_parse(b) == Some(PacketV { version: b[0], data_type: type_of_value(b[1]), data: b.skip(6) }));
}

} // verus!
