//! The control protocol: one bounded packet in a fixed little-endian layout.

use vstd::prelude::*;

use crate::text;

verus! {

/// The bytes `LOOM`, read as a little-endian number.
pub const MAGIC: u32 = 0x4d4f4f4c;

/// The version of the layout.
pub const VERSION: u16 = 1;

/// The length of what precedes the payload.
pub const HEADER_LEN: usize = 28;

/// The longest packet.
pub const MAX_PACKET_LEN: usize = 65536;

/// The longest payload of one packet.
pub const MAX_PAYLOAD_LEN: usize = 65508;

/// Whether a packet asks or answers.
#[derive(Clone, Copy, Debug, PartialEq, Eq, Structural)]
pub enum MessageKind {
    Request,
    Response,
}

/// What is asked for.
#[derive(Clone, Copy, Debug, PartialEq, Eq, Structural)]
pub enum Operation {
    Start,
    Stop,
    Restart,
    ReloadService,
    Status,
    List,
    IsActive,
    IsEnabled,
    Dependencies,
    Enable,
    Disable,
    Reload,
    Apply,
    ResetFailed,
    Timings,
    CriticalPath,
    Reboot,
    Poweroff,
    ApplyDryRun,
    StopForce,
}

/// How a request ended.
#[derive(Clone, Copy, Debug, PartialEq, Eq, Structural)]
pub enum StatusCode {
    Success,
    ServiceFailure,
    InvalidRequest,
    PermissionDenied,
    ManagerUnavailable,
    Timeout,
    NotFound,
    Conflict,
    Internal,
}

/// Why a packet is refused.
#[derive(Clone, Copy, Debug, PartialEq, Eq, Structural)]
pub enum ProtocolError {
    Truncated { expected: usize, actual: usize },
    InvalidMagic(u32),
    UnsupportedVersion(u16),
    InvalidMessageKind(u16),
    InvalidOperation(u16),
    InvalidStatus(u16),
    ReservedBits,
    PayloadTooLarge(usize),
    PacketTooLarge(usize),
    LengthMismatch { declared: usize, actual: usize },
}

impl MessageKind {
    /// The number of a kind on the wire.
    pub open spec fn code(self) -> u16 {
        match self {
            MessageKind::Request => 1,
            MessageKind::Response => 2,
        }
    }

    /// The kind that has a number.
    pub open spec fn of_code(code: u16) -> Option<MessageKind> {
        if code == 1 {
            Some(MessageKind::Request)
        } else if code == 2 {
            Some(MessageKind::Response)
        } else {
            None
        }
    }

    /// The number of the kind on the wire.
    pub fn number(self) -> (r: u16)
        ensures
            r == self.code(),
    {
        match self {
            MessageKind::Request => 1,
            MessageKind::Response => 2,
        }
    }

    /// The kind that has a number.
    pub fn from_number(value: u16) -> (r: Result<MessageKind, ProtocolError>)
        ensures
            r == (match MessageKind::of_code(value) {
                Some(kind) => Ok::<MessageKind, ProtocolError>(kind),
                None => Err(ProtocolError::InvalidMessageKind(value)),
            }),
    {
        match value {
            1 => Ok(MessageKind::Request),
            2 => Ok(MessageKind::Response),
            _ => Err(ProtocolError::InvalidMessageKind(value)),
        }
    }
}

impl Operation {
    /// The number of an operation on the wire.
    pub open spec fn code(self) -> u16 {
        match self {
            Operation::Start => 1,
            Operation::Stop => 2,
            Operation::Restart => 3,
            Operation::ReloadService => 4,
            Operation::Status => 5,
            Operation::List => 6,
            Operation::IsActive => 7,
            Operation::IsEnabled => 8,
            Operation::Dependencies => 9,
            Operation::Enable => 10,
            Operation::Disable => 11,
            Operation::Reload => 12,
            Operation::Apply => 13,
            Operation::ResetFailed => 14,
            Operation::Timings => 15,
            Operation::CriticalPath => 16,
            Operation::Reboot => 17,
            Operation::Poweroff => 18,
            Operation::ApplyDryRun => 19,
            Operation::StopForce => 20,
        }
    }

    /// The operation that has a number.
    pub open spec fn of_code(code: u16) -> Option<Operation> {
        if code == 1 {
            Some(Operation::Start)
        } else if code == 2 {
            Some(Operation::Stop)
        } else if code == 3 {
            Some(Operation::Restart)
        } else if code == 4 {
            Some(Operation::ReloadService)
        } else if code == 5 {
            Some(Operation::Status)
        } else if code == 6 {
            Some(Operation::List)
        } else if code == 7 {
            Some(Operation::IsActive)
        } else if code == 8 {
            Some(Operation::IsEnabled)
        } else if code == 9 {
            Some(Operation::Dependencies)
        } else if code == 10 {
            Some(Operation::Enable)
        } else if code == 11 {
            Some(Operation::Disable)
        } else if code == 12 {
            Some(Operation::Reload)
        } else if code == 13 {
            Some(Operation::Apply)
        } else if code == 14 {
            Some(Operation::ResetFailed)
        } else if code == 15 {
            Some(Operation::Timings)
        } else if code == 16 {
            Some(Operation::CriticalPath)
        } else if code == 17 {
            Some(Operation::Reboot)
        } else if code == 18 {
            Some(Operation::Poweroff)
        } else if code == 19 {
            Some(Operation::ApplyDryRun)
        } else if code == 20 {
            Some(Operation::StopForce)
        } else {
            None
        }
    }

    /// The number of the operation on the wire.
    pub fn number(self) -> (r: u16)
        ensures
            r == self.code(),
    {
        match self {
            Operation::Start => 1,
            Operation::Stop => 2,
            Operation::Restart => 3,
            Operation::ReloadService => 4,
            Operation::Status => 5,
            Operation::List => 6,
            Operation::IsActive => 7,
            Operation::IsEnabled => 8,
            Operation::Dependencies => 9,
            Operation::Enable => 10,
            Operation::Disable => 11,
            Operation::Reload => 12,
            Operation::Apply => 13,
            Operation::ResetFailed => 14,
            Operation::Timings => 15,
            Operation::CriticalPath => 16,
            Operation::Reboot => 17,
            Operation::Poweroff => 18,
            Operation::ApplyDryRun => 19,
            Operation::StopForce => 20,
        }
    }

    /// The operation that has a number.
    pub fn from_number(value: u16) -> (r: Result<Operation, ProtocolError>)
        ensures
            r == (match Operation::of_code(value) {
                Some(operation) => Ok::<Operation, ProtocolError>(operation),
                None => Err(ProtocolError::InvalidOperation(value)),
            }),
    {
        match value {
            1 => Ok(Operation::Start),
            2 => Ok(Operation::Stop),
            3 => Ok(Operation::Restart),
            4 => Ok(Operation::ReloadService),
            5 => Ok(Operation::Status),
            6 => Ok(Operation::List),
            7 => Ok(Operation::IsActive),
            8 => Ok(Operation::IsEnabled),
            9 => Ok(Operation::Dependencies),
            10 => Ok(Operation::Enable),
            11 => Ok(Operation::Disable),
            12 => Ok(Operation::Reload),
            13 => Ok(Operation::Apply),
            14 => Ok(Operation::ResetFailed),
            15 => Ok(Operation::Timings),
            16 => Ok(Operation::CriticalPath),
            17 => Ok(Operation::Reboot),
            18 => Ok(Operation::Poweroff),
            19 => Ok(Operation::ApplyDryRun),
            20 => Ok(Operation::StopForce),
            _ => Err(ProtocolError::InvalidOperation(value)),
        }
    }
}

impl StatusCode {
    /// The number of a status on the wire.
    pub open spec fn code(self) -> u16 {
        match self {
            StatusCode::Success => 0,
            StatusCode::ServiceFailure => 1,
            StatusCode::InvalidRequest => 2,
            StatusCode::PermissionDenied => 3,
            StatusCode::ManagerUnavailable => 4,
            StatusCode::Timeout => 5,
            StatusCode::NotFound => 6,
            StatusCode::Conflict => 7,
            StatusCode::Internal => 8,
        }
    }

    /// The status that has a number.
    pub open spec fn of_code(code: u16) -> Option<StatusCode> {
        if code == 0 {
            Some(StatusCode::Success)
        } else if code == 1 {
            Some(StatusCode::ServiceFailure)
        } else if code == 2 {
            Some(StatusCode::InvalidRequest)
        } else if code == 3 {
            Some(StatusCode::PermissionDenied)
        } else if code == 4 {
            Some(StatusCode::ManagerUnavailable)
        } else if code == 5 {
            Some(StatusCode::Timeout)
        } else if code == 6 {
            Some(StatusCode::NotFound)
        } else if code == 7 {
            Some(StatusCode::Conflict)
        } else if code == 8 {
            Some(StatusCode::Internal)
        } else {
            None
        }
    }

    /// The number of the status on the wire.
    pub fn number(self) -> (r: u16)
        ensures
            r == self.code(),
    {
        match self {
            StatusCode::Success => 0,
            StatusCode::ServiceFailure => 1,
            StatusCode::InvalidRequest => 2,
            StatusCode::PermissionDenied => 3,
            StatusCode::ManagerUnavailable => 4,
            StatusCode::Timeout => 5,
            StatusCode::NotFound => 6,
            StatusCode::Conflict => 7,
            StatusCode::Internal => 8,
        }
    }

    /// The status that has a number.
    pub fn from_number(value: u16) -> (r: Result<StatusCode, ProtocolError>)
        ensures
            r == (match StatusCode::of_code(value) {
                Some(status) => Ok::<StatusCode, ProtocolError>(status),
                None => Err(ProtocolError::InvalidStatus(value)),
            }),
    {
        match value {
            0 => Ok(StatusCode::Success),
            1 => Ok(StatusCode::ServiceFailure),
            2 => Ok(StatusCode::InvalidRequest),
            3 => Ok(StatusCode::PermissionDenied),
            4 => Ok(StatusCode::ManagerUnavailable),
            5 => Ok(StatusCode::Timeout),
            6 => Ok(StatusCode::NotFound),
            7 => Ok(StatusCode::Conflict),
            8 => Ok(StatusCode::Internal),
            _ => Err(ProtocolError::InvalidStatus(value)),
        }
    }
}

/// Every kind, operation and status is the one that has its number, and only it has.
pub proof fn numbers_law(
    kind: MessageKind,
    operation: Operation,
    status: StatusCode,
    number: u16,
)
    ensures
        MessageKind::of_code(kind.code()) == Some(kind),
        Operation::of_code(operation.code()) == Some(operation),
        StatusCode::of_code(status.code()) == Some(status),
        MessageKind::of_code(number) matches Some(k) ==> k.code() == number,
        Operation::of_code(number) matches Some(o) ==> o.code() == number,
        StatusCode::of_code(number) matches Some(s) ==> s.code() == number,
{
}

/// A number in two bytes, the low one first.
pub open spec fn le16(x: nat) -> Seq<u8> {
    seq![(x % 256) as u8, (x / 256) as u8]
}

/// A number in four bytes, the low ones first.
pub open spec fn le32(x: nat) -> Seq<u8> {
    le16(x % 65536) + le16(x / 65536)
}

/// A number in eight bytes, the low ones first.
pub open spec fn le64(x: nat) -> Seq<u8> {
    le32(x % 4294967296) + le32(x / 4294967296)
}

/// The number in the two bytes at a position.
pub open spec fn at16(bytes: Seq<u8>, at: int) -> nat {
    (bytes[at] + 256 * bytes[at + 1]) as nat
}

/// The number in the four bytes at a position.
pub open spec fn at32(bytes: Seq<u8>, at: int) -> nat {
    (at16(bytes, at) + 65536 * at16(bytes, at + 2)) as nat
}

/// The number in the eight bytes at a position.
pub open spec fn at64(bytes: Seq<u8>, at: int) -> nat {
    (at32(bytes, at) + 4294967296 * at32(bytes, at + 4)) as nat
}

/// One packet.
#[derive(Debug, PartialEq, Eq)]
pub struct Packet {
    pub kind: MessageKind,
    pub request_id: u64,
    pub operation: Operation,
    pub status: StatusCode,
    pub more: bool,
    pub payload: Vec<u8>,
}

/// What a [`Packet`] holds.
#[verifier::ext_equal]
pub struct PacketModel {
    pub kind: MessageKind,
    pub request_id: u64,
    pub operation: Operation,
    pub status: StatusCode,
    pub more: bool,
    pub payload: Seq<u8>,
}

impl View for Packet {
    type V = PacketModel;

    open spec fn view(&self) -> PacketModel {
        PacketModel {
            kind: self.kind,
            request_id: self.request_id,
            operation: self.operation,
            status: self.status,
            more: self.more,
            payload: self.payload@,
        }
    }
}

/// The flags of a packet: whether more packets follow.
pub open spec fn flags(more: bool) -> nat {
    if more {
        1
    } else {
        0
    }
}

/// What precedes the payload of a packet.
pub open spec fn header(p: PacketModel) -> Seq<u8> {
    le32(MAGIC as nat) + le16(VERSION as nat) + le16(p.kind.code() as nat) + le64(
        p.request_id as nat,
    ) + le16(p.operation.code() as nat) + le16(p.status.code() as nat) + le16(flags(p.more))
        + le16(0) + le32(p.payload.len())
}

/// A packet in bytes.
pub open spec fn encoded(p: PacketModel) -> Seq<u8> {
    header(p) + p.payload
}

/// The packet that bytes hold, or why they are refused.
pub open spec fn decoded(bytes: Seq<u8>) -> Result<PacketModel, ProtocolError> {
    let size = bytes.len() as usize;
    if bytes.len() > MAX_PACKET_LEN {
        Err(ProtocolError::PacketTooLarge(size))
    } else if bytes.len() < HEADER_LEN {
        Err(ProtocolError::Truncated { expected: HEADER_LEN, actual: size })
    } else if at32(bytes, 0) != MAGIC {
        Err(ProtocolError::InvalidMagic(at32(bytes, 0) as u32))
    } else if at16(bytes, 4) != VERSION {
        Err(ProtocolError::UnsupportedVersion(at16(bytes, 4) as u16))
    } else if at16(bytes, 20) > 1 || at16(bytes, 22) != 0 {
        Err(ProtocolError::ReservedBits)
    } else if HEADER_LEN + at32(bytes, 24) > usize::MAX {
        Err(ProtocolError::PacketTooLarge(size))
    } else if bytes.len() != HEADER_LEN + at32(bytes, 24) {
        Err(
            ProtocolError::LengthMismatch {
                declared: at32(bytes, 24) as usize,
                actual: (bytes.len() - HEADER_LEN) as usize,
            },
        )
    } else {
        match MessageKind::of_code(at16(bytes, 6) as u16) {
            None => Err(ProtocolError::InvalidMessageKind(at16(bytes, 6) as u16)),
            Some(kind) => match Operation::of_code(at16(bytes, 16) as u16) {
                None => Err(ProtocolError::InvalidOperation(at16(bytes, 16) as u16)),
                Some(operation) => match StatusCode::of_code(at16(bytes, 18) as u16) {
                    None => Err(ProtocolError::InvalidStatus(at16(bytes, 18) as u16)),
                    Some(status) => Ok(
                        PacketModel {
                            kind,
                            request_id: at64(bytes, 8) as u64,
                            operation,
                            status,
                            more: at16(bytes, 20) == 1,
                            payload: bytes.skip(HEADER_LEN as int),
                        },
                    ),
                },
            },
        }
    }
}

fn push16(out: &mut Vec<u8>, x: u16)
    ensures
        final(out)@ == old(out)@ + le16(x as nat),
{
    let ghost before = out@;
    out.push((x % 256) as u8);
    out.push((x / 256) as u8);
    proof {
        assert(out@ =~= before + le16(x as nat));
    }
}

fn push32(out: &mut Vec<u8>, x: u32)
    ensures
        final(out)@ == old(out)@ + le32(x as nat),
{
    let ghost before = out@;
    push16(out, (x % 65536) as u16);
    push16(out, (x / 65536) as u16);
    proof {
        assert(out@ =~= before + le32(x as nat));
    }
}

fn push64(out: &mut Vec<u8>, x: u64)
    ensures
        final(out)@ == old(out)@ + le64(x as nat),
{
    let ghost before = out@;
    push32(out, (x % 4294967296) as u32);
    push32(out, (x / 4294967296) as u32);
    proof {
        assert(out@ =~= before + le64(x as nat));
    }
}

fn read16(bytes: &[u8], at: usize) -> (r: u16)
    requires
        at + 2 <= bytes@.len(),
    ensures
        r == at16(bytes@, at as int),
{
    bytes[at] as u16 + 256 * bytes[at + 1] as u16
}

fn read32(bytes: &[u8], at: usize) -> (r: u32)
    requires
        at + 4 <= bytes@.len(),
    ensures
        r == at32(bytes@, at as int),
{
    proof {
        assert(bytes@.len() == bytes.len());
    }
    read16(bytes, at) as u32 + 65536 * read16(bytes, at + 2) as u32
}

fn read64(bytes: &[u8], at: usize) -> (r: u64)
    requires
        at + 8 <= bytes@.len(),
    ensures
        r == at64(bytes@, at as int),
{
    proof {
        assert(bytes@.len() == bytes.len());
    }
    read32(bytes, at) as u64 + 4294967296 * read32(bytes, at + 4) as u64
}

fn push_bytes(out: &mut Vec<u8>, bytes: &[u8], start: usize, end: usize)
    requires
        start <= end <= bytes@.len(),
    ensures
        final(out)@ == old(out)@ + bytes@.subrange(start as int, end as int),
{
    let ghost before = out@;
    let mut i: usize = start;
    while i < end
        invariant
            start <= i <= end <= bytes@.len(),
            out@ == before + bytes@.subrange(start as int, i as int),
        decreases end - i,
    {
        out.push(bytes[i]);
        proof {
            assert(out@ =~= before + bytes@.subrange(start as int, i + 1));
        }
        i = i + 1;
    }
}

/// The bytes from `start` up to `end`.
pub fn bytes_between(bytes: &[u8], start: usize, end: usize) -> (r: Vec<u8>)
    requires
        start <= end <= bytes@.len(),
    ensures
        r@ == bytes@.subrange(start as int, end as int),
{
    let mut r: Vec<u8> = Vec::new();
    push_bytes(&mut r, bytes, start, end);
    proof {
        assert(r@ =~= bytes@.subrange(start as int, end as int));
    }
    r
}

impl Packet {
    /// Encodes one packet.
    pub fn encode(&self) -> (r: Result<Vec<u8>, ProtocolError>)
        ensures
            match r {
                Ok(bytes) => self.payload@.len() <= MAX_PAYLOAD_LEN && bytes@ == encoded(self@),
                Err(e) => self.payload@.len() > MAX_PAYLOAD_LEN && e
                    == ProtocolError::PayloadTooLarge(self.payload@.len() as usize),
            },
    {
        if self.payload.len() > MAX_PAYLOAD_LEN {
            return Err(ProtocolError::PayloadTooLarge(self.payload.len()));
        }
        let mut out: Vec<u8> = Vec::new();
        push32(&mut out, MAGIC);
        push16(&mut out, VERSION);
        push16(&mut out, self.kind.number());
        push64(&mut out, self.request_id);
        push16(&mut out, self.operation.number());
        push16(&mut out, self.status.number());
        push16(
            &mut out,
            if self.more {
                1
            } else {
                0
            },
        );
        push16(&mut out, 0);
        push32(&mut out, self.payload.len() as u32);
        proof {
            assert(out@ =~= header(self@));
        }
        push_bytes(&mut out, self.payload.as_slice(), 0, self.payload.len());
        proof {
            assert(self.payload@.subrange(0, self.payload@.len() as int) =~= self.payload@);
        }
        Ok(out)
    }

    /// Decodes and validates exactly one packet.
    pub fn decode(bytes: &[u8]) -> (r: Result<Packet, ProtocolError>)
        ensures
            (match r {
                Ok(packet) => Ok::<PacketModel, ProtocolError>(packet@),
                Err(e) => Err(e),
            }) == decoded(bytes@),
    {
        if bytes.len() > MAX_PACKET_LEN {
            return Err(ProtocolError::PacketTooLarge(bytes.len()));
        }
        if bytes.len() < HEADER_LEN {
            return Err(ProtocolError::Truncated { expected: HEADER_LEN, actual: bytes.len() });
        }
        let magic = read32(bytes, 0);
        if magic != MAGIC {
            return Err(ProtocolError::InvalidMagic(magic));
        }
        let version = read16(bytes, 4);
        if version != VERSION {
            return Err(ProtocolError::UnsupportedVersion(version));
        }
        let flags = read16(bytes, 20);
        if flags > 1 || read16(bytes, 22) != 0 {
            return Err(ProtocolError::ReservedBits);
        }
        let declared = read32(bytes, 24) as usize;
        let expected = match HEADER_LEN.checked_add(declared) {
            Some(expected) => expected,
            None => return Err(ProtocolError::PacketTooLarge(bytes.len())),
        };
        if bytes.len() != expected {
            return Err(
                ProtocolError::LengthMismatch { declared, actual: bytes.len() - HEADER_LEN },
            );
        }
        let kind = match MessageKind::from_number(read16(bytes, 6)) {
            Ok(kind) => kind,
            Err(e) => return Err(e),
        };
        let request_id = read64(bytes, 8);
        let operation = match Operation::from_number(read16(bytes, 16)) {
            Ok(operation) => operation,
            Err(e) => return Err(e),
        };
        let status = match StatusCode::from_number(read16(bytes, 18)) {
            Ok(status) => status,
            Err(e) => return Err(e),
        };
        let payload = bytes_between(bytes, HEADER_LEN, bytes.len());
        proof {
            assert(payload@ =~= bytes@.skip(HEADER_LEN as int));
        }
        Ok(Packet { kind, request_id, operation, status, more: flags == 1, payload })
    }
}

proof fn at16_of_le16(bytes: Seq<u8>, at: int, x: nat)
    requires
        0 <= at,
        at + 2 <= bytes.len(),
        bytes.subrange(at, at + 2) == le16(x),
        x < 65536,
    ensures
        at16(bytes, at) == x,
{
    let part = bytes.subrange(at, at + 2);
    assert(part[0] == bytes[at] && part[1] == bytes[at + 1]);
}

proof fn at32_of_le32(bytes: Seq<u8>, at: int, x: nat)
    requires
        0 <= at,
        at + 4 <= bytes.len(),
        bytes.subrange(at, at + 4) == le32(x),
        x < 4294967296,
    ensures
        at32(bytes, at) == x,
{
    let part = bytes.subrange(at, at + 4);
    assert(bytes.subrange(at, at + 2) =~= part.subrange(0, 2));
    assert(bytes.subrange(at + 2, at + 4) =~= part.subrange(2, 4));
    assert(part.subrange(0, 2) =~= le16(x % 65536));
    assert(part.subrange(2, 4) =~= le16(x / 65536));
    at16_of_le16(bytes, at, x % 65536);
    at16_of_le16(bytes, at + 2, x / 65536);
}

proof fn at64_of_le64(bytes: Seq<u8>, at: int, x: nat)
    requires
        0 <= at,
        at + 8 <= bytes.len(),
        bytes.subrange(at, at + 8) == le64(x),
        x <= u64::MAX,
    ensures
        at64(bytes, at) == x,
{
    let part = bytes.subrange(at, at + 8);
    assert(bytes.subrange(at, at + 4) =~= part.subrange(0, 4));
    assert(bytes.subrange(at + 4, at + 8) =~= part.subrange(4, 8));
    assert(part.subrange(0, 4) =~= le32(x % 4294967296));
    assert(part.subrange(4, 8) =~= le32(x / 4294967296));
    at32_of_le32(bytes, at, x % 4294967296);
    at32_of_le32(bytes, at + 4, x / 4294967296);
}

proof fn header_parts(
    a: Seq<u8>,
    b: Seq<u8>,
    c: Seq<u8>,
    d: Seq<u8>,
    e: Seq<u8>,
    f: Seq<u8>,
    g: Seq<u8>,
    h: Seq<u8>,
    i: Seq<u8>,
    payload: Seq<u8>,
)
    requires
        a.len() == 4,
        b.len() == 2,
        c.len() == 2,
        d.len() == 8,
        e.len() == 2,
        f.len() == 2,
        g.len() == 2,
        h.len() == 2,
        i.len() == 4,
    ensures
        ({
            let bytes = a + b + c + d + e + f + g + h + i + payload;
            &&& bytes.len() == 28 + payload.len()
            &&& bytes.subrange(0, 4) == a
            &&& bytes.subrange(4, 6) == b
            &&& bytes.subrange(6, 8) == c
            &&& bytes.subrange(8, 16) == d
            &&& bytes.subrange(16, 18) == e
            &&& bytes.subrange(18, 20) == f
            &&& bytes.subrange(20, 22) == g
            &&& bytes.subrange(22, 24) == h
            &&& bytes.subrange(24, 28) == i
            &&& bytes.skip(28) == payload
        }),
{
    let bytes = a + b + c + d + e + f + g + h + i + payload;
    assert(bytes.subrange(0, 4) =~= a);
    assert(bytes.subrange(4, 6) =~= b);
    assert(bytes.subrange(6, 8) =~= c);
    assert(bytes.subrange(8, 16) =~= d);
    assert(bytes.subrange(16, 18) =~= e);
    assert(bytes.subrange(18, 20) =~= f);
    assert(bytes.subrange(20, 22) =~= g);
    assert(bytes.subrange(22, 24) =~= h);
    assert(bytes.subrange(24, 28) =~= i);
    assert(bytes.skip(28) =~= payload);
}

proof fn encoded_parts(p: PacketModel)
    ensures
        ({
            let bytes = encoded(p);
            &&& bytes.len() == 28 + p.payload.len()
            &&& bytes.subrange(0, 4) == le32(MAGIC as nat)
            &&& bytes.subrange(4, 6) == le16(VERSION as nat)
            &&& bytes.subrange(6, 8) == le16(p.kind.code() as nat)
            &&& bytes.subrange(8, 16) == le64(p.request_id as nat)
            &&& bytes.subrange(16, 18) == le16(p.operation.code() as nat)
            &&& bytes.subrange(18, 20) == le16(p.status.code() as nat)
            &&& bytes.subrange(20, 22) == le16(flags(p.more))
            &&& bytes.subrange(22, 24) == le16(0)
            &&& bytes.subrange(24, 28) == le32(p.payload.len())
            &&& bytes.skip(28) == p.payload
        }),
{
    header_parts(
        le32(MAGIC as nat),
        le16(VERSION as nat),
        le16(p.kind.code() as nat),
        le64(p.request_id as nat),
        le16(p.operation.code() as nat),
        le16(p.status.code() as nat),
        le16(flags(p.more)),
        le16(0),
        le32(p.payload.len()),
        p.payload,
    );
}

proof fn decoded_fields(bytes: Seq<u8>, p: PacketModel)
    requires
        p.payload.len() <= MAX_PAYLOAD_LEN,
        bytes.len() == 28 + p.payload.len(),
        at32(bytes, 0) == MAGIC,
        at16(bytes, 4) == VERSION,
        at16(bytes, 6) == p.kind.code(),
        at64(bytes, 8) == p.request_id,
        at16(bytes, 16) == p.operation.code(),
        at16(bytes, 18) == p.status.code(),
        at16(bytes, 20) == flags(p.more),
        at16(bytes, 22) == 0,
        at32(bytes, 24) == p.payload.len(),
        bytes.skip(28) == p.payload,
    ensures
        decoded(bytes) == Ok::<PacketModel, ProtocolError>(p),
{
    numbers_law(p.kind, p.operation, p.status, 0);
}

/// Decoding gives back every packet that can be encoded.
pub proof fn decode_after_encode(p: PacketModel)
    requires
        p.payload.len() <= MAX_PAYLOAD_LEN,
    ensures
        decoded(encoded(p)) == Ok::<PacketModel, ProtocolError>(p),
{
    let bytes = encoded(p);
    encoded_parts(p);
    assert(at32(bytes, 0) == MAGIC) by {
        at32_of_le32(bytes, 0, MAGIC as nat);
    }
    assert(at16(bytes, 4) == VERSION) by {
        at16_of_le16(bytes, 4, VERSION as nat);
    }
    assert(at16(bytes, 6) == p.kind.code()) by {
        at16_of_le16(bytes, 6, p.kind.code() as nat);
    }
    assert(at64(bytes, 8) == p.request_id) by {
        at64_of_le64(bytes, 8, p.request_id as nat);
    }
    assert(at16(bytes, 16) == p.operation.code()) by {
        at16_of_le16(bytes, 16, p.operation.code() as nat);
    }
    assert(at16(bytes, 18) == p.status.code()) by {
        at16_of_le16(bytes, 18, p.status.code() as nat);
    }
    assert(at16(bytes, 20) == flags(p.more)) by {
        at16_of_le16(bytes, 20, flags(p.more));
    }
    assert(at16(bytes, 22) == 0) by {
        at16_of_le16(bytes, 22, 0);
    }
    assert(at32(bytes, 24) == p.payload.len()) by {
        at32_of_le32(bytes, 24, p.payload.len());
    }
    decoded_fields(bytes, p);
}

proof fn le16_of_at16(bytes: Seq<u8>, at: int)
    requires
        0 <= at,
        at + 2 <= bytes.len(),
    ensures
        bytes.subrange(at, at + 2) == le16(at16(bytes, at)),
        at16(bytes, at) < 65536,
{
    assert(bytes.subrange(at, at + 2) =~= le16(at16(bytes, at)));
}

proof fn le32_of_at32(bytes: Seq<u8>, at: int)
    requires
        0 <= at,
        at + 4 <= bytes.len(),
    ensures
        bytes.subrange(at, at + 4) == le32(at32(bytes, at)),
        at32(bytes, at) < 4294967296,
{
    le16_of_at16(bytes, at);
    le16_of_at16(bytes, at + 2);
    let x = at32(bytes, at);
    assert(x % 65536 == at16(bytes, at) && x / 65536 == at16(bytes, at + 2));
    assert(bytes.subrange(at, at + 4) =~= bytes.subrange(at, at + 2) + bytes.subrange(
        at + 2,
        at + 4,
    ));
}

proof fn le64_of_at64(bytes: Seq<u8>, at: int)
    requires
        0 <= at,
        at + 8 <= bytes.len(),
    ensures
        bytes.subrange(at, at + 8) == le64(at64(bytes, at)),
        at64(bytes, at) <= u64::MAX,
{
    le32_of_at32(bytes, at);
    le32_of_at32(bytes, at + 4);
    let x = at64(bytes, at);
    assert(x % 4294967296 == at32(bytes, at) && x / 4294967296 == at32(bytes, at + 4));
    assert(bytes.subrange(at, at + 8) =~= bytes.subrange(at, at + 4) + bytes.subrange(
        at + 4,
        at + 8,
    ));
}

/// Only one sequence of bytes decodes to a packet: the one it encodes to.
pub proof fn encode_after_decode(bytes: Seq<u8>)
    ensures
        decoded(bytes) matches Ok(p) ==> encoded(p) == bytes && p.payload.len() <= MAX_PAYLOAD_LEN,
{
    if let Ok(p) = decoded(bytes) {
        le32_of_at32(bytes, 0);
        le16_of_at16(bytes, 4);
        le16_of_at16(bytes, 6);
        le64_of_at64(bytes, 8);
        le16_of_at16(bytes, 16);
        le16_of_at16(bytes, 18);
        le16_of_at16(bytes, 20);
        le16_of_at16(bytes, 22);
        le32_of_at32(bytes, 24);
        numbers_law(p.kind, p.operation, p.status, at16(bytes, 6) as u16);
        numbers_law(p.kind, p.operation, p.status, at16(bytes, 16) as u16);
        numbers_law(p.kind, p.operation, p.status, at16(bytes, 18) as u16);
        assert(bytes.subrange(0, 4) == le32(MAGIC as nat));
        assert(bytes.subrange(4, 6) == le16(VERSION as nat));
        assert(bytes.subrange(6, 8) == le16(p.kind.code() as nat));
        assert(bytes.subrange(8, 16) == le64(p.request_id as nat));
        assert(bytes.subrange(16, 18) == le16(p.operation.code() as nat));
        assert(bytes.subrange(18, 20) == le16(p.status.code() as nat));
        assert(bytes.subrange(20, 22) == le16(flags(p.more)));
        assert(bytes.subrange(22, 24) == le16(0));
        assert(bytes.subrange(24, 28) == le32(p.payload.len()));
        assert(bytes =~= bytes.subrange(0, 4) + bytes.subrange(4, 6) + bytes.subrange(6, 8)
            + bytes.subrange(8, 16) + bytes.subrange(16, 18) + bytes.subrange(18, 20)
            + bytes.subrange(20, 22) + bytes.subrange(22, 24) + bytes.subrange(24, 28)
            + bytes.skip(28));
    }
}

/// The text of a [`ProtocolError`].
pub open spec fn protocol_error_message(error: ProtocolError) -> Seq<char> {
    match error {
        ProtocolError::Truncated { expected, actual } =>
            "packet is truncated: expected at least "@ + text::decimal(expected as nat)
                + " bytes, got "@ + text::decimal(actual as nat),
        ProtocolError::InvalidMagic(magic) => "invalid protocol magic 0x"@ + text::hex8(
            magic as nat,
        ),
        ProtocolError::UnsupportedVersion(version) => "unsupported protocol version "@
            + text::decimal(version as nat),
        ProtocolError::InvalidMessageKind(kind) => "invalid message kind "@ + text::decimal(
            kind as nat,
        ),
        ProtocolError::InvalidOperation(operation) => "invalid operation "@ + text::decimal(
            operation as nat,
        ),
        ProtocolError::InvalidStatus(status) => "invalid status code "@ + text::decimal(
            status as nat,
        ),
        ProtocolError::ReservedBits => "reserved protocol bits are non-zero"@,
        ProtocolError::PayloadTooLarge(size) => "payload is too large: "@ + text::decimal(
            size as nat,
        ) + " bytes"@,
        ProtocolError::PacketTooLarge(size) => "packet is too large: "@ + text::decimal(
            size as nat,
        ) + " bytes"@,
        ProtocolError::LengthMismatch { declared, actual } =>
            "payload length mismatch: declared "@ + text::decimal(declared as nat)
                + ", received "@ + text::decimal(actual as nat),
    }
}

impl ProtocolError {
    /// The text of the error.
    pub fn message(&self) -> (r: String)
        ensures
            r@ == protocol_error_message(*self),
    {
        match *self {
            ProtocolError::Truncated { expected, actual } => {
                let first = text::decimal_string(expected as u64);
                let second = text::decimal_string(actual as u64);
                let mut r = text::concat3(
                    "packet is truncated: expected at least ",
                    first.as_str(),
                    " bytes, got ",
                );
                r.append(second.as_str());
                r
            },
            ProtocolError::InvalidMagic(magic) => {
                let digits = text::hex8_string(magic);
                text::concat2("invalid protocol magic 0x", digits.as_str())
            },
            ProtocolError::UnsupportedVersion(version) => {
                let digits = text::decimal_string(version as u64);
                text::concat2("unsupported protocol version ", digits.as_str())
            },
            ProtocolError::InvalidMessageKind(kind) => {
                let digits = text::decimal_string(kind as u64);
                text::concat2("invalid message kind ", digits.as_str())
            },
            ProtocolError::InvalidOperation(operation) => {
                let digits = text::decimal_string(operation as u64);
                text::concat2("invalid operation ", digits.as_str())
            },
            ProtocolError::InvalidStatus(status) => {
                let digits = text::decimal_string(status as u64);
                text::concat2("invalid status code ", digits.as_str())
            },
            ProtocolError::ReservedBits => text::owned("reserved protocol bits are non-zero"),
            ProtocolError::PayloadTooLarge(size) => {
                let digits = text::decimal_string(size as u64);
                text::concat3("payload is too large: ", digits.as_str(), " bytes")
            },
            ProtocolError::PacketTooLarge(size) => {
                let digits = text::decimal_string(size as u64);
                text::concat3("packet is too large: ", digits.as_str(), " bytes")
            },
            ProtocolError::LengthMismatch { declared, actual } => {
                let first = text::decimal_string(declared as u64);
                let second = text::decimal_string(actual as u64);
                let mut r = text::concat3(
                    "payload length mismatch: declared ",
                    first.as_str(),
                    ", received ",
                );
                r.append(second.as_str());
                r
            },
        }
    }
}

/// The numbers of the wire: kinds and operations count from one in the order in which they
/// came to be, and statuses from zero.
pub proof fn wire_numbers_law()
    ensures
        MessageKind::Request.code() == 1,
        MessageKind::Response.code() == 2,
        Operation::Start.code() == 1,
        Operation::Stop.code() == 2,
        Operation::Restart.code() == 3,
        Operation::ReloadService.code() == 4,
        Operation::Status.code() == 5,
        Operation::List.code() == 6,
        Operation::IsActive.code() == 7,
        Operation::IsEnabled.code() == 8,
        Operation::Dependencies.code() == 9,
        Operation::Enable.code() == 10,
        Operation::Disable.code() == 11,
        Operation::Reload.code() == 12,
        Operation::Apply.code() == 13,
        Operation::ResetFailed.code() == 14,
        Operation::Timings.code() == 15,
        Operation::CriticalPath.code() == 16,
        Operation::Reboot.code() == 17,
        Operation::Poweroff.code() == 18,
        Operation::ApplyDryRun.code() == 19,
        Operation::StopForce.code() == 20,
        StatusCode::Success.code() == 0,
        StatusCode::ServiceFailure.code() == 1,
        StatusCode::InvalidRequest.code() == 2,
        StatusCode::PermissionDenied.code() == 3,
        StatusCode::ManagerUnavailable.code() == 4,
        StatusCode::Timeout.code() == 5,
        StatusCode::NotFound.code() == 6,
        StatusCode::Conflict.code() == 7,
        StatusCode::Internal.code() == 8,
{
}

/// What stands where on the wire: the letters `LOOM`, the version, the kind, the number of the
/// request, the operation, the status, whether more follows, two zero bytes, the length of the
/// payload, and the payload; numbers have their low bytes first.
pub proof fn layout_law(p: PacketModel)
    requires
        p.payload.len() <= 65508,
    ensures
        ({
            let bytes = encoded(p);
            &&& bytes.len() == 28 + p.payload.len()
            &&& bytes[0] == 0x4c && bytes[1] == 0x4f && bytes[2] == 0x4f && bytes[3] == 0x4d
            &&& bytes[4] == 1 && bytes[5] == 0
            &&& bytes[6] == p.kind.code() && bytes[7] == 0
            &&& p.request_id == bytes[8] + 0x100 * bytes[9] + 0x1_0000 * bytes[10] + 0x100_0000
                * bytes[11] + 0x1_0000_0000 * bytes[12] + 0x100_0000_0000 * bytes[13]
                + 0x1_0000_0000_0000 * bytes[14] + 0x100_0000_0000_0000 * bytes[15]
            &&& bytes[16] == p.operation.code() && bytes[17] == 0
            &&& bytes[18] == p.status.code() && bytes[19] == 0
            &&& bytes[20] == (if p.more {
                1u8
            } else {
                0u8
            }) && bytes[21] == 0
            &&& bytes[22] == 0 && bytes[23] == 0
            &&& p.payload.len() == bytes[24] + 0x100 * bytes[25] + 0x1_0000 * bytes[26] + 0x100_0000
                * bytes[27]
            &&& forall|i: int| 0 <= i < p.payload.len() ==> bytes[28 + i] == #[trigger] p.payload[i]
        }),
{
    let bytes = encoded(p);
    encoded_parts(p);
    at32_of_le32(bytes, 0, MAGIC as nat);
    at16_of_le16(bytes, 4, VERSION as nat);
    at16_of_le16(bytes, 6, p.kind.code() as nat);
    at64_of_le64(bytes, 8, p.request_id as nat);
    at16_of_le16(bytes, 16, p.operation.code() as nat);
    at16_of_le16(bytes, 18, p.status.code() as nat);
    at16_of_le16(bytes, 20, flags(p.more));
    at16_of_le16(bytes, 22, 0);
    at32_of_le32(bytes, 24, p.payload.len());
    assert forall|i: int| 0 <= i < p.payload.len() implies bytes[28 + i]
        == #[trigger] p.payload[i] by {
        assert(bytes.skip(28)[i] == p.payload[i]);
    }
}

/// Which bytes are a packet: from 28 to 65536 of them, with the letters, the version, no
/// unknown bit, a kind, an operation and a status that are known, and just as many more as
/// they say. Each refusal is for the first of these that fails.
pub proof fn decode_law(bytes: Seq<u8>)
    ensures
        ({
            let sized = 28 <= bytes.len() <= 65536;
            let lettered = bytes[0] == 0x4c && bytes[1] == 0x4f && bytes[2] == 0x4f && bytes[3]
                == 0x4d;
            let first = bytes[4] == 1 && bytes[5] == 0;
            let plain = bytes[20] <= 1 && bytes[21] == 0 && bytes[22] == 0 && bytes[23] == 0;
            let whole = bytes.len() == 28 + bytes[24] + 0x100 * bytes[25] + 0x1_0000 * bytes[26]
                + 0x100_0000 * bytes[27];
            let kind = 1 <= bytes[6] <= 2 && bytes[7] == 0;
            let operation = 1 <= bytes[16] <= 20 && bytes[17] == 0;
            let status = bytes[18] <= 8 && bytes[19] == 0;
            &&& decoded(bytes) is Ok <==> sized && lettered && first && plain && whole && kind
                && operation && status
            &&& decoded(bytes) matches Err(e) ==> match e {
                ProtocolError::PacketTooLarge(_) => bytes.len() > 65536 || !whole,
                ProtocolError::Truncated { expected, actual } => bytes.len() < 28 && expected == 28
                    && actual == bytes.len(),
                ProtocolError::InvalidMagic(_) => sized && !lettered,
                ProtocolError::UnsupportedVersion(_) => sized && lettered && !first,
                ProtocolError::ReservedBits => sized && lettered && first && !plain,
                ProtocolError::LengthMismatch { .. } => sized && lettered && first && plain
                    && !whole,
                ProtocolError::InvalidMessageKind(_) => sized && whole && !kind,
                ProtocolError::InvalidOperation(_) => sized && whole && kind && !operation,
                ProtocolError::InvalidStatus(_) => sized && whole && kind && operation && !status,
                ProtocolError::PayloadTooLarge(_) => false,
            }
            &&& decoded(bytes) matches Ok(p) ==> {
                &&& p.kind.code() == bytes[6]
                &&& p.operation.code() == bytes[16]
                &&& p.status.code() == bytes[18]
                &&& p.more <==> bytes[20] == 1
                &&& p.payload == bytes.skip(28)
            }
        }),
{
    if 28 <= bytes.len() {
        numbers_law(MessageKind::Request, Operation::Start, StatusCode::Success, at16(
            bytes,
            6,
        ) as u16);
        numbers_law(MessageKind::Request, Operation::Start, StatusCode::Success, at16(
            bytes,
            16,
        ) as u16);
        numbers_law(MessageKind::Request, Operation::Start, StatusCode::Success, at16(
            bytes,
            18,
        ) as u16);
    }
}

} // verus!
