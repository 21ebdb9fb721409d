//! Wire-level packet framing of the device transfer protocol: fixed-size
//! little-endian message headers over an additive payload checksum.

use vstd::bytes::{spec_u32_from_le_bytes, spec_u32_to_le_bytes, u32_from_le_bytes, u32_to_le_bytes};
use vstd::prelude::*;

verus! {

/// Header size: six 32-bit words.
pub const MSG_SIZE: usize = 24;

/// Largest payload a message may carry.
pub const MAX_ADB_DATA: u32 = 0x0010_0000;

/// Protocol command words.
#[derive(Clone, Copy, Debug, PartialEq, Eq, Structural)]
pub enum Cmd {
    Cnxn,
    Auth,
    Clse,
    Okay,
    Open,
    Sync,
    Wrte,
}

impl Cmd {
    /// The 32-bit word a command is framed as.
    pub open spec fn spec_code(self) -> u32 {
        match self {
            Cmd::Cnxn => 0x4E584E43,
            Cmd::Auth => 0x48545541,
            Cmd::Clse => 0x45534C43,
            Cmd::Okay => 0x59414B4F,
            Cmd::Open => 0x4E45504F,
            Cmd::Sync => 0x434E5953,
            Cmd::Wrte => 0x45545257,
        }
    }

    /// The command's word on the wire.
    pub fn code(self) -> (r: u32)
        ensures
            r == self.spec_code(),
    {
        match self {
            Cmd::Cnxn => 0x4E584E43,
            Cmd::Auth => 0x48545541,
            Cmd::Clse => 0x45534C43,
            Cmd::Okay => 0x59414B4F,
            Cmd::Open => 0x4E45504F,
            Cmd::Sync => 0x434E5953,
            Cmd::Wrte => 0x45545257,
        }
    }

    /// Decode a command word; an unknown word yields nothing, exactly
    /// when no command is framed as it.
    pub fn try_from_u32(v: u32) -> (r: Option<Cmd>)
        ensures
            match r {
                Some(c) => c.spec_code() == v,
                None => forall|c: Cmd| c.spec_code() != v,
            },
    {
        if v == 0x4E584E43 {
            Some(Cmd::Cnxn)
        } else if v == 0x48545541 {
            Some(Cmd::Auth)
        } else if v == 0x45534C43 {
            Some(Cmd::Clse)
        } else if v == 0x59414B4F {
            Some(Cmd::Okay)
        } else if v == 0x4E45504F {
            Some(Cmd::Open)
        } else if v == 0x434E5953 {
            Some(Cmd::Sync)
        } else if v == 0x45545257 {
            Some(Cmd::Wrte)
        } else {
            None
        }
    }
}

/// Additive payload checksum: the sum of all payload bytes.
pub open spec fn spec_checksum(data: Seq<u8>) -> int
    decreases data.len(),
{
    if data.len() == 0 {
        0int
    } else {
        spec_checksum(data.drop_last()) + data.last()
    }
}

proof fn lemma_checksum_bound(data: Seq<u8>)
    ensures
        0 <= spec_checksum(data) <= 255 * data.len(),
    decreases data.len(),
{
    if data.len() > 0 {
        lemma_checksum_bound(data.drop_last());
    }
}

/// Sum the payload bytes. The protocol caps payloads far below the point
/// where the sum could leave 32 bits.
pub fn checksum(data: &[u8]) -> (r: u32)
    requires
        data@.len() <= 0x0100_0000,
    ensures
        r == spec_checksum(data@),
{
    let n = data.len();
    let mut acc: u32 = 0;
    let mut i: usize = 0;
    while i < n
        invariant
            0 <= i <= n,
            n == data@.len(),
            n <= 0x0100_0000,
            acc == spec_checksum(data@.subrange(0, i as int)),
            acc <= 255 * i,
        decreases n - i,
    {
        let b = data[i];
        proof {
            assert(data@.subrange(0, i as int + 1).drop_last() =~= data@.subrange(0, i as int));
            assert(data@.subrange(0, i as int + 1).last() == data@[i as int]);
        }
        acc = acc + (b as u32);
        i = i + 1;
    }
    proof {
        assert(data@.subrange(0, n as int) =~= data@);
    }
    acc
}

/// Serializer of consecutive 32-bit little-endian words.
pub struct Packer {
    pub inner: Vec<u8>,
}

impl Packer {
    /// Continue a buffer of already-written bytes.
    pub fn new(inner: Vec<u8>) -> (r: Packer)
        ensures
            r.inner@ == inner@,
    {
        Packer { inner }
    }

    /// Append one word, least-significant byte first.
    pub fn write_u32(&mut self, b: u32)
        ensures
            final(self).inner@ == old(self).inner@ + spec_u32_to_le_bytes(b),
    {
        let mut w = u32_to_le_bytes(b);
        self.inner.append(&mut w);
    }

    /// The written bytes.
    pub fn into_inner(self) -> (r: Vec<u8>)
        ensures
            r@ == self.inner@,
    {
        self.inner
    }
}

/// Reader of consecutive 32-bit little-endian words.
pub struct UnPacker<'d> {
    pub inner: &'d [u8],
    pub cur: usize,
}

impl<'d> UnPacker<'d> {
    /// Start at the head of `inner`.
    pub fn new(inner: &'d [u8]) -> (r: UnPacker<'d>)
        ensures
            r.inner@ == inner@,
            r.cur == 0,
    {
        UnPacker { inner, cur: 0 }
    }

    /// Read the next word, least-significant byte first.
    pub fn read_u32(&mut self) -> (r: u32)
        requires
            old(self).cur + 4 <= old(self).inner@.len(),
            old(self).inner@.len() <= usize::MAX,
        ensures
            final(self).inner@ == old(self).inner@,
            final(self).cur == old(self).cur + 4,
            r == spec_u32_from_le_bytes(
                old(self).inner@.subrange(old(self).cur as int, old(self).cur + 4),
            ),
    {
        let w = vstd::slice::slice_subrange(self.inner, self.cur, self.cur + 4);
        self.cur = self.cur + 4;
        u32_from_le_bytes(w)
    }
}

/// The fixed-size header of one message: command, two arguments, payload
/// length, payload checksum, and the command word's bitwise complement.
pub open spec fn spec_header(cmd: Cmd, arg0: u32, arg1: u32, data: Seq<u8>) -> Seq<u8> {
    spec_u32_to_le_bytes(cmd.spec_code()) + spec_u32_to_le_bytes(arg0) + spec_u32_to_le_bytes(arg1)
        + spec_u32_to_le_bytes(data.len() as u32) + spec_u32_to_le_bytes(
        spec_checksum(data) as u32,
    ) + spec_u32_to_le_bytes(!cmd.spec_code())
}

/// One outgoing message header; the payload travels separately.
pub struct AdbMsg {
    pub packed: Vec<u8>,
}

impl AdbMsg {
    /// Frame a header for `data`.
    pub fn pack(cmd: Cmd, arg0: u32, arg1: u32, data: &[u8]) -> (r: AdbMsg)
        requires
            data@.len() <= MAX_ADB_DATA,
        ensures
            r.packed@ == spec_header(cmd, arg0, arg1, data@),
            r.packed@.len() == MSG_SIZE,
    {
        proof {
            lemma_checksum_bound(data@);
            vstd::bytes::lemma_auto_spec_u32_to_from_le_bytes();
        }
        let code = cmd.code();
        let magic = code ^ 0xFFFF_FFFFu32;
        let mut p = Packer::new(Vec::new());
        p.write_u32(code);
        p.write_u32(arg0);
        p.write_u32(arg1);
        p.write_u32(data.len() as u32);
        p.write_u32(checksum(data));
        p.write_u32(magic);
        let packed = p.into_inner();
        proof {
            assert(magic == !code) by (bit_vector)
                requires
                    magic == code ^ 0xFFFF_FFFFu32,
            ;
            assert(magic == !cmd.spec_code());
            assert(packed@ =~= spec_header(cmd, arg0, arg1, data@));
        }
        AdbMsg { packed }
    }
}

/// One decoded message header.
#[derive(Debug)]
pub struct UnpackedAdbMsg {
    pub cmd: Cmd,
    pub arg0: u32,
    pub arg1: u32,
    pub data_len: u32,
    pub checksum: u32,
}

impl UnpackedAdbMsg {
    /// Decode a fixed-size header read off the wire. The wire is
    /// untrusted input, so an unknown command word is a framing error,
    /// not a defect.
    pub fn unpack(buf: &[u8]) -> (r: Option<UnpackedAdbMsg>)
        requires
            buf@.len() == MSG_SIZE,
        ensures
            match r {
                Some(m) => {
                    &&& m.cmd.spec_code() == spec_u32_from_le_bytes(buf@.subrange(0, 4))
                    &&& m.arg0 == spec_u32_from_le_bytes(buf@.subrange(4, 8))
                    &&& m.arg1 == spec_u32_from_le_bytes(buf@.subrange(8, 12))
                    &&& m.data_len == spec_u32_from_le_bytes(buf@.subrange(12, 16))
                    &&& m.checksum == spec_u32_from_le_bytes(buf@.subrange(16, 20))
                },
                None => forall|c: Cmd|
                    c.spec_code() != spec_u32_from_le_bytes(buf@.subrange(0, 4)),
            },
    {
        let mut u = UnPacker::new(buf);
        let cmd_word = u.read_u32();
        let arg0 = u.read_u32();
        let arg1 = u.read_u32();
        let data_len = u.read_u32();
        let checksum = u.read_u32();
        match Cmd::try_from_u32(cmd_word) {
            Some(cmd) => Some(UnpackedAdbMsg { cmd, arg0, arg1, data_len, checksum }),
            None => None,
        }
    }

    /// Whether a payload's checksum matches the header's claim.
    pub fn matches_checksum(&self, data: &[u8]) -> (r: bool)
        requires
            data@.len() <= 0x0100_0000,
        ensures
            r == (self.checksum == spec_checksum(data@)),
    {
        self.checksum == checksum(data)
    }
}

} // verus!
