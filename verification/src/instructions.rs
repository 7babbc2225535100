//! The transaction surface's discriminators: single bytes grouped by
//! component — program, spool, miner, reel — dispatched to handlers.

use vstd::prelude::*;
use vstd::bytes::spec_u64_to_le_bytes;
use crate::consts::{SEGMENT_PROOF_LEN, SPOOL_PROOF_LEN};
use crate::error::SpoolError;

verus! {

/// An instruction of the on-ledger program, by discriminator.
#[derive(Clone, Copy, Debug, PartialEq, Eq, Structural)]
pub enum InstructionKind {
    /// Program 0x00: initialize the singletons and the genesis spool.
    Initialize,
    /// Spool 0x10: create a spool and its writer.
    SpoolCreate,
    /// Spool 0x11: append segments.
    SpoolWrite,
    /// Spool 0x12: replace a segment under proof.
    SpoolUpdate,
    /// Spool 0x13: finalize into the archive.
    SpoolFinalize,
    /// Spool 0x14: set the header.
    SpoolSetHeader,
    /// Spool 0x15: add rent to the balance.
    SpoolSubsidize,
    /// Miner 0x20: register.
    MinerRegister,
    /// Miner 0x21: unregister.
    MinerUnregister,
    /// Miner 0x22: submit a proof.
    MinerMine,
    /// Miner 0x23: claim rewards.
    MinerClaim,
    /// Reel 0x40: create.
    ReelCreate,
    /// Reel 0x41: destroy.
    ReelDestroy,
    /// Reel 0x42: pack a spool root.
    ReelPack,
    /// Reel 0x43: unpack under proof.
    ReelUnpack,
    /// Reel 0x44: commit a leaf.
    ReelCommit,
}

/// The discriminator byte of each instruction.
pub open spec fn spec_discriminator(kind: InstructionKind) -> u8 {
    match kind {
        InstructionKind::Initialize => 0x00,
        InstructionKind::SpoolCreate => 0x10,
        InstructionKind::SpoolWrite => 0x11,
        InstructionKind::SpoolUpdate => 0x12,
        InstructionKind::SpoolFinalize => 0x13,
        InstructionKind::SpoolSetHeader => 0x14,
        InstructionKind::SpoolSubsidize => 0x15,
        InstructionKind::MinerRegister => 0x20,
        InstructionKind::MinerUnregister => 0x21,
        InstructionKind::MinerMine => 0x22,
        InstructionKind::MinerClaim => 0x23,
        InstructionKind::ReelCreate => 0x40,
        InstructionKind::ReelDestroy => 0x41,
        InstructionKind::ReelPack => 0x42,
        InstructionKind::ReelUnpack => 0x43,
        InstructionKind::ReelCommit => 0x44,
    }
}

/// The instruction a discriminator byte names, if any.
pub open spec fn spec_parse_discriminator(d: u8) -> Option<InstructionKind> {
    if d == 0x00 {
        Some(InstructionKind::Initialize)
    } else if d == 0x10 {
        Some(InstructionKind::SpoolCreate)
    } else if d == 0x11 {
        Some(InstructionKind::SpoolWrite)
    } else if d == 0x12 {
        Some(InstructionKind::SpoolUpdate)
    } else if d == 0x13 {
        Some(InstructionKind::SpoolFinalize)
    } else if d == 0x14 {
        Some(InstructionKind::SpoolSetHeader)
    } else if d == 0x15 {
        Some(InstructionKind::SpoolSubsidize)
    } else if d == 0x20 {
        Some(InstructionKind::MinerRegister)
    } else if d == 0x21 {
        Some(InstructionKind::MinerUnregister)
    } else if d == 0x22 {
        Some(InstructionKind::MinerMine)
    } else if d == 0x23 {
        Some(InstructionKind::MinerClaim)
    } else if d == 0x40 {
        Some(InstructionKind::ReelCreate)
    } else if d == 0x41 {
        Some(InstructionKind::ReelDestroy)
    } else if d == 0x42 {
        Some(InstructionKind::ReelPack)
    } else if d == 0x43 {
        Some(InstructionKind::ReelUnpack)
    } else if d == 0x44 {
        Some(InstructionKind::ReelCommit)
    } else {
        None
    }
}

impl InstructionKind {
    /// The instruction's discriminator byte.
    pub fn discriminator(&self) -> (r: u8)
        ensures
            r == spec_discriminator(*self),
    {
        match self {
            InstructionKind::Initialize => 0x00,
            InstructionKind::SpoolCreate => 0x10,
            InstructionKind::SpoolWrite => 0x11,
            InstructionKind::SpoolUpdate => 0x12,
            InstructionKind::SpoolFinalize => 0x13,
            InstructionKind::SpoolSetHeader => 0x14,
            InstructionKind::SpoolSubsidize => 0x15,
            InstructionKind::MinerRegister => 0x20,
            InstructionKind::MinerUnregister => 0x21,
            InstructionKind::MinerMine => 0x22,
            InstructionKind::MinerClaim => 0x23,
            InstructionKind::ReelCreate => 0x40,
            InstructionKind::ReelDestroy => 0x41,
            InstructionKind::ReelPack => 0x42,
            InstructionKind::ReelUnpack => 0x43,
            InstructionKind::ReelCommit => 0x44,
        }
    }
}

/// Splits instruction data into its dispatched kind and payload. Fails on
/// empty data or an unknown discriminator.
pub fn parse_instruction<'a>(data: &'a [u8]) -> (r: Result<(InstructionKind, &'a [u8]), SpoolError>)
    ensures
        data@.len() == 0 ==> r is Err,
        data@.len() > 0 ==> match spec_parse_discriminator(data@[0]) {
            Some(kind) => r matches Ok(p) && p.0 == kind && p.1@ == data@.skip(1),
            None => r is Err,
        },
        r is Err ==> r == Err::<(InstructionKind, &'a [u8]), SpoolError>(
            SpoolError::UnknownError,
        ),
{
    if data.len() == 0 {
        return Err(SpoolError::UnknownError);
    }
    let n = data.len();
    let d = data[0];
    let rest = vstd::slice::slice_subrange(data, 1, n);
    proof {
        assert(rest@ =~= data@.skip(1));
    }
    let kind = if d == 0x00 {
        InstructionKind::Initialize
    } else if d == 0x10 {
        InstructionKind::SpoolCreate
    } else if d == 0x11 {
        InstructionKind::SpoolWrite
    } else if d == 0x12 {
        InstructionKind::SpoolUpdate
    } else if d == 0x13 {
        InstructionKind::SpoolFinalize
    } else if d == 0x14 {
        InstructionKind::SpoolSetHeader
    } else if d == 0x15 {
        InstructionKind::SpoolSubsidize
    } else if d == 0x20 {
        InstructionKind::MinerRegister
    } else if d == 0x21 {
        InstructionKind::MinerUnregister
    } else if d == 0x22 {
        InstructionKind::MinerMine
    } else if d == 0x23 {
        InstructionKind::MinerClaim
    } else if d == 0x40 {
        InstructionKind::ReelCreate
    } else if d == 0x41 {
        InstructionKind::ReelDestroy
    } else if d == 0x42 {
        InstructionKind::ReelPack
    } else if d == 0x43 {
        InstructionKind::ReelUnpack
    } else if d == 0x44 {
        InstructionKind::ReelCommit
    } else {
        return Err(SpoolError::UnknownError);
    };
    Ok((kind, rest))
}

/// Round trip: every instruction's discriminator parses back to it.
pub proof fn lemma_discriminator_round_trip(kind: InstructionKind)
    ensures
        spec_parse_discriminator(spec_discriminator(kind)) == Some(kind),
{
}

/// The Unpack payload: `index ‖ proof ‖ value`, 616 bytes. Commit shares
/// the same shape over the segment-proof length.
#[derive(Clone, Copy, Debug)]
pub struct UnpackArgs {
    /// The spool number of the unpacked leaf.
    pub index: u64,
    /// The fixed-length sibling path.
    pub proof: [[u8; 32]; SPOOL_PROOF_LEN],
    /// The packed spool root.
    pub value: [u8; 32],
}

/// The Update payload:
/// `segment_number ‖ old_data ‖ new_data ‖ proof`, 840 bytes.
#[derive(Clone, Copy, Debug)]
pub struct UpdateArgs {
    /// The replaced segment's number.
    pub segment_number: u64,
    /// The segment's current contents.
    pub old_data: [u8; 128],
    /// The replacement contents.
    pub new_data: [u8; 128],
    /// The fixed-length sibling path.
    pub proof: [[u8; 32]; SEGMENT_PROOF_LEN],
}

/// The byte layout of a proof path: its siblings in order.
pub open spec fn spec_path_bytes(path: Seq<[u8; 32]>) -> Seq<u8>
    decreases path.len(),
{
    if path.len() == 0 {
        Seq::empty()
    } else {
        spec_path_bytes(path.drop_last()) + path.last()@
    }
}

/// The byte layout of an `UnpackArgs`.
pub open spec fn spec_unpack_args_bytes(a: UnpackArgs) -> Seq<u8> {
    spec_u64_to_le_bytes(a.index) + spec_path_bytes(a.proof@) + a.value@
}

/// The byte layout of an `UpdateArgs`.
pub open spec fn spec_update_args_bytes(a: UpdateArgs) -> Seq<u8> {
    spec_u64_to_le_bytes(a.segment_number) + a.old_data@ + a.new_data@ + spec_path_bytes(a.proof@)
}

/// Appends a proof path's siblings.
fn push_path(out: &mut Vec<u8>, path: &[[u8; 32]])
    ensures
        final(out)@ == old(out)@ + spec_path_bytes(path@),
{
    let n = path.len();
    let mut i: usize = 0;
    while i < n
        invariant
            i <= n,
            n == path@.len(),
            out@ == old(out)@ + spec_path_bytes(path@.subrange(0, i as int)),
        decreases n - i,
    {
        crate::events::push_bytes32(out, &path[i]);
        proof {
            let pre = path@.subrange(0, i as int);
            let nxt = path@.subrange(0, i as int + 1);
            assert(nxt.drop_last() =~= pre);
            assert(nxt.last() == path@[i as int]);
        }
        i = i + 1;
    }
    proof {
        assert(path@.subrange(0, n as int) =~= path@);
    }
}

/// Reads a segment-proof-length path at `start`.
fn read_path_at(bytes: &[u8], start: usize) -> (r: [[u8; 32]; 18])
    requires
        start + 18 * 32 <= bytes@.len(),
    ensures
        spec_path_bytes(r@) == bytes@.subrange(start as int, start as int + 18 * 32),
        forall|j: int|
            0 <= j < 18 ==> r@[j]@ == bytes@.subrange(
                start + j * 32,
                start + j * 32 + 32,
            ),
{
    let n = bytes.len();
    let mut r = [[0u8; 32]; 18];
    let mut i: usize = 0;
    while i < 18
        invariant
            i <= 18,
            start + 18 * 32 <= n,
            n == bytes@.len(),
            r@.len() == 18,
            forall|j: int|
                0 <= j < i ==> r@[j]@ == bytes@.subrange(start + j * 32, start + j * 32 + 32),
        decreases 18 - i,
    {
        let piece = crate::events::read_bytes32_at(bytes, start + i * 32);
        r[i] = piece;
        i = i + 1;
    }
    proof {
        lemma_path_bytes_glue(r@, bytes@, start as int, 18);
        assert(r@.subrange(0, 18) =~= r@);
    }
    r
}

/// A path whose every sibling is a consecutive 32-byte window serializes
/// to the whole window.
proof fn lemma_path_bytes_glue(path: Seq<[u8; 32]>, bytes: Seq<u8>, start: int, m: int)
    requires
        0 <= m <= path.len(),
        0 <= start,
        start + path.len() * 32 <= bytes.len(),
        forall|j: int| 0 <= j < path.len() ==> path[j]@ == bytes.subrange(
            start + j * 32,
            start + j * 32 + 32,
        ),
    ensures
        spec_path_bytes(path.subrange(0, m)) == bytes.subrange(start, start + m * 32),
    decreases m,
{
    if m == 0 {
        assert(path.subrange(0, 0) =~= Seq::<[u8; 32]>::empty());
        assert(bytes.subrange(start, start) =~= Seq::<u8>::empty());
    } else {
        lemma_path_bytes_glue(path, bytes, start, m - 1);
        let cur = path.subrange(0, m);
        assert(cur.drop_last() =~= path.subrange(0, m - 1));
        assert(cur.last() == path[m - 1]);
        assert(bytes.subrange(start, start + m * 32) =~= bytes.subrange(
            start,
            start + (m - 1) * 32,
        ) + bytes.subrange(start + (m - 1) * 32, start + m * 32));
    }
}

impl UnpackArgs {
    /// Serializes the payload to its 616-byte layout.
    pub fn to_bytes(&self) -> (r: Vec<u8>)
        ensures
            r@ == spec_unpack_args_bytes(*self),
    {
        let mut out: Vec<u8> = Vec::new();
        crate::events::push_u64_le(&mut out, self.index);
        push_path(&mut out, self.proof.as_slice());
        crate::events::push_bytes32(&mut out, &self.value);
        out
    }

    /// Parses a payload from its 616-byte layout; fails on any other
    /// length.
    pub fn from_bytes(bytes: &[u8]) -> (r: Option<UnpackArgs>)
        ensures
            bytes@.len() == 616 ==> (r matches Some(a) && spec_unpack_args_bytes(a) == bytes@),
            bytes@.len() != 616 ==> r is None,
    {
        if bytes.len() != 616 {
            return None;
        }
        let index = crate::events::read_u64_at(bytes, 0);
        let proof_path = read_path_at(bytes, 8);
        let value = crate::events::read_bytes32_at(bytes, 584);
        let a = UnpackArgs { index, proof: proof_path, value };
        proof {
            vstd::bytes::lemma_auto_spec_u64_to_from_le_bytes();
            assert(spec_unpack_args_bytes(a) =~= bytes@);
        }
        Some(a)
    }
}

impl UpdateArgs {
    /// Serializes the payload to its 840-byte layout.
    pub fn to_bytes(&self) -> (r: Vec<u8>)
        ensures
            r@ == spec_update_args_bytes(*self),
    {
        let mut out: Vec<u8> = Vec::new();
        crate::events::push_u64_le(&mut out, self.segment_number);
        push_segment(&mut out, &self.old_data);
        push_segment(&mut out, &self.new_data);
        push_path(&mut out, self.proof.as_slice());
        out
    }

    /// Parses a payload from its 840-byte layout; fails on any other
    /// length.
    pub fn from_bytes(bytes: &[u8]) -> (r: Option<UpdateArgs>)
        ensures
            bytes@.len() == 840 ==> (r matches Some(a) && spec_update_args_bytes(a) == bytes@),
            bytes@.len() != 840 ==> r is None,
    {
        if bytes.len() != 840 {
            return None;
        }
        let segment_number = crate::events::read_u64_at(bytes, 0);
        let old_data = read_segment_at(bytes, 8);
        let new_data = read_segment_at(bytes, 136);
        let proof_path = read_path_at(bytes, 264);
        let a = UpdateArgs { segment_number, old_data, new_data, proof: proof_path };
        proof {
            vstd::bytes::lemma_auto_spec_u64_to_from_le_bytes();
            assert(spec_update_args_bytes(a) =~= bytes@);
        }
        Some(a)
    }
}

/// Appends one segment's bytes.
fn push_segment(out: &mut Vec<u8>, seg: &[u8; 128])
    ensures
        final(out)@ == old(out)@ + seg@,
{
    let mut i: usize = 0;
    while i < 128
        invariant
            i <= 128,
            out@ == old(out)@ + seg@.subrange(0, i as int),
        decreases 128 - i,
    {
        let b = seg[i];
        out.push(b);
        proof {
            assert(out@ =~= old(out)@ + seg@.subrange(0, i as int + 1));
        }
        i = i + 1;
    }
    proof {
        assert(seg@.subrange(0, 128) =~= seg@);
    }
}

/// Reads one segment's bytes at `start`.
fn read_segment_at(bytes: &[u8], start: usize) -> (r: [u8; 128])
    requires
        start + 128 <= bytes@.len(),
    ensures
        r@ == bytes@.subrange(start as int, start as int + 128),
{
    let n = bytes.len();
    let mut r = [0u8; 128];
    let mut i: usize = 0;
    while i < 128
        invariant
            i <= 128,
            start + 128 <= n,
            n == bytes@.len(),
            r@.len() == 128,
            forall|j: int| 0 <= j < i ==> r@[j] == bytes@[start + j],
        decreases 128 - i,
    {
        r[i] = bytes[start + i];
        i = i + 1;
    }
    proof {
        assert(r@ =~= bytes@.subrange(start as int, start as int + 128));
    }
    r
}

} // verus!
