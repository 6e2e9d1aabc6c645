//! The command decoder: a raw instruction buffer is an 8-byte discriminator
//! followed by a compact binary payload (little-endian integers,
//! length-prefixed sequences, fields in declaration order, no padding).
//! `unpack` turns such a buffer into one of three typed commands or rejects
//! it; `pack` is the inverse, and the two are proved to round-trip.
//!
//! Each discriminator is the first eight bytes of the SHA-256 digest of the
//! command's name; the fixed byte strings below are those prefixes, and the
//! test suite checks them against `get_discriminator`, which computes the
//! digest with the hashing capability itself.

use vstd::prelude::*;
use vstd::slice::slice_subrange;
use crate::codec::le_val;
use crate::codec::le_bytes_of_u16;
use crate::codec::le_bytes_of_u32;
use crate::codec::le_bytes_of_u64;
use crate::codec::lemma_le_u16_roundtrip;
use crate::codec::lemma_le_u32_roundtrip;
use crate::codec::lemma_le_u64_roundtrip;
use crate::codec::read_le_u16;
use crate::codec::read_le_u32;
use crate::codec::read_le_u64;
use crate::codec::write_le_u16;
use crate::codec::write_le_u32;
use crate::codec::write_le_u64;
use crate::error::SplitterError;
use vstd::string::StringSliceAdditionalSpecFns;

verus! {

/// The SHA-256 digest of a byte string, as the hashing capability computes
/// it; the digest depends on the bytes alone.
pub uninterp spec fn sha256_of(bytes: Seq<u8>) -> Seq<u8>;

/// Relies on `solana_program::hash::hash`, which computes the SHA-256
/// digest of the input bytes, and on `Hash::to_bytes`, which returns the
/// digest's 32 bytes.
#[verifier::external_body]
fn sha256_digest(data: &[u8]) -> (r: [u8; 32])
    ensures
        r@ == sha256_of(data@),
{
    solana_program::hash::hash(data).to_bytes()
}

/// The name hashed into the native-split discriminator.
pub const SPLIT_LAMPORTS_NAME: &'static str = "instruction:splitlamports";

/// The name hashed into the single-mint split discriminator.
pub const SPLIT_SINGLE_MINT_NAME: &'static str = "instruction:splitspltokensfromsinglemint";

/// The name hashed into the multi-mint split discriminator.
pub const SPLIT_MULTIPLE_MINTS_NAME: &'static str = "instruction:splitspltokensfrommultiplemints";

/// The routing prefix of the native split command.
pub open spec fn spec_split_lamports_discriminator() -> Seq<u8> {
    seq![0x39u8, 0xa2u8, 0x88u8, 0x6du8, 0xadu8, 0x3bu8, 0xcbu8, 0xf4u8]
}

/// The routing prefix of the single-mint split command.
pub open spec fn spec_split_single_mint_discriminator() -> Seq<u8> {
    seq![0x30u8, 0xf6u8, 0xbfu8, 0x55u8, 0x9au8, 0x86u8, 0xffu8, 0xe6u8]
}

/// The routing prefix of the multi-mint split command.
pub open spec fn spec_split_multiple_mints_discriminator() -> Seq<u8> {
    seq![0x8bu8, 0xb6u8, 0xd4u8, 0xb9u8, 0x66u8, 0x45u8, 0x4fu8, 0xa6u8]
}

/// The routing prefix of the native split command.
pub fn split_lamports_discriminator() -> (r: [u8; 8])
    ensures
        r@ == spec_split_lamports_discriminator(),
{
    let r: [u8; 8] = [0x39, 0xa2, 0x88, 0x6d, 0xad, 0x3b, 0xcb, 0xf4];
    proof {
        assert(r@ =~= spec_split_lamports_discriminator());
    }
    r
}

/// The routing prefix of the single-mint split command.
pub fn split_single_mint_discriminator() -> (r: [u8; 8])
    ensures
        r@ == spec_split_single_mint_discriminator(),
{
    let r: [u8; 8] = [0x30, 0xf6, 0xbf, 0x55, 0x9a, 0x86, 0xff, 0xe6];
    proof {
        assert(r@ =~= spec_split_single_mint_discriminator());
    }
    r
}

/// The routing prefix of the multi-mint split command.
pub fn split_multiple_mints_discriminator() -> (r: [u8; 8])
    ensures
        r@ == spec_split_multiple_mints_discriminator(),
{
    let r: [u8; 8] = [0x8b, 0xb6, 0xd4, 0xb9, 0x66, 0x45, 0x4f, 0xa6];
    proof {
        assert(r@ =~= spec_split_multiple_mints_discriminator());
    }
    r
}

/// The payload of the native split: one amount per destination, in lamports.
pub struct SplitLamports {
    pub amounts: Vec<u64>,
}

/// The payload of the single-mint split: one raw token amount per
/// destination token account.
pub struct SplitSplTokensFromSingleMint {
    pub amounts: Vec<u64>,
}

/// The payload of the multi-mint split: one raw token amount per
/// source/destination pair, and the declared pair count `m`.
pub struct SplitSplTokensFromMultipleMints {
    pub amounts: Vec<u64>,
    pub m: u16,
}

/// The decoded command, the output of the decoder and the input of the
/// disbursement engine.
#[derive(Debug, PartialEq)]
pub enum SplitterInstruction {
    /// Splits lamports from one source to the destination accounts.
    ///
    /// Accounts expected by this instruction:
    ///
    ///     0. `[writable, signer]` source account
    ///     1. `[]` the native-ledger transfer capability handle
    ///     2. ... `[writable]` one destination account per amount
    SplitLamports(Vec<u64>),
    /// Splits tokens of one mint from one source token account.
    ///
    /// Accounts expected by this instruction:
    ///
    ///     0. `[signer]` owner/delegate of the source token account
    ///     1. `[]` the token-ledger transfer capability handle
    ///     2. `[writable]` source token account
    ///     3. ... `[writable]` one destination token account per amount
    SplitSplTokensFromSingleMint(Vec<u64>),
    /// Splits tokens pairwise: amount `i` moves from source token account
    /// `i` to destination token account `i`.
    ///
    /// Accounts expected by this instruction:
    ///
    ///     0. `[signer]` owner/delegate of the source token accounts
    ///     1. `[]` the token-ledger transfer capability handle
    ///     2. `[writable]` the `m` source token accounts
    ///     3. `[writable]` the `m` destination token accounts
    SplitSplTokensFromMultipleMints(Vec<u64>, u16),
}

/// The mathematical shape of a decoded command.
pub enum InstructionView {
    SplitLamports(Seq<u64>),
    SplitSplTokensFromSingleMint(Seq<u64>),
    SplitSplTokensFromMultipleMints(Seq<u64>, u16),
}

impl View for SplitterInstruction {
    type V = InstructionView;

    open spec fn view(&self) -> InstructionView {
        match self {
            SplitterInstruction::SplitLamports(amounts) => InstructionView::SplitLamports(
                amounts@,
            ),
            SplitterInstruction::SplitSplTokensFromSingleMint(amounts) => {
                InstructionView::SplitSplTokensFromSingleMint(amounts@)
            },
            SplitterInstruction::SplitSplTokensFromMultipleMints(amounts, m) => {
                InstructionView::SplitSplTokensFromMultipleMints(amounts@, *m)
            },
        }
    }
}

/// Parses a length-prefixed amount sequence that fills the whole payload:
/// a 32-bit count, then that many 64-bit amounts, nothing after.
pub open spec fn spec_parse_amounts(p: Seq<u8>) -> Option<Seq<u64>> {
    if p.len() < 4 {
        None
    } else {
        let n = le_val(p.subrange(0, 4));
        if p.len() == 4 + 8 * n {
            Some(Seq::new(n as nat, |i: int| le_val(p.subrange(4 + 8 * i, 12 + 8 * i)) as u64))
        } else {
            None
        }
    }
}

/// Parses an amount sequence followed by the 16-bit pair count `m`,
/// together filling the whole payload.
pub open spec fn spec_parse_amounts_m(p: Seq<u8>) -> Option<(Seq<u64>, u16)> {
    if p.len() < 4 {
        None
    } else {
        let n = le_val(p.subrange(0, 4));
        if p.len() == 4 + 8 * n + 2 {
            Some(
                (
                    Seq::new(n as nat, |i: int| le_val(p.subrange(4 + 8 * i, 12 + 8 * i)) as u64),
                    le_val(p.subrange(p.len() - 2, p.len() as int)) as u16,
                ),
            )
        } else {
            None
        }
    }
}

/// Reads the `n` 64-bit amounts that follow the count prefix.
fn read_amounts(p: &[u8], n: u32) -> (r: Vec<u64>)
    requires
        4 + 8 * (n as int) <= p@.len(),
    ensures
        r@ =~= Seq::new(n as nat, |i: int| le_val(p@.subrange(4 + 8 * i, 12 + 8 * i)) as u64),
{
    let mut r: Vec<u64> = Vec::new();
    let plen = p.len();
    let count = n as usize;
    let mut i: usize = 0;
    while i < count
        invariant
            i <= count,
            count == n as int,
            plen == p@.len(),
            4 + 8 * (n as int) <= p@.len(),
            r@.len() == i,
            forall|j: int|
                0 <= j < i ==> r@[j] == le_val(p@.subrange(4 + 8 * j, 12 + 8 * j)) as u64,
        decreases count - i,
    {
        let a = read_le_u64(p, 4 + 8 * i);
        r.push(a);
        i += 1;
    }
    r
}

impl SplitLamports {
    /// Deserializes the payload, consuming the whole slice.
    pub fn try_from_bytes(p: &[u8]) -> (r: Option<SplitLamports>)
        ensures
            match r {
                Some(s) => spec_parse_amounts(p@) == Some(s.amounts@),
                None => spec_parse_amounts(p@) is None,
            },
    {
        if p.len() < 4 {
            return None;
        }
        let n = read_le_u32(p, 0);
        if (p.len() as u64) != 4u64 + 8u64 * (n as u64) {
            return None;
        }
        let amounts = read_amounts(p, n);
        Some(SplitLamports { amounts })
    }
}

impl SplitSplTokensFromSingleMint {
    /// Deserializes the payload, consuming the whole slice.
    pub fn try_from_bytes(p: &[u8]) -> (r: Option<SplitSplTokensFromSingleMint>)
        ensures
            match r {
                Some(s) => spec_parse_amounts(p@) == Some(s.amounts@),
                None => spec_parse_amounts(p@) is None,
            },
    {
        if p.len() < 4 {
            return None;
        }
        let n = read_le_u32(p, 0);
        if (p.len() as u64) != 4u64 + 8u64 * (n as u64) {
            return None;
        }
        let amounts = read_amounts(p, n);
        Some(SplitSplTokensFromSingleMint { amounts })
    }
}

impl SplitSplTokensFromMultipleMints {
    /// Deserializes the payload, consuming the whole slice.
    pub fn try_from_bytes(p: &[u8]) -> (r: Option<SplitSplTokensFromMultipleMints>)
        ensures
            match r {
                Some(s) => spec_parse_amounts_m(p@) == Some((s.amounts@, s.m)),
                None => spec_parse_amounts_m(p@) is None,
            },
    {
        if p.len() < 4 {
            return None;
        }
        let n = read_le_u32(p, 0);
        if (p.len() as u64) != 4u64 + 8u64 * (n as u64) + 2u64 {
            return None;
        }
        let amounts = read_amounts(p, n);
        let m = read_le_u16(p, p.len() - 2);
        Some(SplitSplTokensFromMultipleMints { amounts, m })
    }
}

/// Whether the buffer opens with the given discriminator.
fn has_discriminator(data: &[u8], d: &[u8; 8]) -> (r: bool)
    requires
        data@.len() >= 8,
    ensures
        r == (data@.subrange(0, 8) == d@),
{
    let mut i: usize = 0;
    while i < 8
        invariant
            i <= 8,
            data@.len() >= 8,
            forall|j: int| 0 <= j < i ==> data@[j] == d@[j],
        decreases 8 - i,
    {
        if data[i] != d[i] {
            assert(data@.subrange(0, 8)[i as int] != d@[i as int]);
            return false;
        }
        i += 1;
    }
    proof {
        assert(data@.subrange(0, 8) =~= d@);
    }
    true
}

/// What decoding a raw buffer yields: rejection of any buffer with no room
/// for a payload, routing on the discriminator in a fixed priority order,
/// exact payload deserialization, and a distinct error for an unknown
/// discriminator. Total and deterministic.
pub open spec fn spec_unpack(data: Seq<u8>) -> Result<InstructionView, SplitterError> {
    if data.len() <= 8 {
        Err(SplitterError::MalformedInstruction)
    } else if data.subrange(0, 8) == spec_split_lamports_discriminator() {
        match spec_parse_amounts(data.skip(8)) {
            Some(amounts) => Ok(InstructionView::SplitLamports(amounts)),
            None => Err(SplitterError::MalformedInstruction),
        }
    } else if data.subrange(0, 8) == spec_split_single_mint_discriminator() {
        match spec_parse_amounts(data.skip(8)) {
            Some(amounts) => Ok(InstructionView::SplitSplTokensFromSingleMint(amounts)),
            None => Err(SplitterError::MalformedInstruction),
        }
    } else if data.subrange(0, 8) == spec_split_multiple_mints_discriminator() {
        match spec_parse_amounts_m(data.skip(8)) {
            Some(parsed) => Ok(
                InstructionView::SplitSplTokensFromMultipleMints(parsed.0, parsed.1),
            ),
            None => Err(SplitterError::MalformedInstruction),
        }
    } else {
        Err(SplitterError::UnknownCommand)
    }
}

impl SplitterInstruction {
    /// Decodes a raw instruction buffer, or rejects it: too short or an
    /// undeserializable payload is `MalformedInstruction`, a discriminator
    /// that matches no known command is `UnknownCommand`.
    pub fn unpack(ix_data: &[u8]) -> (r: Result<SplitterInstruction, SplitterError>)
        ensures
            match r {
                Ok(ix) => spec_unpack(ix_data@) == Ok::<InstructionView, SplitterError>(ix@),
                Err(e) => spec_unpack(ix_data@) == Err::<InstructionView, SplitterError>(e),
            },
    {
        if ix_data.len() <= 8 {
            return Err(SplitterError::MalformedInstruction);
        }
        let payload = slice_subrange(ix_data, 8, ix_data.len());
        proof {
            assert(payload@ =~= ix_data@.skip(8));
        }
        if has_discriminator(ix_data, &split_lamports_discriminator()) {
            match SplitLamports::try_from_bytes(payload) {
                Some(s) => Ok(SplitterInstruction::SplitLamports(s.amounts)),
                None => Err(SplitterError::MalformedInstruction),
            }
        } else if has_discriminator(ix_data, &split_single_mint_discriminator()) {
            match SplitSplTokensFromSingleMint::try_from_bytes(payload) {
                Some(s) => Ok(SplitterInstruction::SplitSplTokensFromSingleMint(s.amounts)),
                None => Err(SplitterError::MalformedInstruction),
            }
        } else if has_discriminator(ix_data, &split_multiple_mints_discriminator()) {
            match SplitSplTokensFromMultipleMints::try_from_bytes(payload) {
                Some(s) => Ok(
                    SplitterInstruction::SplitSplTokensFromMultipleMints(s.amounts, s.m),
                ),
                None => Err(SplitterError::MalformedInstruction),
            }
        } else {
            Err(SplitterError::UnknownCommand)
        }
    }

    /// The 8-byte routing prefix for a command name: the first eight bytes
    /// of the SHA-256 digest of the name's bytes.
    pub fn get_discriminator(dis: &str) -> (r: [u8; 8])
        ensures
            r@ == sha256_of(dis.spec_bytes()).subrange(0, 8),
    {
        let digest = sha256_digest(dis.as_bytes());
        let r: [u8; 8] = [
            digest[0],
            digest[1],
            digest[2],
            digest[3],
            digest[4],
            digest[5],
            digest[6],
            digest[7],
        ];
        proof {
            assert(r@ =~= sha256_of(dis.spec_bytes()).subrange(0, 8));
        }
        r
    }
}

/// The serialized bytes of an amount sequence, element after element.
pub open spec fn spec_amounts_bytes(amounts: Seq<u64>) -> Seq<u8>
    decreases amounts.len(),
{
    if amounts.len() == 0 {
        Seq::empty()
    } else {
        le_bytes_of_u64(amounts[0]) + spec_amounts_bytes(amounts.skip(1))
    }
}

/// The serialized payload of an amount sequence: count prefix, then the
/// amounts.
pub open spec fn spec_encode_amounts(amounts: Seq<u64>) -> Seq<u8> {
    le_bytes_of_u32(amounts.len() as u32) + spec_amounts_bytes(amounts)
}

/// Whether a command can be serialized: its count must fit the 32-bit
/// length prefix.
pub open spec fn spec_pack_wf(v: InstructionView) -> bool {
    match v {
        InstructionView::SplitLamports(amounts) => amounts.len() <= 0xffff_ffff,
        InstructionView::SplitSplTokensFromSingleMint(amounts) => amounts.len() <= 0xffff_ffff,
        InstructionView::SplitSplTokensFromMultipleMints(amounts, _m) => amounts.len()
            <= 0xffff_ffff,
    }
}

/// The serialized form of a command: discriminator, then the payload fields
/// in declaration order.
pub open spec fn spec_pack(v: InstructionView) -> Seq<u8> {
    match v {
        InstructionView::SplitLamports(amounts) => spec_split_lamports_discriminator()
            + spec_encode_amounts(amounts),
        InstructionView::SplitSplTokensFromSingleMint(amounts) => {
            spec_split_single_mint_discriminator() + spec_encode_amounts(amounts)
        },
        InstructionView::SplitSplTokensFromMultipleMints(amounts, m) => {
            spec_split_multiple_mints_discriminator() + spec_encode_amounts(amounts)
                + le_bytes_of_u16(m)
        },
    }
}

/// Serialized amounts occupy eight bytes each.
pub proof fn lemma_amounts_bytes_len(amounts: Seq<u64>)
    ensures
        spec_amounts_bytes(amounts).len() == 8 * amounts.len(),
    decreases amounts.len(),
{
    if amounts.len() > 0 {
        lemma_amounts_bytes_len(amounts.skip(1));
    }
}

/// Amount `i` occupies bytes `8 i` to `8 i + 8` of the serialized sequence.
proof fn lemma_amounts_bytes_index(amounts: Seq<u64>, i: int)
    requires
        0 <= i < amounts.len(),
    ensures
        spec_amounts_bytes(amounts).subrange(8 * i, 8 * i + 8) == le_bytes_of_u64(amounts[i]),
    decreases i,
{
    lemma_amounts_bytes_len(amounts);
    lemma_amounts_bytes_len(amounts.skip(1));
    if i == 0 {
        assert(spec_amounts_bytes(amounts).subrange(0, 8) =~= le_bytes_of_u64(amounts[0]));
    } else {
        lemma_amounts_bytes_index(amounts.skip(1), i - 1);
        assert(spec_amounts_bytes(amounts).subrange(8 * i, 8 * i + 8) =~= spec_amounts_bytes(
            amounts.skip(1),
        ).subrange(8 * (i - 1), 8 * (i - 1) + 8));
    }
}

/// Appending one amount appends its eight bytes.
proof fn lemma_amounts_bytes_push(amounts: Seq<u64>, x: u64)
    ensures
        spec_amounts_bytes(amounts.push(x)) == spec_amounts_bytes(amounts) + le_bytes_of_u64(x),
    decreases amounts.len(),
{
    if amounts.len() == 0 {
        assert(amounts =~= Seq::<u64>::empty());
        assert(amounts.push(x).skip(1) =~= Seq::<u64>::empty());
        assert(spec_amounts_bytes(Seq::<u64>::empty()) == Seq::<u8>::empty());
        assert(amounts.push(x)[0] == x);
        assert(spec_amounts_bytes(amounts.push(x)) =~= spec_amounts_bytes(amounts)
            + le_bytes_of_u64(x));
    } else {
        assert(amounts.push(x).skip(1) =~= amounts.skip(1).push(x));
        lemma_amounts_bytes_push(amounts.skip(1), x);
        assert(spec_amounts_bytes(amounts.push(x)) =~= spec_amounts_bytes(amounts)
            + le_bytes_of_u64(x));
    }
}

/// Parsing an encoded amount sequence yields the sequence back.
pub proof fn lemma_parse_encode_amounts(amounts: Seq<u64>)
    requires
        amounts.len() <= 0xffff_ffff,
    ensures
        spec_parse_amounts(spec_encode_amounts(amounts)) == Some(amounts),
{
    let p = spec_encode_amounts(amounts);
    lemma_amounts_bytes_len(amounts);
    assert(p.subrange(0, 4) =~= le_bytes_of_u32(amounts.len() as u32));
    lemma_le_u32_roundtrip(amounts.len() as u32);
    let n = le_val(p.subrange(0, 4));
    assert(n == amounts.len());
    assert(p.len() == 4 + 8 * n);
    let parsed = Seq::new(n as nat, |i: int| le_val(p.subrange(4 + 8 * i, 12 + 8 * i)) as u64);
    assert forall|i: int| 0 <= i < amounts.len() implies parsed[i] == amounts[i] by {
        assert(p.subrange(4 + 8 * i, 12 + 8 * i) =~= spec_amounts_bytes(amounts).subrange(
            8 * i,
            8 * i + 8,
        ));
        lemma_amounts_bytes_index(amounts, i);
        lemma_le_u64_roundtrip(amounts[i]);
    };
    assert(parsed =~= amounts);
}

/// Parsing an encoded amount sequence followed by the pair count yields
/// both back.
pub proof fn lemma_parse_encode_amounts_m(amounts: Seq<u64>, m: u16)
    requires
        amounts.len() <= 0xffff_ffff,
    ensures
        spec_parse_amounts_m(spec_encode_amounts(amounts) + le_bytes_of_u16(m)) == Some(
            (amounts, m),
        ),
{
    let p = spec_encode_amounts(amounts) + le_bytes_of_u16(m);
    lemma_amounts_bytes_len(amounts);
    assert(p.subrange(0, 4) =~= le_bytes_of_u32(amounts.len() as u32));
    lemma_le_u32_roundtrip(amounts.len() as u32);
    let n = le_val(p.subrange(0, 4));
    assert(n == amounts.len());
    assert(p.len() == 4 + 8 * n + 2);
    assert(p.subrange(p.len() - 2, p.len() as int) =~= le_bytes_of_u16(m));
    lemma_le_u16_roundtrip(m);
    let parsed = Seq::new(n as nat, |i: int| le_val(p.subrange(4 + 8 * i, 12 + 8 * i)) as u64);
    assert forall|i: int| 0 <= i < amounts.len() implies parsed[i] == amounts[i] by {
        assert(p.subrange(4 + 8 * i, 12 + 8 * i) =~= spec_amounts_bytes(amounts).subrange(
            8 * i,
            8 * i + 8,
        ));
        lemma_amounts_bytes_index(amounts, i);
        lemma_le_u64_roundtrip(amounts[i]);
    };
    assert(parsed =~= amounts);
}

/// Law: packing a command and decoding the bytes yields the command back.
/// The three discriminators differ already in their first byte, so the
/// decoder's priority order cannot confuse two commands.
pub proof fn lemma_unpack_pack_roundtrip(v: InstructionView)
    requires
        spec_pack_wf(v),
    ensures
        spec_unpack(spec_pack(v)) == Ok::<InstructionView, SplitterError>(v),
{
    let data = spec_pack(v);
    match v {
        InstructionView::SplitLamports(amounts) => {
            lemma_amounts_bytes_len(amounts);
            assert(data.subrange(0, 8) =~= spec_split_lamports_discriminator());
            assert(data.skip(8) =~= spec_encode_amounts(amounts));
            lemma_parse_encode_amounts(amounts);
        },
        InstructionView::SplitSplTokensFromSingleMint(amounts) => {
            lemma_amounts_bytes_len(amounts);
            assert(data.subrange(0, 8) =~= spec_split_single_mint_discriminator());
            assert(spec_split_single_mint_discriminator()[0]
                != spec_split_lamports_discriminator()[0]);
            assert(data.skip(8) =~= spec_encode_amounts(amounts));
            lemma_parse_encode_amounts(amounts);
        },
        InstructionView::SplitSplTokensFromMultipleMints(amounts, m) => {
            lemma_amounts_bytes_len(amounts);
            assert(data.subrange(0, 8) =~= spec_split_multiple_mints_discriminator());
            assert(spec_split_multiple_mints_discriminator()[0]
                != spec_split_lamports_discriminator()[0]);
            assert(spec_split_multiple_mints_discriminator()[0]
                != spec_split_single_mint_discriminator()[0]);
            assert(data.skip(8) =~= spec_encode_amounts(amounts) + le_bytes_of_u16(m));
            lemma_parse_encode_amounts_m(amounts, m);
        },
    }
}

/// Appends the eight discriminator bytes to `out`.
fn push_discriminator(out: &mut Vec<u8>, d: &[u8; 8])
    ensures
        final(out)@ == old(out)@ + d@,
{
    let mut i: usize = 0;
    while i < 8
        invariant
            i <= 8,
            out@ == old(out)@ + d@.subrange(0, i as int),
        decreases 8 - i,
    {
        out.push(d[i]);
        proof {
            assert(old(out)@ + d@.subrange(0, i + 1) =~= (old(out)@ + d@.subrange(0, i as int)).push(
                d@[i as int],
            ));
        }
        i += 1;
    }
    proof {
        assert(d@.subrange(0, 8) =~= d@);
    }
}

/// Appends the encoded amount sequence to `out`: count prefix, then the
/// amounts.
fn write_amounts(out: &mut Vec<u8>, amounts: &Vec<u64>)
    requires
        amounts@.len() <= 0xffff_ffff,
    ensures
        final(out)@ == old(out)@ + spec_encode_amounts(amounts@),
{
    write_le_u32(out, amounts.len() as u32);
    let mut i: usize = 0;
    while i < amounts.len()
        invariant
            i <= amounts@.len(),
            amounts@.len() <= 0xffff_ffff,
            out@ == old(out)@ + le_bytes_of_u32(amounts@.len() as u32) + spec_amounts_bytes(
                amounts@.take(i as int),
            ),
        decreases amounts@.len() - i,
    {
        write_le_u64(out, amounts[i]);
        proof {
            assert(amounts@.take(i + 1) =~= amounts@.take(i as int).push(amounts@[i as int]));
            lemma_amounts_bytes_push(amounts@.take(i as int), amounts@[i as int]);
        }
        i += 1;
    }
    proof {
        assert(amounts@.take(amounts@.len() as int) =~= amounts@);
        assert(old(out)@ + le_bytes_of_u32(amounts@.len() as u32) + spec_amounts_bytes(amounts@)
            =~= old(out)@ + spec_encode_amounts(amounts@));
    }
}

impl SplitterInstruction {
    /// Serializes the command: discriminator, then the payload fields in
    /// declaration order.
    pub fn pack(&self) -> (r: Vec<u8>)
        requires
            spec_pack_wf(self@),
        ensures
            r@ == spec_pack(self@),
    {
        let mut out: Vec<u8> = Vec::new();
        match self {
            SplitterInstruction::SplitLamports(amounts) => {
                let d = split_lamports_discriminator();
                push_discriminator(&mut out, &d);
                write_amounts(&mut out, amounts);
                proof {
                    assert(out@ =~= spec_pack(self@));
                }
            },
            SplitterInstruction::SplitSplTokensFromSingleMint(amounts) => {
                let d = split_single_mint_discriminator();
                push_discriminator(&mut out, &d);
                write_amounts(&mut out, amounts);
                proof {
                    assert(out@ =~= spec_pack(self@));
                }
            },
            SplitterInstruction::SplitSplTokensFromMultipleMints(amounts, m) => {
                let d = split_multiple_mints_discriminator();
                push_discriminator(&mut out, &d);
                write_amounts(&mut out, amounts);
                write_le_u16(&mut out, *m);
                proof {
                    assert(out@ =~= spec_pack(self@));
                }
            },
        }
        out
    }
}

} // verus!
