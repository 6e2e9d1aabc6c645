//! Decoder tests: buffer layout, routing, rejection, and the round trip
//! between `pack` and `unpack`, plus the discriminators against the real
//! hashing capability.

use splitter::error::SplitterError;
use splitter::instruction::SplitLamports;
use splitter::instruction::SplitSplTokensFromMultipleMints;
use splitter::instruction::SplitSplTokensFromSingleMint;
use splitter::instruction::SplitterInstruction;
use splitter::instruction::SPLIT_LAMPORTS_NAME;
use splitter::instruction::SPLIT_MULTIPLE_MINTS_NAME;
use splitter::instruction::SPLIT_SINGLE_MINT_NAME;
use splitter::instruction::split_lamports_discriminator;
use splitter::instruction::split_multiple_mints_discriminator;
use splitter::instruction::split_single_mint_discriminator;

fn lamports_buffer(amounts: &[u64]) -> Vec<u8> {
    SplitterInstruction::SplitLamports(amounts.to_vec()).pack()
}

#[test]
fn discriminators_match_the_hash() {
    // the fixed routing prefixes are exactly what the hashing capability
    // computes from the command names
    assert_eq!(
        SplitterInstruction::get_discriminator(SPLIT_LAMPORTS_NAME),
        split_lamports_discriminator()
    );
    assert_eq!(
        SplitterInstruction::get_discriminator(SPLIT_SINGLE_MINT_NAME),
        split_single_mint_discriminator()
    );
    assert_eq!(
        SplitterInstruction::get_discriminator(SPLIT_MULTIPLE_MINTS_NAME),
        split_multiple_mints_discriminator()
    );
}

#[test]
fn pack_split_lamports_exact_bytes() {
    let buffer = lamports_buffer(&[1, 2]);
    let mut expected: Vec<u8> = vec![0x39, 0xa2, 0x88, 0x6d, 0xad, 0x3b, 0xcb, 0xf4];
    expected.extend_from_slice(&[2, 0, 0, 0]);
    expected.extend_from_slice(&[1, 0, 0, 0, 0, 0, 0, 0]);
    expected.extend_from_slice(&[2, 0, 0, 0, 0, 0, 0, 0]);
    assert_eq!(buffer, expected);
}

#[test]
fn pack_multiple_mints_appends_m_last() {
    let buffer = SplitterInstruction::SplitSplTokensFromMultipleMints(vec![0x0102], 0x0304).pack();
    let mut expected: Vec<u8> = vec![0x8b, 0xb6, 0xd4, 0xb9, 0x66, 0x45, 0x4f, 0xa6];
    expected.extend_from_slice(&[1, 0, 0, 0]);
    expected.extend_from_slice(&[0x02, 0x01, 0, 0, 0, 0, 0, 0]);
    expected.extend_from_slice(&[0x04, 0x03]);
    assert_eq!(buffer, expected);
}

#[test]
fn unpack_round_trips_all_variants() {
    let buffer = lamports_buffer(&[1_100_000_000, 1_200_000_000, 1_300_000_000]);
    match SplitterInstruction::unpack(&buffer) {
        Ok(SplitterInstruction::SplitLamports(amounts)) => {
            assert_eq!(amounts, vec![1_100_000_000, 1_200_000_000, 1_300_000_000]);
        }
        other => panic!("expected SplitLamports, got {:?}", other),
    }

    let buffer = SplitterInstruction::SplitSplTokensFromSingleMint(vec![1000, 2000]).pack();
    match SplitterInstruction::unpack(&buffer) {
        Ok(SplitterInstruction::SplitSplTokensFromSingleMint(amounts)) => {
            assert_eq!(amounts, vec![1000, 2000]);
        }
        other => panic!("expected SplitSplTokensFromSingleMint, got {:?}", other),
    }

    let buffer = SplitterInstruction::SplitSplTokensFromMultipleMints(vec![100_000, 5_000], 2).pack();
    match SplitterInstruction::unpack(&buffer) {
        Ok(SplitterInstruction::SplitSplTokensFromMultipleMints(amounts, m)) => {
            assert_eq!(amounts, vec![100_000, 5_000]);
            assert_eq!(m, 2);
        }
        other => panic!("expected SplitSplTokensFromMultipleMints, got {:?}", other),
    }
}

#[test]
fn unpack_round_trips_empty_amounts() {
    let buffer = lamports_buffer(&[]);
    match SplitterInstruction::unpack(&buffer) {
        Ok(SplitterInstruction::SplitLamports(amounts)) => assert_eq!(amounts, Vec::<u64>::new()),
        other => panic!("expected SplitLamports, got {:?}", other),
    }
}

#[test]
fn unpack_rejects_short_buffers() {
    assert_eq!(
        SplitterInstruction::unpack(&[]),
        Err(SplitterError::MalformedInstruction)
    );
    // exactly eight bytes leaves no room for a payload, even with a valid
    // discriminator
    let buffer = split_lamports_discriminator().to_vec();
    assert_eq!(
        SplitterInstruction::unpack(&buffer),
        Err(SplitterError::MalformedInstruction)
    );
}

#[test]
fn unpack_rejects_unknown_discriminator() {
    let mut buffer: Vec<u8> = vec![0xff; 8];
    buffer.extend_from_slice(&[0, 0, 0, 0]);
    assert_eq!(
        SplitterInstruction::unpack(&buffer),
        Err(SplitterError::UnknownCommand)
    );
}

#[test]
fn unpack_rejects_malformed_payload() {
    // count says two amounts but only one follows
    let mut buffer = split_lamports_discriminator().to_vec();
    buffer.extend_from_slice(&[2, 0, 0, 0]);
    buffer.extend_from_slice(&[1, 0, 0, 0, 0, 0, 0, 0]);
    assert_eq!(
        SplitterInstruction::unpack(&buffer),
        Err(SplitterError::MalformedInstruction)
    );
    // trailing garbage after a complete payload is rejected too
    let mut buffer = lamports_buffer(&[7]);
    buffer.push(0);
    assert_eq!(
        SplitterInstruction::unpack(&buffer),
        Err(SplitterError::MalformedInstruction)
    );
    // the multi-mint payload must end in the two bytes of m
    let mut buffer = split_multiple_mints_discriminator().to_vec();
    buffer.extend_from_slice(&[1, 0, 0, 0]);
    buffer.extend_from_slice(&[9, 0, 0, 0, 0, 0, 0, 0]);
    assert_eq!(
        SplitterInstruction::unpack(&buffer),
        Err(SplitterError::MalformedInstruction)
    );
}

#[test]
fn payload_parsers_consume_the_whole_slice() {
    let payload: Vec<u8> = vec![1, 0, 0, 0, 5, 0, 0, 0, 0, 0, 0, 0];
    let parsed = SplitLamports::try_from_bytes(&payload).unwrap();
    assert_eq!(parsed.amounts, vec![5]);
    let parsed = SplitSplTokensFromSingleMint::try_from_bytes(&payload).unwrap();
    assert_eq!(parsed.amounts, vec![5]);
    assert!(SplitSplTokensFromMultipleMints::try_from_bytes(&payload).is_none());

    let mut with_m = payload.clone();
    with_m.extend_from_slice(&[3, 0]);
    let parsed = SplitSplTokensFromMultipleMints::try_from_bytes(&with_m).unwrap();
    assert_eq!(parsed.amounts, vec![5]);
    assert_eq!(parsed.m, 3);
    assert!(SplitLamports::try_from_bytes(&with_m).is_none());
}

#[test]
fn error_codes_are_stable() {
    assert_eq!(SplitterError::InvalidMParameter(1, 4, 6).error_code(), 0);
    assert_eq!(SplitterError::MalformedInstruction.error_code(), 1);
    assert_eq!(SplitterError::UnknownCommand.error_code(), 2);
    assert_eq!(SplitterError::AccountUnderflow.error_code(), 3);
    assert_eq!(SplitterError::AmountCountExceedsM.error_code(), 4);
}
