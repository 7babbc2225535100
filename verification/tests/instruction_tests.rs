//! Tests of the instruction surface: discriminators and dispatch parsing.

use spool::error::SpoolError;
use spool::instructions::{parse_instruction, InstructionKind, UnpackArgs, UpdateArgs};

#[test]
fn discriminators_follow_the_component_groups() {
    assert_eq!(InstructionKind::Initialize.discriminator(), 0x00);
    assert_eq!(InstructionKind::SpoolCreate.discriminator(), 0x10);
    assert_eq!(InstructionKind::SpoolWrite.discriminator(), 0x11);
    assert_eq!(InstructionKind::SpoolUpdate.discriminator(), 0x12);
    assert_eq!(InstructionKind::SpoolFinalize.discriminator(), 0x13);
    assert_eq!(InstructionKind::SpoolSetHeader.discriminator(), 0x14);
    assert_eq!(InstructionKind::SpoolSubsidize.discriminator(), 0x15);
    assert_eq!(InstructionKind::MinerRegister.discriminator(), 0x20);
    assert_eq!(InstructionKind::MinerMine.discriminator(), 0x22);
    assert_eq!(InstructionKind::ReelCreate.discriminator(), 0x40);
    assert_eq!(InstructionKind::ReelCommit.discriminator(), 0x44);
}

#[test]
fn parse_instruction_splits_kind_and_payload() {
    let data = [0x22u8, 1, 2, 3];
    let (kind, payload) = parse_instruction(&data).unwrap();
    assert_eq!(kind, InstructionKind::MinerMine);
    assert_eq!(payload, &[1, 2, 3]);

    let kinds = [
        InstructionKind::Initialize,
        InstructionKind::SpoolCreate,
        InstructionKind::SpoolWrite,
        InstructionKind::SpoolUpdate,
        InstructionKind::SpoolFinalize,
        InstructionKind::SpoolSetHeader,
        InstructionKind::SpoolSubsidize,
        InstructionKind::MinerRegister,
        InstructionKind::MinerUnregister,
        InstructionKind::MinerMine,
        InstructionKind::MinerClaim,
        InstructionKind::ReelCreate,
        InstructionKind::ReelDestroy,
        InstructionKind::ReelPack,
        InstructionKind::ReelUnpack,
        InstructionKind::ReelCommit,
    ];
    for k in kinds {
        let bytes = [k.discriminator()];
        let (back, rest) = parse_instruction(&bytes).unwrap();
        assert_eq!(back, k);
        assert!(rest.is_empty());
    }

    assert_eq!(parse_instruction(&[]).unwrap_err(), SpoolError::UnknownError);
    assert_eq!(parse_instruction(&[0xFFu8]).unwrap_err(), SpoolError::UnknownError);
    assert_eq!(SpoolError::UnknownError.code(), 0);
}

#[test]
fn unpack_args_round_trip() {
    let mut proof = [[0u8; 32]; 18];
    for (i, p) in proof.iter_mut().enumerate() {
        p[0] = i as u8;
        p[31] = 0xBB;
    }
    let a = UnpackArgs { index: 7, proof, value: [9u8; 32] };
    let bytes = a.to_bytes();
    assert_eq!(bytes.len(), 616);
    assert_eq!(&bytes[0..8], &7u64.to_le_bytes());
    assert_eq!(&bytes[8..40], &proof[0]);
    assert_eq!(&bytes[584..616], &[9u8; 32]);
    let back = UnpackArgs::from_bytes(&bytes).unwrap();
    assert_eq!(back.index, 7);
    assert_eq!(back.proof, proof);
    assert_eq!(back.value, [9u8; 32]);
    assert!(UnpackArgs::from_bytes(&bytes[1..]).is_none());
}

#[test]
fn update_args_round_trip() {
    let mut proof = [[0u8; 32]; 18];
    for (i, p) in proof.iter_mut().enumerate() {
        p[1] = i as u8;
    }
    let a = UpdateArgs {
        segment_number: 3,
        old_data: [1u8; 128],
        new_data: [2u8; 128],
        proof,
    };
    let bytes = a.to_bytes();
    assert_eq!(bytes.len(), 840);
    assert_eq!(&bytes[0..8], &3u64.to_le_bytes());
    assert_eq!(&bytes[8..136], &[1u8; 128]);
    assert_eq!(&bytes[136..264], &[2u8; 128]);
    let back = UpdateArgs::from_bytes(&bytes).unwrap();
    assert_eq!(back.segment_number, 3);
    assert_eq!(back.old_data, [1u8; 128]);
    assert_eq!(back.new_data, [2u8; 128]);
    assert_eq!(back.proof, proof);
    assert!(UpdateArgs::from_bytes(&bytes[..839]).is_none());
}
