use workflow_engine::sys_time::{
    create_nonce, extract_time, midpoint_to_timestamp, read_u32_le, read_u64_le, DelegationCheck, ParsedResponse,
    TimeError,
};

fn check(mint: u64, maxt: u64) -> DelegationCheck {
    DelegationCheck { dele_signature_ok: true, srep_signature_ok: true, nonce_in_tree: true, mint, maxt }
}

#[test]
fn nonce_is_zero() {
    assert_eq!(create_nonce(), [0u8; 64]);
}

#[test]
fn little_endian_reads() {
    assert_eq!(read_u64_le(&[1, 2, 3, 4, 5, 6, 7, 8, 9]), Some(0x0807060504030201));
    assert_eq!(read_u64_le(&[0xff; 8]), Some(u64::MAX));
    assert_eq!(read_u64_le(&[1, 2, 3]), None);
    assert_eq!(read_u32_le(&[0x10, 0x27, 0, 0]), Some(10000));
    assert_eq!(read_u32_le(&[1]), None);
}

#[test]
fn extract_time_checks_in_order() {
    let midp = 1_500_000u64.to_le_bytes();
    let radi = 1_000_000u32.to_le_bytes();
    assert_eq!(
        extract_time(&midp, &radi, None),
        Ok(ParsedResponse { verified: false, midpoint: 1_500_000, radius: 1_000_000 })
    );
    assert_eq!(
        extract_time(&midp, &radi, Some(check(1_000_000, 2_000_000))),
        Ok(ParsedResponse { verified: true, midpoint: 1_500_000, radius: 1_000_000 })
    );
    assert_eq!(extract_time(&midp, &radi, Some(check(1_600_000, 2_000_000))), Err(TimeError::MidpointBeforeSpan));
    assert_eq!(extract_time(&midp, &radi, Some(check(0, 1_400_000))), Err(TimeError::MidpointAfterSpan));
    let mut bad = check(0, 2_000_000);
    bad.nonce_in_tree = false;
    assert_eq!(extract_time(&midp, &radi, Some(bad)), Err(TimeError::NonceNotInTree));
    bad.srep_signature_ok = false;
    assert_eq!(extract_time(&midp, &radi, Some(bad)), Err(TimeError::InvalidSrepSignature));
    bad.dele_signature_ok = false;
    assert_eq!(extract_time(&midp, &radi, Some(bad)), Err(TimeError::InvalidDeleSignature));
    assert_eq!(extract_time(&midp[..7], &radi, None), Err(TimeError::Truncated));
}

#[test]
fn midpoint_splits_into_seconds_and_nanos() {
    assert_eq!(midpoint_to_timestamp(1_234_567_891), (1234, 567_891_000));
    assert_eq!(midpoint_to_timestamp(999_999), (0, 999_999_000));
    assert_eq!(midpoint_to_timestamp(u64::MAX), (18_446_744_073_709, 551_615_000));
}
