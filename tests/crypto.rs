use workflow_engine::crypto::{
    crypto_insecure_buffer, crypto_insecure_buffer_from_bytes, crypto_secure_buffer,
    danger_crypto_secure_buffer_from_bytes, CryptoError,
};

#[test]
fn insecure_buffer_is_zeroed() {
    let b = crypto_insecure_buffer(4).unwrap();
    assert_eq!(b.read(), vec![0, 0, 0, 0]);
    assert!(!b.secure());
    assert_eq!(crypto_insecure_buffer(0).unwrap().len(), 0);
}

#[test]
fn buffers_from_bytes_copy_them() {
    let b = crypto_insecure_buffer_from_bytes(&[1, 2, 3]).unwrap();
    assert_eq!(b.read(), vec![1, 2, 3]);
    assert!(!b.secure());
    let s = danger_crypto_secure_buffer_from_bytes(&[4, 5]).unwrap();
    assert_eq!(s.read(), vec![4, 5]);
    assert!(s.secure());
}

#[test]
fn copy_from_checks_bounds() {
    let mut b = crypto_secure_buffer(4).unwrap();
    assert!(b.secure());
    assert_eq!(b.copy_from(1, &[9, 9]), Ok(()));
    assert_eq!(b.read(), vec![0, 9, 9, 0]);
    assert_eq!(b.copy_from(3, &[1, 1]), Err(CryptoError::OutOfBounds));
    assert_eq!(b.copy_from(5, &[]), Err(CryptoError::OutOfBounds));
    assert_eq!(b.read(), vec![0, 9, 9, 0]);
}
