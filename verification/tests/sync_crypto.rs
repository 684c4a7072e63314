use rustty_core::sync::crypto::{
    decrypt, decrypt_result, encrypt, encrypt_result, DecryptFailure, EncryptFailure, BAD_PASSPHRASE_MARKER,
};

#[test]
fn cifrado_ida_y_vuelta() {
    let plain = br#"{"version":1,"items":{"prefs:bundle":{"theme":"dark"}}}"#;
    let c = encrypt("clave-123", plain).expect("cifra");
    assert!(c.starts_with(b"age-encryption.org/v1\n"));
    assert_ne!(&c[..], &plain[..]);
    assert_eq!(decrypt("clave-123", &c).expect("descifra"), plain.to_vec());
}

#[test]
fn passphrase_incorrecta_lleva_el_marcador() {
    let c = encrypt("clave-123", b"secreto").expect("cifra");
    let e = decrypt("clave-mala", &c).unwrap_err();
    assert!(e.starts_with(BAD_PASSPHRASE_MARKER), "{e}");
    assert!(e.starts_with("sync-passphrase: passphrase incorrecta o datos corruptos: "), "{e}");
}

#[test]
fn ciphertext_truncado_es_error_sin_panico() {
    let c = encrypt("clave-123", &[7u8; 4096]).expect("cifra");
    let e = decrypt("clave-123", &c[..c.len() / 2]).unwrap_err();
    assert!(!e.is_empty());
}

#[test]
fn bytes_que_no_son_age() {
    let e = decrypt("clave-123", b"esto no es un fichero age").unwrap_err();
    assert!(e.starts_with("decryptor: "), "{e}");
    assert!(!e.starts_with(BAD_PASSPHRASE_MARKER));
}

#[test]
fn textos_de_error_por_etapa() {
    assert_eq!(decrypt_result(Ok(vec![1, 2])), Ok(vec![1, 2]));
    assert_eq!(decrypt_result(Err(DecryptFailure::Header("x".into()))), Err("decryptor: x".to_string()));
    assert_eq!(
        decrypt_result(Err(DecryptFailure::Key("y".into()))),
        Err("sync-passphrase: passphrase incorrecta o datos corruptos: y".to_string())
    );
    assert_eq!(decrypt_result(Err(DecryptFailure::Payload("z".into()))), Err("read decrypted: z".to_string()));
    assert_eq!(encrypt_result(Ok(vec![3])), Ok(vec![3]));
    assert_eq!(encrypt_result(Err(EncryptFailure::Wrap("a".into()))), Err("wrap_output: a".to_string()));
    assert_eq!(encrypt_result(Err(EncryptFailure::Write("b".into()))), Err("write encrypted: b".to_string()));
    assert_eq!(encrypt_result(Err(EncryptFailure::Finish("c".into()))), Err("finish encryptor: c".to_string()));
}
