use rustty_core::subst::redact::{redact_secrets, REDACTED};

#[test]
fn redacta_valor_presente() {
    let secretos = vec!["s3cr3t".to_string()];
    assert_eq!(redact_secrets("clave=s3cr3t fin", &secretos), "clave=•••• fin");
}

#[test]
fn redacta_multiples_apariciones() {
    let secretos = vec!["abc".to_string()];
    assert_eq!(redact_secrets("abc-abc-abc", &secretos), "••••-••••-••••");
}

#[test]
fn redacta_varios_valores() {
    let secretos = vec!["pass1".to_string(), "pass2".to_string()];
    assert_eq!(redact_secrets("user pass1 y pass2", &secretos), "user •••• y ••••");
}

#[test]
fn ignora_valores_vacios() {
    let secretos = vec!["".to_string()];
    assert_eq!(redact_secrets("hola mundo", &secretos), "hola mundo");
}

#[test]
fn sin_aparicion_no_altera() {
    let secretos = vec!["noexiste".to_string()];
    assert_eq!(redact_secrets("texto limpio", &secretos), "texto limpio");
}

#[test]
fn lista_vacia_devuelve_igual() {
    assert_eq!(redact_secrets("texto", &[]), "texto");
}

#[test]
fn no_revela_longitud() {
    let corto = redact_secrets("x=ab", &["ab".to_string()]);
    let largo = redact_secrets("x=abcdefghij", &["abcdefghij".to_string()]);
    assert_eq!(corto, "x=••••");
    assert_eq!(largo, "x=••••");
}

#[test]
fn error_de_conexion_simulado_no_filtra() {
    let password = "MiClaveSuperSecreta".to_string();
    let mensaje = format!("Autenticación fallida para ada con clave {password}");
    let redactado = redact_secrets(&mensaje, &[password.clone()]);
    assert!(!redactado.contains(&password));
    assert!(redactado.contains("••••"));
}

#[test]
fn overlapping_occurrences_scan_left_to_right() {
    assert_eq!(redact_secrets("aaa", &["aa".to_string()]), "••••a");
    assert_eq!(REDACTED, "••••");
    // Masking one value never brings back another.
    let out = redact_secrets("xaby", &["ab".to_string(), "xy".to_string()]);
    assert_eq!(out, "x••••y");
}
