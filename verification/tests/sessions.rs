use rustty_core::sessions::{not_found_message, CloseCommand, SshSessions};

#[test]
fn registro_de_sesiones_y_shells_extra() {
    let mut reg: SshSessions<u32> = SshSessions::new();
    assert!(reg.insert("s1".into(), 7, None).is_none());
    assert!(reg.insert("sh-1".into(), 7, Some("sh-1".into())).is_none());
    assert!(reg.insert("s2".into(), 9, None).is_none());
    assert_eq!(reg.get("sh-1").map(|e| (e.handle, e.shell.clone())), Some((7, Some("sh-1".to_string()))));
    assert!(reg.get("otra").is_none());

    assert_eq!(reg.disconnect("sh-1"), Some((7, CloseCommand::CloseShell("sh-1".into()))));
    assert!(reg.get("sh-1").is_none());
    assert_eq!(reg.disconnect("sh-1"), None);

    let old = reg.insert("s2".into(), 11, None).unwrap();
    assert_eq!(old.handle, 9);
    assert_eq!(reg.disconnect_all(), vec![(7, CloseCommand::Disconnect), (11, CloseCommand::Disconnect)]);
    assert!(reg.get("s1").is_none());
}

#[test]
fn sesion_no_encontrada() {
    assert_eq!(not_found_message("abc"), "Sesión SSH abc no encontrada");
}
