use rustty_core::ssh::{connect_retry, ConnectRetry};
use rustty_core::ssh::{kill_command, OutputBuffer, SSH_DATA_FLUSH_THRESHOLD};
use rustty_core::ssh::{Reconnect, ReconnectStep, SessionEnd};
use rustty_core::ssh::{plan_tunnel_start, started_tunnel_info, SshTunnelConfig, SshTunnelType, TunnelStart};
use rustty_core::ssh::{
    backoff_delay_secs, kill_outcome, legacy_catalog_info, legacy_selection, parse_jump_spec,
    sanitize_filename, session_log_file_name, x11_cookie_from_nonce,
};

#[test]
fn parse_jump_spec_basico_y_puerto() {
    assert_eq!(parse_jump_spec("host", "yo"), ("yo".into(), "host".into(), 22));
    assert_eq!(
        parse_jump_spec("admin@host:2222", "yo"),
        ("admin".into(), "host".into(), 2222)
    );
}

#[test]
fn parse_jump_spec_ipv6() {
    assert_eq!(parse_jump_spec("fe80::1", "yo"), ("yo".into(), "fe80::1".into(), 22));
    assert_eq!(parse_jump_spec("[::1]:2222", "yo"), ("yo".into(), "::1".into(), 2222));
    assert_eq!(
        parse_jump_spec("user@[fe80::1]", "yo"),
        ("user".into(), "fe80::1".into(), 22)
    );
}

#[test]
fn parse_jump_spec_edge_cases() {
    assert_eq!(parse_jump_spec("  a@b:99999 ", "yo"), ("a".into(), "b".into(), 22));
    assert_eq!(parse_jump_spec("b:+80", "yo"), ("yo".into(), "b".into(), 80));
    assert_eq!(parse_jump_spec("[::1", "yo"), ("yo".into(), "[::1".into(), 22));
    assert_eq!(parse_jump_spec("[::1]x", "yo"), ("yo".into(), "::1".into(), 22));
    assert_eq!(parse_jump_spec("a@b@c", "yo"), ("a".into(), "b@c".into(), 22));
}

#[test]
fn legacy_catalog_info_matches_catalog() {
    let info = legacy_catalog_info();
    let expected = [
        ("aes256-cbc", "cipher"),
        ("aes192-cbc", "cipher"),
        ("aes128-cbc", "cipher"),
        ("3des-cbc", "cipher"),
        ("diffie-hellman-group-exchange-sha1", "kex"),
        ("diffie-hellman-group14-sha1", "kex"),
        ("diffie-hellman-group1-sha1", "kex"),
        ("hmac-sha1", "mac"),
        ("hmac-sha1-etm@openssh.com", "mac"),
        ("ssh-rsa", "hostkey"),
    ];
    assert_eq!(info.len(), expected.len());
    for (pair, entry) in info.iter().zip(expected.iter()) {
        assert_eq!(pair.0, entry.0);
        assert_eq!(pair.1, entry.1);
    }
    let mut ids: Vec<_> = info.iter().map(|(id, _)| id.clone()).collect();
    ids.sort();
    ids.dedup();
    assert_eq!(ids.len(), info.len());
}

#[test]
fn legacy_selection_splits_the_catalog() {
    let (inc, exc) = legacy_selection(None);
    assert_eq!(inc.len(), 10);
    assert!(exc.is_empty());
    let sel = vec!["hmac-sha1".to_string(), "no-existe".to_string()];
    let (inc, exc) = legacy_selection(Some(&sel));
    assert_eq!(inc, vec!["hmac-sha1".to_string()]);
    assert_eq!(exc.len(), 9);
    assert!(exc.contains(&"ssh-rsa".to_string()));
    assert!(!exc.contains(&"hmac-sha1".to_string()));
}

#[test]
fn log_names_are_sanitised() {
    assert_eq!(sanitize_filename("Mi servidor/prod #1"), "Mi_servidor_prod__1");
    assert_eq!(sanitize_filename("ok-name_2"), "ok-name_2");
    assert_eq!(sanitize_filename("año"), "a_o");
    assert_eq!(
        session_log_file_name("web 1", "20260101T000000Z"),
        "web_1-20260101T000000Z.log"
    );
}

#[test]
fn backoff_doubles_up_to_thirty_two_seconds() {
    let got: Vec<u64> = (0..8).map(backoff_delay_secs).collect();
    assert_eq!(got, vec![1, 2, 4, 8, 16, 32, 32, 32]);
    assert_eq!(backoff_delay_secs(u32::MAX), 32);
}

#[test]
fn x11_cookie_is_the_hex_of_half_a_sha256() {
    assert_eq!(x11_cookie_from_nonce(b""), "e3b0c44298fc1c149afbf4c8996fb924");
    assert_eq!(x11_cookie_from_nonce(b"abc"), "ba7816bf8f01cfea414140de5dae2223");
}

#[test]
fn tunnel_configurations_are_checked_in_order() {
    let base = SshTunnelConfig {
        id: None,
        name: Some("web".into()),
        tunnel_type: SshTunnelType::Local,
        bind_host: Some("  ".into()),
        local_port: 8080,
        remote_host: Some("db".into()),
        remote_port: Some(5432),
    };
    let active = vec!["t-1".to_string()];
    let start = plan_tunnel_start(&base, "nuevo", &active).unwrap();
    assert_eq!(start, TunnelStart::Listen { id: "nuevo".into(), bind_host: "127.0.0.1".into() });
    let info = started_tunnel_info(&base, &start, 8080, 0);
    assert_eq!(info.id, "nuevo");
    assert_eq!(info.status, "running");
    assert_eq!(info.remote_port, Some(5432));

    let mut dup = base.clone();
    dup.id = Some("t-1".into());
    assert_eq!(plan_tunnel_start(&dup, "x", &active), Err("El túnel t-1 ya está activo".to_string()));

    let mut no_port = base.clone();
    no_port.local_port = 0;
    assert_eq!(
        plan_tunnel_start(&no_port, "x", &active),
        Err("El puerto local debe ser mayor que 0".to_string())
    );
    let mut no_host = base.clone();
    no_host.remote_host = Some(" ".into());
    assert_eq!(
        plan_tunnel_start(&no_host, "x", &active),
        Err("El túnel local requiere host y puerto remotos".to_string())
    );
    let mut dynamic = no_host.clone();
    dynamic.tunnel_type = SshTunnelType::Dynamic;
    assert!(plan_tunnel_start(&dynamic, "x", &active).is_ok());

    let remote = SshTunnelConfig {
        id: Some("r".into()),
        name: None,
        tunnel_type: SshTunnelType::Remote,
        bind_host: Some(" 0.0.0.0 ".into()),
        local_port: 3000,
        remote_host: None,
        remote_port: Some(9000),
    };
    let start = plan_tunnel_start(&remote, "x", &active).unwrap();
    assert_eq!(
        start,
        TunnelStart::Forward {
            id: "r".into(),
            bind_host: "0.0.0.0".into(),
            remote_port: 9000,
            local_host: "127.0.0.1".into()
        }
    );
    let info = started_tunnel_info(&remote, &start, 0, 0);
    assert_eq!(info.remote_port, Some(9000));
    assert_eq!(info.remote_host.as_deref(), Some("127.0.0.1"));
    let info = started_tunnel_info(&remote, &start, 0, 9001);
    assert_eq!(info.remote_port, Some(9001));
    let mut no_rport = remote.clone();
    no_rport.remote_port = Some(0);
    assert_eq!(
        plan_tunnel_start(&no_rport, "x", &active),
        Err("El túnel remoto requiere puerto remoto".to_string())
    );
    let mut no_lport = remote.clone();
    no_lport.local_port = 0;
    assert_eq!(
        plan_tunnel_start(&no_lport, "x", &active),
        Err("El túnel remoto requiere puerto local de destino".to_string())
    );
}

#[test]
fn resultado_del_kill_remoto() {
    assert_eq!(kill_outcome(false, Some(0), b"ignorado"), Ok(()));
    assert_eq!(
        kill_outcome(true, Some(0), b""),
        Err("El servidor no respondió al kill a tiempo".to_string())
    );
    assert_eq!(
        kill_outcome(false, Some(1), b"  kill: (42) - No such process\n"),
        Err("kill: (42) - No such process".to_string())
    );
    assert_eq!(kill_outcome(false, Some(1), b" \n"), Err("kill terminó con estado 1".to_string()));
    assert_eq!(kill_outcome(false, None, b""), Err("kill terminó con estado desconocido".to_string()));
}

#[test]
fn reconexion_automatica_con_backoff_y_tope() {
    let mut r = Reconnect::new(Some(2));
    assert_eq!(r.on_end(SessionEnd::UserDisconnect), ReconnectStep::Stop);
    assert_eq!(
        r.on_end(SessionEnd::ServerClosed),
        ReconnectStep::Retry { attempt: 1, delay_secs: 2, message: "Reconectando en 2s (1/2)".into() }
    );
    assert_eq!(
        r.on_end(SessionEnd::ServerClosed),
        ReconnectStep::Retry { attempt: 2, delay_secs: 4, message: "Reconectando en 4s (2/2)".into() }
    );
    assert_eq!(r.on_end(SessionEnd::ServerClosed), ReconnectStep::Closed);
    assert_eq!(r.attempt(), 2);
    assert_eq!(r.on_end(SessionEnd::Fatal), ReconnectStep::Fail);

    let mut sin = Reconnect::new(None);
    assert_eq!(sin.on_end(SessionEnd::ServerClosed), ReconnectStep::Closed);
}

#[test]
fn legacy_preferred_none_includes_whole_catalog() {
    let (offered, removed) = legacy_selection(None);
    for (id, category) in legacy_catalog_info() {
        assert!(offered.contains(&id), "sin selección debería incluir {id} ({category})");
    }
    assert!(removed.is_empty());
}

#[test]
fn legacy_preferred_some_filters_to_selection() {
    let sel = vec!["hmac-sha1".to_string()];
    let (offered, removed) = legacy_selection(Some(&sel));
    assert!(offered.contains(&"hmac-sha1".to_string()));
    for (id, category) in legacy_catalog_info() {
        if id == "hmac-sha1" {
            continue;
        }
        assert!(!offered.contains(&id), "selección parcial no debería añadir {id} ({category})");
        assert!(removed.contains(&id));
    }
}

#[test]
fn orden_de_kill_remoto() {
    assert_eq!(kill_command(1234, false), Ok("kill -TERM 1234".to_string()));
    assert_eq!(kill_command(99, true), Ok("kill -KILL 99".to_string()));
    assert_eq!(kill_command(1, true), Err("PID no válido: 1".to_string()));
    assert_eq!(kill_command(0, false), Err("PID no válido: 0".to_string()));
}

#[test]
fn la_salida_se_agrupa_hasta_el_umbral_o_el_silencio() {
    let mut out = OutputBuffer::new();
    assert_eq!(out.flush(), None);
    assert_eq!(out.push(b"hola "), None);
    assert_eq!(out.push(b"mundo"), None);
    assert_eq!(out.flush(), Some(b"hola mundo".to_vec()));
    assert_eq!(out.flush(), None);
    let big = vec![7u8; SSH_DATA_FLUSH_THRESHOLD - 1];
    assert_eq!(out.push(&big), None);
    let all = out.push(b"xy").expect("llega al umbral");
    assert_eq!(all.len(), SSH_DATA_FLUSH_THRESHOLD + 1);
    assert_eq!(&all[all.len() - 2..], b"xy");
    assert_eq!(out.flush(), None);
}

#[test]
fn reintentos_de_la_primera_conexion() {
    assert_eq!(
        connect_retry(0, "srv:22", "connection refused", None),
        ConnectRetry::Retry { delay_secs: 1, message: "Intento 1 fallido (connection refused). Reintentando en 1s…".into() }
    );
    assert_eq!(
        connect_retry(1, "srv:22", "timeout", None),
        ConnectRetry::Retry { delay_secs: 2, message: "Intento 2 fallido (timeout). Reintentando en 2s…".into() }
    );
    assert_eq!(
        connect_retry(2, "srv:22", "timeout", None),
        ConnectRetry::GiveUp { message: "No se puede conectar a srv:22: timeout".into() }
    );
    assert_eq!(
        connect_retry(0, "srv:22", "x", Some("host key cambiada".into())),
        ConnectRetry::HostKeyRejected("host key cambiada".into())
    );
}

#[test]
fn pty_sin_medir_pide_80x24() {
    assert_eq!(rustty_core::ssh::pty_size(0, 40), (80, 24));
    assert_eq!(rustty_core::ssh::pty_size(120, 0), (80, 24));
    assert_eq!(rustty_core::ssh::pty_size(0, 0), (80, 24));
    assert_eq!(rustty_core::ssh::pty_size(132, 43), (132, 43));
}

#[test]
fn periodo_cero_o_ausente_apaga() {
    assert_eq!(rustty_core::ssh::period_secs(None), 0);
    assert_eq!(rustty_core::ssh::period_secs(Some(0)), 0);
    assert_eq!(rustty_core::ssh::period_secs(Some(15)), 15);
}

#[test]
fn keepalive_del_perfil_o_por_defecto() {
    assert_eq!(rustty_core::ssh::DEFAULT_SSH_KEEPALIVE_SECS, 30);
    assert_eq!(rustty_core::ssh::keepalive_interval_secs(None), 30);
    assert_eq!(rustty_core::ssh::keepalive_interval_secs(Some(0)), 30);
    assert_eq!(rustty_core::ssh::keepalive_interval_secs(Some(10)), 10);
}
