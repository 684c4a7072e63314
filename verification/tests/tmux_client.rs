use rustty_core::tmux::client::{ClientEvent, ControlClient, SendError, ShutdownReason, DEFAULT_COMMAND_TIMEOUT_MS};
use rustty_core::tmux::protocol::ControlEvent;

#[test]
fn el_saludo_inicial_no_roba_la_correlacion() {
    let mut client = ControlClient::new();
    let (tag, bytes) = client.send_command("list-windows", 0).expect("envía");
    assert_eq!(tag, 0);
    assert_eq!(bytes, b"list-windows\n");

    let events = client.feed(
        b"%begin 1785510405 280 0\n%end 1785510405 280 0\n\
%window-add @0\n\
%begin 1785510405 287 1\n0: tmux* (1 panes) [80x24] @0 (active)\n%end 1785510405 287 1\n",
    );
    assert_eq!(
        events,
        vec![
            ClientEvent::Notification(ControlEvent::CommandResponse {
                number: 280,
                flags: 0,
                success: true,
                output: String::new(),
            }),
            ClientEvent::Notification(ControlEvent::WindowAdd { window: 0 }),
            ClientEvent::CommandDone {
                tag: 0,
                success: true,
                output: "0: tmux* (1 panes) [80x24] @0 (active)\n".into(),
            },
        ]
    );
    assert_eq!(client.pending_count(), 0);
}

#[test]
fn correlacion_fifo_de_varios_comandos_con_exito_y_error() {
    let mut client = ControlClient::new();
    let (t0, _) = client.send_command("split-window -h", 0).unwrap();
    let (t1, _) = client.send_command("no-such-command", 0).unwrap();
    assert_eq!((t0, t1), (0, 1));
    assert_eq!(client.pending_count(), 2);

    let events = client.feed(
        b"%begin 9 5 1\n%end 9 5 1\n%begin 9 6 1\nunknown command\n%error 9 6 1\n",
    );
    assert_eq!(
        events,
        vec![
            ClientEvent::CommandDone {
                tag: 0,
                success: true,
                output: String::new(),
            },
            ClientEvent::CommandDone {
                tag: 1,
                success: false,
                output: "unknown command\n".into(),
            },
        ]
    );
    assert_eq!(client.pending_count(), 0);
}

#[test]
fn exit_cierra_y_prohibe_escribir() {
    let mut client = ControlClient::new();
    let events = client.feed(b"%exit server exited\n%window-add @1\n");
    assert_eq!(
        events,
        vec![ClientEvent::Shutdown(ShutdownReason::Exit(Some(
            "server exited".into()
        )))]
    );
    assert!(client.is_closed());
    assert_eq!(client.feed(b"%window-add @2\n"), Vec::new());
    assert_eq!(client.send_command("ls", 0), Err(SendError::Closed));
}

#[test]
fn linea_no_protocolo_fuera_de_bloque_es_desync() {
    let mut client = ControlClient::new();
    let events = client.feed(b"%window-add @0\nbash: fin de la sesion\n");
    assert_eq!(
        events,
        vec![
            ClientEvent::Notification(ControlEvent::WindowAdd { window: 0 }),
            ClientEvent::Shutdown(ShutdownReason::Desync {
                line: "bash: fin de la sesion".into(),
            }),
        ]
    );
    assert!(client.is_closed());
}

#[test]
fn notificacion_futura_no_cierra() {
    let mut client = ControlClient::new();
    let events = client.feed(b"%future-thing foo\n");
    assert_eq!(
        events,
        vec![ClientEvent::Notification(ControlEvent::Unknown {
            line: "%future-thing foo".into(),
        })]
    );
    assert!(!client.is_closed());
}

#[test]
fn timeout_vence_al_comando_mas_antiguo_y_cierra() {
    let mut client = ControlClient::with_timeout(1_000);
    assert_eq!(client.check_timeouts(999_999), None, "sin comandos no hay timeout");
    let (tag, _) = client.send_command("ls", 10_000).unwrap();
    assert_eq!(client.check_timeouts(10_500), None, "aún dentro de plazo");
    assert_eq!(
        client.check_timeouts(11_001),
        Some(ClientEvent::Shutdown(ShutdownReason::CommandTimeout { tag })),
    );
    assert!(client.is_closed());
    assert_eq!(client.send_command("ls", 11_002), Err(SendError::Closed));
}

#[test]
fn comando_multilinea_se_rechaza() {
    let mut client = ControlClient::new();
    assert_eq!(
        client.send_command("ls\nkill-server", 0),
        Err(SendError::InvalidCommand)
    );
    assert_eq!(client.pending_count(), 0, "el rechazo no encola nada");
}

#[test]
fn carriage_return_is_rejected_too() {
    let mut client = ControlClient::default();
    assert_eq!(client.send_command("ls\r", 0), Err(SendError::InvalidCommand));
    let (tag, bytes) = client.send_command("ls", 0).unwrap();
    assert_eq!((tag, bytes), (0, b"ls\n".to_vec()));
}

#[test]
fn timeout_boundary_and_disabled_timeouts() {
    let mut client = ControlClient::with_timeout(1_000);
    client.send_command("ls", 10_000).unwrap();
    // Exactly the timeout is still in time: it must be exceeded.
    assert_eq!(client.check_timeouts(11_000), None);
    // A clock behind the send time counts as zero elapsed.
    assert_eq!(client.check_timeouts(5), None);
    assert!(!client.is_closed());

    let mut off = ControlClient::with_timeout(0);
    off.send_command("ls", 0).unwrap();
    assert_eq!(off.check_timeouts(u64::MAX), None);
    assert!(!off.is_closed());
    assert_eq!(DEFAULT_COMMAND_TIMEOUT_MS, 30_000);
}

#[test]
fn replies_without_flag_do_not_consume_the_queue() {
    let mut client = ControlClient::new();
    client.send_command("ls", 0).unwrap();
    let events = client.feed(b"%begin 1 2 0\nhola\n%end 1 2 0\n");
    assert_eq!(
        events,
        vec![ClientEvent::Notification(ControlEvent::CommandResponse {
            number: 2,
            flags: 0,
            success: true,
            output: "hola\n".into(),
        })]
    );
    assert_eq!(client.pending_count(), 1);
    // A reply to our command with no command pending is a notification.
    let mut idle = ControlClient::new();
    let events = idle.feed(b"%begin 1 3 1\n%end 1 3 1\n");
    assert!(matches!(events[0], ClientEvent::Notification(_)));
}

#[test]
fn las_etiquetas_cuentan_los_envios_aceptados() {
    let mut client = ControlClient::with_timeout(1_000);
    assert_eq!(client.send_command("a", 0).map(|r| r.0), Ok(0));
    assert_eq!(client.send_command("b\nc", 1), Err(SendError::InvalidCommand));
    assert_eq!(client.check_timeouts(2), None);
    assert_eq!(client.send_command("d", 3).map(|r| r.0), Ok(1));
    assert_eq!(client.send_command("e", 4).map(|r| r.0), Ok(2));
    assert_eq!(client.pending_count(), 3);
}

#[test]
fn sin_timeout_nada_caduca_y_con_timeout_caduca_el_primero() {
    let mut off = ControlClient::with_timeout(0);
    off.send_command("a", 0).expect("envía");
    assert_eq!(off.check_timeouts(u64::MAX), None);
    assert!(!off.is_closed());

    let mut on = ControlClient::with_timeout(500);
    assert_eq!(on.send_command("a", 100).map(|r| r.0), Ok(0));
    assert_eq!(on.check_timeouts(600), None);
    assert!(matches!(
        on.check_timeouts(601),
        Some(ClientEvent::Shutdown(ShutdownReason::CommandTimeout { tag: 0 }))
    ));
    assert!(on.is_closed());
}
