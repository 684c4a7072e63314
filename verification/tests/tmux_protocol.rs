use rustty_core::tmux::protocol::{ControlEvent, ControlParser};

fn feed_all(chunks: &[&[u8]]) -> Vec<ControlEvent> {
    let mut parser = ControlParser::new();
    let mut events = Vec::new();
    for chunk in chunks {
        events.extend(parser.feed(chunk));
    }
    events
}

#[test]
fn captura_real_de_arranque_y_list_windows() {
    let captura = b"%begin 1785510405 280 0\n\
%end 1785510405 280 0\n\
%window-add @0\n\
%sessions-changed\n\
%session-changed $0 rustty_cc_probe\n\
%window-renamed @0 tmux\n\
%begin 1785510405 287 1\n\
0: tmux* (1 panes) [80x24] [layout b25d,80x24,0,0,0] @0 (active)\n\
%end 1785510405 287 1\n\
%window-pane-changed @0 %1\n\
%exit\n";
    let events = feed_all(&[captura]);
    assert_eq!(
        events,
        vec![
            ControlEvent::CommandResponse {
                number: 280,
                flags: 0,
                success: true,
                output: String::new(),
            },
            ControlEvent::WindowAdd { window: 0 },
            ControlEvent::SessionsChanged,
            ControlEvent::SessionChanged {
                session: 0,
                name: "rustty_cc_probe".into(),
            },
            ControlEvent::WindowRenamed {
                window: 0,
                name: "tmux".into(),
            },
            ControlEvent::CommandResponse {
                number: 287,
                flags: 1,
                success: true,
                output: "0: tmux* (1 panes) [80x24] [layout b25d,80x24,0,0,0] @0 (active)\n"
                    .into(),
            },
            ControlEvent::WindowPaneChanged { window: 0, pane: 1 },
            ControlEvent::Exit { reason: None },
        ]
    );
}

#[test]
fn output_desescapa_octal_y_conserva_utf8_crudo() {
    let events = feed_all(&[b"%output %0 a\\011b\\134z-\xc3\xb1\xe2\x82\xac\\015\\012\n"]);
    assert_eq!(
        events,
        vec![ControlEvent::Output {
            pane: 0,
            bytes: b"a\tb\\z-\xc3\xb1\xe2\x82\xac\r\n".to_vec(),
        }]
    );
}

#[test]
fn utf8_partido_entre_dos_output_no_se_corrompe() {
    let events = feed_all(&[b"%output %3 antes-\xc3\n", b"%output %3 \xb1-despues\n"]);
    let mut all = Vec::new();
    for ev in events {
        match ev {
            ControlEvent::Output { pane: 3, bytes } => all.extend(bytes),
            other => panic!("evento inesperado: {other:?}"),
        }
    }
    assert_eq!(String::from_utf8(all).unwrap(), "antes-ñ-despues");
}

#[test]
fn lineas_partidas_entre_feeds_se_recomponen() {
    let events = feed_all(&[b"%outp", b"ut %7 ho\\01", b"1la", b"\n%window-close @2\n"]);
    assert_eq!(
        events,
        vec![
            ControlEvent::Output {
                pane: 7,
                bytes: b"ho\tla".to_vec(),
            },
            ControlEvent::WindowClose { window: 2 },
        ]
    );
}

#[test]
fn bloque_error_correlacionado_por_numero() {
    let events = feed_all(&[b"%begin 100 42 1\nbad command: nope\n\n%error 101 42 1\n" as &[u8]]);
    assert_eq!(
        events,
        vec![ControlEvent::CommandResponse {
            number: 42,
            flags: 1,
            success: false,
            output: "bad command: nope\n\n".into(),
        }]
    );
}

#[test]
fn notificaciones_de_layout_ventanas_y_sesiones() {
    let events = feed_all(&[b"%layout-change @1 8205,80x24,0,0{40x24,0,0,0,39x24,41,0,1} 8205,80x24,0,0{40x24,0,0,0,39x24,41,0,1} *\n\
%session-window-changed $0 @1\n\
%session-renamed produccion\n\
%pane-mode-changed %5\n\
%unlinked-window-add @9\n\
%client-session-changed /dev/pts/4 $2 backup\n" as &[u8]]);
    assert_eq!(
        events,
        vec![
            ControlEvent::LayoutChange {
                window: 1,
                layout: "8205,80x24,0,0{40x24,0,0,0,39x24,41,0,1}".into(),
                visible_layout: Some("8205,80x24,0,0{40x24,0,0,0,39x24,41,0,1}".into()),
                flags: Some("*".into()),
            },
            ControlEvent::SessionWindowChanged { session: 0, window: 1 },
            ControlEvent::SessionRenamed {
                name: "produccion".into(),
            },
            ControlEvent::PaneModeChanged { pane: 5 },
            ControlEvent::UnlinkedWindowAdd { window: 9 },
            ControlEvent::ClientSessionChanged {
                client: "/dev/pts/4".into(),
                session: 2,
                name: "backup".into(),
            },
        ]
    );
}

#[test]
fn extended_output_pause_continue_y_subscription() {
    let events = feed_all(&[b"%extended-output %2 154 : hola\\011mundo\n\
%pause %2\n\
%continue %2\n\
%subscription-changed cwd $0 @1 1 %2 : /home/user/proyecto\n" as &[u8]]);
    assert_eq!(
        events,
        vec![
            ControlEvent::ExtendedOutput {
                pane: 2,
                bytes: b"hola\tmundo".to_vec(),
            },
            ControlEvent::Pause { pane: 2 },
            ControlEvent::Continue { pane: 2 },
            ControlEvent::SubscriptionChanged {
                name: "cwd".into(),
                value: "/home/user/proyecto".into(),
            },
        ]
    );
}

#[test]
fn dcs_st_y_crlf_se_toleran() {
    let events = feed_all(&[
        b"\x1bP1000p%begin 1 2 0\r\n%end 1 2 0\r\n%exit server exited\n\x1b\\\n" as &[u8],
    ]);
    assert_eq!(
        events,
        vec![
            ControlEvent::CommandResponse {
                number: 2,
                flags: 0,
                success: true,
                output: String::new(),
            },
            ControlEvent::Exit {
                reason: Some("server exited".into()),
            },
        ]
    );
}

#[test]
fn lo_desconocido_es_unknown_y_no_desincroniza() {
    let events = feed_all(&[
        b"%future-notification foo bar\n%window-add basura\n%window-add @4\n" as &[u8],
    ]);
    assert_eq!(
        events,
        vec![
            ControlEvent::Unknown {
                line: "%future-notification foo bar".into(),
            },
            ControlEvent::Unknown {
                line: "%window-add basura".into(),
            },
            ControlEvent::WindowAdd { window: 4 },
        ]
    );
}

#[test]
fn backslash_escapado_no_se_reinterpreta() {
    let events = feed_all(&[b"%output %1 \\134011\n" as &[u8]]);
    assert_eq!(
        events,
        vec![ControlEvent::Output {
            pane: 1,
            bytes: b"\\011".to_vec(),
        }]
    );
}

#[test]
fn linea_desmedida_sin_salto_se_entrega_como_unknown() {
    let mut parser = ControlParser::new();
    let big = vec![b'x'; 16 * 1024 * 1024 + 1];
    let events = parser.feed(&big);
    assert_eq!(events.len(), 1);
    assert!(matches!(&events[0], ControlEvent::Unknown { line } if line.len() == big.len()));
    // El buffer queda limpio: la siguiente línea se parsea con normalidad.
    assert_eq!(parser.feed(b"%window-add @3\n"), vec![ControlEvent::WindowAdd { window: 3 }]);
}

#[test]
fn id_con_signo_mas_y_desbordado() {
    // `str::parse` admite un `+` inicial; un número que no cabe en u64 no es id.
    let events = feed_all(&[b"%window-add @+7\n%window-add @18446744073709551616\n" as &[u8]]);
    assert_eq!(
        events,
        vec![
            ControlEvent::WindowAdd { window: 7 },
            ControlEvent::Unknown { line: "%window-add @18446744073709551616".into() },
        ]
    );
}

#[test]
fn trocear_la_entrada_no_cambia_los_eventos() {
    let all = b"%begin 1 2 0\nuno\n%end 1 2 0\n%output %3 ho\\011la\n%window-close @2\n%sesi";
    let mut whole = ControlParser::new();
    let expected = whole.feed(all);
    for cut in 0..all.len() {
        let mut p = ControlParser::new();
        let mut got = p.feed(&all[..cut]);
        got.extend(p.feed(&all[cut..]));
        assert_eq!(got, expected, "corte en {cut}");
    }
    let mut rest = whole;
    let mut p = ControlParser::new();
    p.feed(&all[..10]);
    p.feed(&all[10..]);
    assert_eq!(p.feed(b"on-changed $1 dev\n"), rest.feed(b"on-changed $1 dev\n"));
}
