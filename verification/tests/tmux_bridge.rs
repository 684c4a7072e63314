use rustty_core::tmux::bridge::{
    cmd_capture_pane, cmd_kill_pane, cmd_kill_window, cmd_new_window, cmd_rename_window,
    cmd_resize_pane, cmd_send_keys, cmd_set_client_size, cmd_split_pane, BridgeOut, ControlBridge,
    PaneRef, TmuxPaneClosedPayload, TmuxWindowPayload,
};
use rustty_core::tmux::client::SendError;

const BOOT: &[u8] = b"%begin 1 0 0\n%end 1 0 0\n%session-changed $0 rustty\n%window-add @0\n%layout-change @0 b25d,80x24,0,0,0 b25d,80x24,0,0,0 *\n";

#[test]
fn el_arranque_produce_ventana_y_layout_con_ids_deterministas() {
    let mut bridge = ControlBridge::new("ssh-abc");
    let out = bridge.feed(BOOT);
    assert!(out.contains(&BridgeOut::WindowUpsert(TmuxWindowPayload {
        window: 0,
        name: None
    })));
    let layout = out.iter().find_map(|o| match o {
        BridgeOut::Layout(l) => Some(l),
        _ => None,
    });
    let layout = layout.expect("falta el layout");
    assert_eq!(layout.window, 0);
    assert_eq!(layout.layout.pane, Some(0));
    assert_eq!(layout.added, vec![PaneRef { pane: 0, logical_id: "ssh-abc-p0".into() }]);
    assert!(!bridge.is_closed());
}

#[test]
fn la_salida_de_una_pane_llega_con_su_id_logico() {
    let mut bridge = ControlBridge::new("s");
    bridge.feed(BOOT);
    let out = bridge.feed(b"%output %0 hola\\015\\012\n");
    assert_eq!(
        out,
        vec![BridgeOut::PaneOutput {
            pane: PaneRef { pane: 0, logical_id: "s-p0".into() },
            bytes: b"hola\r\n".to_vec(),
        }]
    );
}

#[test]
fn cerrar_ventana_emite_pane_closed_antes_que_window_closed() {
    let mut bridge = ControlBridge::new("s");
    bridge.feed(BOOT);
    let out = bridge.feed(b"%window-close @0\n");
    assert_eq!(
        out,
        vec![
            BridgeOut::PaneClosed(TmuxPaneClosedPayload {
                pane: PaneRef { pane: 0, logical_id: "s-p0".into() },
            }),
            BridgeOut::WindowClosed(TmuxWindowPayload { window: 0, name: None }),
        ]
    );
}

#[test]
fn un_comando_se_correla_y_exit_cierra_el_puente() {
    let mut bridge = ControlBridge::new("s");
    bridge.feed(BOOT);
    let (tag, bytes) = bridge.command("list-windows", 0).expect("comando");
    assert_eq!(bytes, b"list-windows\n");
    let out = bridge.feed(b"%begin 7 2 1\n@0 ventana\n%end 7 2 1\n%exit\n");
    assert!(out.contains(&BridgeOut::CommandDone {
        tag,
        success: true,
        output: "@0 ventana\n".into()
    }));
    assert!(out.iter().any(|o| matches!(o, BridgeOut::Ended(_))));
    assert!(bridge.is_closed());
    assert_eq!(bridge.command("ls", 0), Err(SendError::Closed));
}

#[test]
fn layout_node_uses_the_row_column_convention() {
    let mut bridge = ControlBridge::new("s");
    bridge.feed(BOOT);
    let out = bridge.feed(b"%layout-change @0 8205,80x24,0,0{40x24,0,0,0,39x24,41,0,1} x *\n");
    let layout = out
        .iter()
        .find_map(|o| match o {
            BridgeOut::Layout(l) => Some(l),
            _ => None,
        })
        .expect("layout");
    assert_eq!(layout.layout.dir, Some("row"));
    let children = layout.layout.children.as_ref().expect("hijos");
    assert_eq!(children.len(), 2);
    assert_eq!(children[0].pane, Some(0));
    assert_eq!(children[1].pane, Some(1));
    assert_eq!(children[0].dir, None);
    assert_eq!(layout.added, vec![PaneRef { pane: 1, logical_id: "s-p1".into() }]);
}

#[test]
fn los_comandos_compuestos_sanean_lo_que_toca() {
    assert_eq!(cmd_send_keys(3, b"ls\r"), "send-keys -H -t %3 0x6c 0x73 0x0d");
    assert_eq!(cmd_split_pane(1, true), "split-window -h -t %1");
    assert_eq!(cmd_split_pane(1, false), "split-window -v -t %1");
    assert_eq!(
        cmd_rename_window(2, "logs de l'app\nmala"),
        "rename-window -t @2 'logs de l'\\''appmala'"
    );
    assert_eq!(cmd_set_client_size(120, 40), "refresh-client -C 120x40");
    assert_eq!(cmd_capture_pane(5, 2000), "capture-pane -p -e -J -t %5 -S -2000");
}

#[test]
fn un_timeout_termina_la_sesion_de_control() {
    let mut bridge = ControlBridge::new("s");
    bridge.feed(BOOT);
    bridge.command("ls", 1_000).expect("comando");
    assert!(bridge.check_timeouts(10_000).is_empty());
    assert!(!bridge.is_closed());
    let out = bridge.check_timeouts(40_000);
    assert!(out.iter().any(|o| matches!(o, BridgeOut::Ended(_))));
    assert!(bridge.is_closed());
}

#[test]
fn remaining_command_builders() {
    assert_eq!(cmd_kill_pane(4), "kill-pane -t %4");
    assert_eq!(cmd_new_window(), "new-window");
    assert_eq!(cmd_kill_window(12), "kill-window -t @12");
    assert_eq!(cmd_resize_pane(2, 80, 24), "resize-pane -t %2 -x 80 -y 24");
    assert_eq!(cmd_send_keys(0, b""), "send-keys -H -t %0");
    assert_eq!(cmd_rename_window(1, "\r\n"), "rename-window -t @1 ''");
}

#[test]
fn exit_reasons_are_rendered() {
    let mut bridge = ControlBridge::new("s");
    let out = bridge.feed(b"no es protocolo\n");
    assert_eq!(
        out,
        vec![BridgeOut::Ended(rustty_core::tmux::bridge::TmuxExitPayload {
            reason: Some("desincronización: no es protocolo".into())
        })]
    );
    let mut bridge = ControlBridge::new("s");
    bridge.command("ls", 0).unwrap();
    let out = bridge.check_timeouts(30_001);
    assert_eq!(
        out,
        vec![BridgeOut::Ended(rustty_core::tmux::bridge::TmuxExitPayload {
            reason: Some("el comando #0 agotó su plazo".into())
        })]
    );
    assert_eq!(bridge.logical_id_for(3), "s-p3");
}
