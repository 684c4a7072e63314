use rustty_core::tmux::client::{ClientEvent, ControlClient, ShutdownReason};
use rustty_core::tmux::manager::{ModelUpdate, PaneBinding, TmuxManager};
use rustty_core::tmux::protocol::ControlEvent;

fn pump(client: &mut ControlClient, manager: &mut TmuxManager, bytes: &[u8]) -> Vec<ModelUpdate> {
    client
        .feed(bytes)
        .into_iter()
        .flat_map(|ev| manager.apply(ev))
        .collect()
}

fn layout(window: u64, layout: &str) -> ClientEvent {
    ClientEvent::Notification(ControlEvent::LayoutChange {
        window,
        layout: layout.into(),
        visible_layout: None,
        flags: None,
    })
}

#[test]
fn arranque_real_construye_el_modelo() {
    let mut client = ControlClient::new();
    let mut manager = TmuxManager::new("ssh-abc");
    let updates = pump(
        &mut client,
        &mut manager,
        b"%begin 1785510405 280 0\n%end 1785510405 280 0\n\
%window-add @0\n\
%sessions-changed\n\
%session-changed $0 rustty_cc_probe\n\
%window-renamed @0 tmux\n\
%window-pane-changed @0 %1\n",
    );
    assert_eq!(
        updates,
        vec![
            ModelUpdate::WindowAdded { window: 0 },
            ModelUpdate::SessionChanged {
                session: 0,
                name: "rustty_cc_probe".into(),
            },
            ModelUpdate::WindowRenamed {
                window: 0,
                name: "tmux".into(),
            },
            ModelUpdate::ActivePaneChanged { window: 0, pane: 1 },
        ]
    );
    assert_eq!(manager.session(), Some((0, "rustty_cc_probe")));
    assert_eq!(manager.logical_id(1), Some("ssh-abc-p1"));
    assert_eq!(manager.pane_by_logical("ssh-abc-p1"), Some(1));
}

#[test]
fn layout_da_de_alta_las_panes_con_ids_deterministas() {
    let mut manager = TmuxManager::new("s");
    let updates = manager.apply(ClientEvent::Notification(ControlEvent::LayoutChange {
        window: 1,
        layout: "8205,80x24,0,0{40x24,0,0,0,39x24,41,0,1}".into(),
        visible_layout: None,
        flags: None,
    }));
    let ModelUpdate::LayoutChanged { window, added, removed, .. } = &updates[0] else {
        panic!("esperaba LayoutChanged: {updates:?}");
    };
    assert_eq!(*window, 1);
    assert_eq!(removed, &Vec::new());
    assert_eq!(
        added,
        &vec![
            PaneBinding { pane: 0, logical_id: "s-p0".into() },
            PaneBinding { pane: 1, logical_id: "s-p1".into() },
        ]
    );
}

#[test]
fn split_y_cierre_hacen_el_diff_minimo() {
    let mut manager = TmuxManager::new("s");
    manager.apply(layout(0, "8205,80x24,0,0{40x24,0,0,0,39x24,41,0,1}"));
    let updates = manager.apply(layout(
        0,
        "d67e,80x24,0,0{40x24,0,0,0,39x24,41,0[39x12,41,0,1,39x11,41,13,2]}",
    ));
    let ModelUpdate::LayoutChanged { added, removed, .. } = &updates[0] else {
        panic!("esperaba LayoutChanged");
    };
    assert_eq!(added, &vec![PaneBinding { pane: 2, logical_id: "s-p2".into() }]);
    assert!(removed.is_empty());

    let updates = manager.apply(layout(0, "8205,80x24,0,0{40x24,0,0,0,39x24,41,0,1}"));
    let ModelUpdate::LayoutChanged { added, removed, .. } = &updates[0] else {
        panic!("esperaba LayoutChanged");
    };
    assert!(added.is_empty());
    assert_eq!(removed, &vec![PaneBinding { pane: 2, logical_id: "s-p2".into() }]);
    assert_eq!(manager.logical_id(2), None);
}

#[test]
fn output_temprano_registra_y_el_layout_adopta() {
    let mut manager = TmuxManager::new("s");
    let updates = manager.apply(ClientEvent::Notification(ControlEvent::Output {
        pane: 0,
        bytes: b"hola".to_vec(),
    }));
    assert_eq!(
        updates,
        vec![ModelUpdate::Output {
            pane: PaneBinding { pane: 0, logical_id: "s-p0".into() },
            bytes: b"hola".to_vec(),
        }]
    );
    let updates = manager.apply(layout(0, "b25d,80x24,0,0,0"));
    let ModelUpdate::LayoutChanged { added, .. } = &updates[0] else {
        panic!("esperaba LayoutChanged");
    };
    assert_eq!(added, &vec![PaneBinding { pane: 0, logical_id: "s-p0".into() }]);
}

#[test]
fn cerrar_ventana_retira_sus_panes() {
    let mut manager = TmuxManager::new("s");
    manager.apply(layout(3, "8205,80x24,0,0{40x24,0,0,0,39x24,41,0,1}"));
    let updates = manager.apply(ClientEvent::Notification(ControlEvent::WindowClose {
        window: 3,
    }));
    assert_eq!(
        updates,
        vec![ModelUpdate::WindowClosed {
            window: 3,
            removed_panes: vec![
                PaneBinding { pane: 0, logical_id: "s-p0".into() },
                PaneBinding { pane: 1, logical_id: "s-p1".into() },
            ],
        }]
    );
    assert_eq!(manager.windows().len(), 0);
}

#[test]
fn layout_corrupto_es_warning_no_panico() {
    let mut manager = TmuxManager::new("s");
    let updates = manager.apply(layout(0, "0000,80x24,0,0,0"));
    assert!(
        matches!(&updates[0], ModelUpdate::Warning { message } if message.contains("@0")),
        "{updates:?}"
    );
}

#[test]
fn shutdown_y_command_done_pasan_digeridos() {
    let mut manager = TmuxManager::new("s");
    assert_eq!(
        manager.apply(ClientEvent::CommandDone {
            tag: 4,
            success: true,
            output: "x\n".into(),
        }),
        vec![ModelUpdate::CommandDone {
            tag: 4,
            success: true,
            output: "x\n".into(),
        }]
    );
    assert_eq!(
        manager.apply(ClientEvent::Shutdown(ShutdownReason::Exit(None))),
        vec![ModelUpdate::Ended {
            reason: ShutdownReason::Exit(None),
        }]
    );
}

#[test]
fn break_pane_keeps_the_logical_id() {
    let mut manager = TmuxManager::new("s");
    manager.apply(layout(0, "8205,80x24,0,0{40x24,0,0,0,39x24,41,0,1}"));
    // Pane 1 leaves window 0 and becomes the only pane of window 5.
    let updates = manager.apply(layout(0, "b25d,80x24,0,0,0"));
    let ModelUpdate::LayoutChanged { removed, .. } = &updates[0] else {
        panic!("esperaba LayoutChanged");
    };
    assert_eq!(removed, &vec![PaneBinding { pane: 1, logical_id: "s-p1".into() }]);
    let body = "80x24,0,0,1";
    let input = format!("{:04x},{body}", rustty_core::tmux::layout::layout_checksum(body));
    let updates = manager.apply(layout(5, &input));
    let ModelUpdate::LayoutChanged { added, .. } = &updates[0] else {
        panic!("esperaba LayoutChanged");
    };
    assert_eq!(added, &vec![PaneBinding { pane: 1, logical_id: "s-p1".into() }]);
    assert_eq!(manager.pane_by_logical("s-p1"), Some(1));
    assert_eq!(manager.logical_id_for(7), "s-p7");
}

#[test]
fn windows_listed_in_id_order_with_state() {
    let mut manager = TmuxManager::new("s");
    manager.apply(ClientEvent::Notification(ControlEvent::WindowAdd { window: 9 }));
    manager.apply(ClientEvent::Notification(ControlEvent::WindowRenamed { window: 2, name: "dos".into() }));
    manager.apply(ClientEvent::Notification(ControlEvent::WindowPaneChanged { window: 2, pane: 4 }));
    let ws = manager.windows();
    assert_eq!(ws.len(), 2);
    assert_eq!(ws[0].0, 2);
    assert_eq!(ws[0].1.name, "dos");
    assert_eq!(ws[0].1.active_pane, Some(4));
    assert_eq!(ws[1].0, 9);
    assert_eq!(ws[1].1.name, "");
    // The active pane is registered but not yet given a window.
    assert_eq!(manager.logical_id(4), Some("s-p4"));
}

#[test]
fn session_rename_and_unknown_warnings() {
    let mut manager = TmuxManager::new("s");
    assert_eq!(
        manager.apply(ClientEvent::Notification(ControlEvent::SessionRenamed { name: "x".into() })),
        vec![ModelUpdate::Warning { message: "session-renamed sin sesión anunciada: x".into() }]
    );
    manager.apply(ClientEvent::Notification(ControlEvent::SessionChanged { session: 3, name: "a".into() }));
    assert_eq!(
        manager.apply(ClientEvent::Notification(ControlEvent::SessionRenamed { name: "b".into() })),
        vec![ModelUpdate::SessionChanged { session: 3, name: "b".into() }]
    );
    assert_eq!(manager.session(), Some((3, "b")));
    assert_eq!(
        manager.apply(ClientEvent::Notification(ControlEvent::Unknown { line: "%zz".into() })),
        vec![ModelUpdate::Warning { message: "notificación no reconocida: %zz".into() }]
    );
    assert_eq!(
        manager.apply(ClientEvent::Notification(ControlEvent::SessionsChanged)),
        Vec::new()
    );
    let updates = manager.apply(layout(0, "0000,80x24,0,0,0"));
    assert_eq!(
        updates,
        vec![ModelUpdate::Warning {
            message: "layout de @0 ilegible: checksum del layout no coincide: esperado 0000, calculado b25d".into()
        }]
    );
}
