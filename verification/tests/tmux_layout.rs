use rustty_core::tmux::layout::{layout_checksum, parse_layout, LayoutCell, LayoutKind, SplitDir};

fn leaf(width: u32, height: u32, x: u32, y: u32, pane: u64) -> LayoutCell {
    LayoutCell {
        width,
        height,
        x,
        y,
        kind: LayoutKind::Leaf { pane },
    }
}

fn with_checksum(body: &str) -> String {
    format!("{:04x},{body}", layout_checksum(body))
}

#[test]
fn una_sola_pane() {
    let cell = parse_layout("b25d,80x24,0,0,0").expect("parsea");
    assert_eq!(cell, leaf(80, 24, 0, 0, 0));
    assert_eq!(cell.pane_ids(), vec![0]);
}

#[test]
fn dos_panes_lado_a_lado() {
    let cell = parse_layout("8205,80x24,0,0{40x24,0,0,0,39x24,41,0,1}").expect("parsea");
    assert_eq!(
        cell,
        LayoutCell {
            width: 80,
            height: 24,
            x: 0,
            y: 0,
            kind: LayoutKind::Split {
                dir: SplitDir::LeftRight,
                children: vec![leaf(40, 24, 0, 0, 0), leaf(39, 24, 41, 0, 1)],
            },
        }
    );
}

#[test]
fn tres_panes_anidadas() {
    let cell =
        parse_layout("d67e,80x24,0,0{40x24,0,0,0,39x24,41,0[39x12,41,0,1,39x11,41,13,2]}")
            .expect("parsea");
    assert_eq!(cell.pane_ids(), vec![0, 1, 2]);
    let LayoutKind::Split { dir, children } = &cell.kind else {
        panic!("la raíz debe ser un split");
    };
    assert_eq!(*dir, SplitDir::LeftRight);
    assert_eq!(children[0], leaf(40, 24, 0, 0, 0));
    assert_eq!(
        children[1].kind,
        LayoutKind::Split {
            dir: SplitDir::TopBottom,
            children: vec![leaf(39, 12, 41, 0, 1), leaf(39, 11, 41, 13, 2)],
        }
    );
}

#[test]
fn cuatro_panes_en_rejilla() {
    let body = "80x24,0,0[80x12,0,0{40x12,0,0,0,39x12,41,0,1},80x11,0,13{40x11,0,0,2,39x11,41,13,3}]";
    let input = format!("{:04x},{body}", layout_checksum(body));
    assert_eq!(input, format!("f3b4,{body}"));
    let cell = parse_layout(&input).expect("parsea");
    assert_eq!(cell.pane_ids(), vec![0, 1, 2, 3]);
}

#[test]
fn checksum_incorrecto_se_rechaza() {
    let err = parse_layout("0000,80x24,0,0,0").unwrap_err();
    assert!(err.contains("checksum"), "{err}");
}

#[test]
fn layouts_malformados_dan_error_no_panico() {
    for input in [
        "",
        "b25d",
        "zzzz,80x24,0,0,0",
        "8205,80x24,0,0{40x24,0,0,0",
        "8205,80x24,0,0{40x24,0,0,0,39x24,41,0,1}basura",
        "b25d,80x24,0,0",
        "b25d,80x24",
    ] {
        let with_checksum = if input.contains(',') && !input.starts_with("zzzz") {
            let body = input.split_once(',').unwrap().1;
            format!("{:04x},{body}", layout_checksum(body))
        } else {
            input.to_string()
        };
        assert!(
            parse_layout(&with_checksum).is_err(),
            "debería fallar: {with_checksum:?}"
        );
    }
}

#[test]
fn split_de_un_solo_hijo_se_rechaza() {
    let body = "80x24,0,0{80x24,0,0,1}";
    let input = format!("{:04x},{body}", layout_checksum(body));
    let err = parse_layout(&input).unwrap_err();
    assert!(err.contains("un solo hijo"), "{err}");
}

#[test]
fn checksum_values() {
    assert_eq!(layout_checksum(""), 0);
    assert_eq!(layout_checksum("80x24,0,0,0"), 0xb25d);
    assert_eq!(layout_checksum("A"), 65);
    // 65 rotated right is 0x8020, plus 66.
    assert_eq!(layout_checksum("AB"), 0x8020 + 66);
}

#[test]
fn exact_error_messages() {
    assert_eq!(
        parse_layout("b25d").unwrap_err(),
        "layout sin checksum: \"b25d\""
    );
    assert_eq!(
        parse_layout("zzzz,80x24,0,0,0").unwrap_err(),
        "checksum no hexadecimal: \"zzzz\""
    );
    assert_eq!(
        parse_layout("0000,80x24,0,0,0").unwrap_err(),
        "checksum del layout no coincide: esperado 0000, calculado b25d"
    );
    assert_eq!(
        parse_layout(&with_checksum("80y24,0,0,0")).unwrap_err(),
        "se esperaba 'x' en la posición 2"
    );
    assert_eq!(
        parse_layout(&with_checksum("80x24,0,0")).unwrap_err(),
        "celda sin pane ni hijos (byte None) en la posición 9"
    );
    assert_eq!(
        parse_layout(&with_checksum("80x24,0,0;")).unwrap_err(),
        "celda sin pane ni hijos (byte Some(59)) en la posición 9"
    );
    assert_eq!(
        parse_layout(&with_checksum("80x,0,0,0")).unwrap_err(),
        "se esperaba un número en la posición 3"
    );
    assert_eq!(
        parse_layout(&with_checksum("80x24,0,0,0 ")).unwrap_err(),
        "contenido inesperado tras el layout en la posición 11"
    );
    assert_eq!(
        parse_layout(&with_checksum("80x24,0,0{40x24,0,0,0;")).unwrap_err(),
        "se esperaba '}' en la posición 21"
    );
}

#[test]
fn numbers_overflow_and_leading_zeros() {
    assert_eq!(
        parse_layout(&with_checksum("4294967296x24,0,0,0")).unwrap_err(),
        "número desbordado en la posición 0"
    );
    let cell = parse_layout(&with_checksum("4294967295x0024,0,0,18446744073709551615")).unwrap();
    assert_eq!(cell, leaf(u32::MAX, 24, 0, 0, u64::MAX));
    assert_eq!(
        parse_layout(&with_checksum("1x1,0,0,18446744073709551616")).unwrap_err(),
        "número desbordado en la posición 8"
    );
    // A `+` before the checksum is accepted by `from_str_radix`.
    assert!(parse_layout("+b25d,80x24,0,0,0").is_ok());
}

#[test]
fn clone_keeps_the_tree() {
    let cell = parse_layout("d67e,80x24,0,0{40x24,0,0,0,39x24,41,0[39x12,41,0,1,39x11,41,13,2]}")
        .unwrap();
    let copy = cell.clone();
    assert_eq!(copy, cell);
    assert_eq!(copy.pane_ids(), vec![0, 1, 2]);
}
