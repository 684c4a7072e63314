use rustty_core::socks::{socks5_begin, socks5_step, AddrKind, SocksAction, SocksAddr, SocksStage};

/// Feeds the client's bytes through the handshake; returns what the server
/// wrote and how it ended (`Ok((addr, port))` or `Err(msg)`), or `None` when
/// the client stopped sending first.
fn handshake(client: &[u8]) -> (Vec<u8>, Option<Result<(SocksAddr, u16), String>>) {
    let mut written = Vec::new();
    let mut pos = 0usize;
    let mut stage = socks5_begin();
    loop {
        let n = stage.want();
        if pos + n > client.len() {
            return (written, None);
        }
        let input = &client[pos..pos + n];
        pos += n;
        match socks5_step(stage, input) {
            SocksAction::Read { reply, next } => {
                written.extend_from_slice(&reply);
                stage = next;
            }
            SocksAction::Fail { reply, msg } => {
                written.extend_from_slice(&reply);
                return (written, Some(Err(msg)));
            }
            SocksAction::Connect { reply, addr, port } => {
                written.extend_from_slice(&reply);
                return (written, Some(Ok((addr, port))));
            }
        }
    }
}

#[test]
fn read_socks5_target_parsea_connect_valido() {
    let mut client = vec![5u8, 1, 0];
    let mut req = vec![5u8, 1, 0, 3, 11];
    req.extend_from_slice(b"example.com");
    req.extend_from_slice(&443u16.to_be_bytes());
    client.extend_from_slice(&req);
    let (written, end) = handshake(&client);
    assert_eq!(&written[..2], &[5, 0]);
    assert_eq!(&written[2..4], &[5, 0]);
    assert_eq!(written.len(), 12);
    assert_eq!(end, Some(Ok((SocksAddr::Domain("example.com".to_string()), 443))));
}

#[test]
fn read_socks5_target_rechaza_version_y_comando_invalidos() {
    let (written, end) = handshake(&[4, 1, 0]);
    assert!(written.is_empty());
    assert!(matches!(end, Some(Err(_))));

    let mut client = vec![5u8, 1, 0];
    client.extend_from_slice(&[5, 2, 0, 1, 127, 0, 0, 1, 0, 80]);
    let (written, end) = handshake(&client);
    assert_eq!(&written[..2], &[5, 0]);
    let reply = &written[2..];
    assert_eq!(reply.len(), 10);
    assert_eq!(reply[1], 0x07);
    assert_eq!(end, Some(Err("SOCKS solo soporta CONNECT".to_string())));
}

#[test]
fn socks_ipv4_e_ipv6_devuelven_sus_bytes() {
    let client = [5u8, 2, 0, 2, 5, 1, 0, 1, 10, 0, 0, 7, 0x1f, 0x90];
    let (written, end) = handshake(&client);
    assert_eq!(written, vec![5, 0, 5, 0, 0, 1, 0, 0, 0, 0, 0, 0]);
    assert_eq!(end, Some(Ok((SocksAddr::V4(vec![10, 0, 0, 7]), 8080))));

    let mut client = vec![5u8, 0, 5, 1, 0, 4];
    let v6: Vec<u8> = (0u8..16).collect();
    client.extend_from_slice(&v6);
    client.extend_from_slice(&[0, 22]);
    let (_, end) = handshake(&client);
    assert_eq!(end, Some(Ok((SocksAddr::V6(v6), 22))));
}

#[test]
fn socks_tipo_de_direccion_desconocido_responde_08() {
    let client = [5u8, 1, 0, 5, 1, 0, 2, 0, 0];
    let (written, end) = handshake(&client);
    assert_eq!(&written[2..], &[5, 8, 0, 1, 0, 0, 0, 0, 0, 0]);
    assert_eq!(end, Some(Err("ATYP SOCKS inválido".to_string())));
}

#[test]
fn socks_dominio_invalido_se_decodifica_con_reemplazo() {
    let client = [5u8, 1, 0, 5, 1, 0, 3, 2, 0x68, 0xff, 0, 80];
    let (_, end) = handshake(&client);
    assert_eq!(end, Some(Ok((SocksAddr::Domain("h\u{fffd}".to_string()), 80))));
}

#[test]
fn socks_cada_etapa_pide_su_longitud() {
    assert_eq!(SocksStage::Greeting.want(), 2);
    assert_eq!(SocksStage::Methods(3).want(), 3);
    assert_eq!(SocksStage::Request.want(), 4);
    assert_eq!(SocksStage::DomainLen.want(), 1);
    assert_eq!(SocksStage::Address(AddrKind::V6, 16).want(), 16);
    assert_eq!(SocksStage::Port(SocksAddr::V4(vec![1, 2, 3, 4])).want(), 2);
}
