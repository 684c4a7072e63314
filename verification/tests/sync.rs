use rustty_core::sync::config::{backend_target, BackendTarget, resolve_sync_folder, snapshot_url_checked, SyncBackendKind, SyncConfig, SyncSelective};
use rustty_core::sync::oauth::{
    append_param, authorization_url, configured_value, exchange_outcome, exchange_params, refresh_outcome, refresh_params, token_error, token_missing_refresh_error, RefreshOutcome, TokenResponse, OAUTH_REDIRECT_URI, oauth_callback, CallbackVerdict, google_client_secret_key, oauth_refresh_key, pkce_challenge, query_param,
    OAuthProvider, TokenCache,
};
use rustty_core::sync::remote::{history_to_prune, retry_after, HttpOutcome, RetryAction, 
    is_transient_status, primary_and_duplicates, snapshot_label_checked, snapshot_label_from_filename,
};
use rustty_core::sync::state::{
    significant_clock_skew, SyncItem, SyncState, Timestamp, CLOCK_SKEW_WARN_SECS, FUTURE_TIMESTAMP_MARGIN_SECS,
};
use rustty_core::sync::webdav::{webdav_history_filenames, xml_element_texts};

/// 2026-05-08T12:00:00Z plus `segundos`.
fn ts(segundos: i64) -> Timestamp {
    Timestamp { secs: 1_778_241_600 + segundos, nanos: 0 }
}

fn item_en(segundos: i64, data: &str) -> SyncItem {
    SyncItem { data: data.to_string(), updated_at: ts(segundos), device_id: "device-test".to_string() }
}

fn sync_item(data: &str, device: &str) -> SyncItem {
    SyncItem { data: data.to_string(), updated_at: ts(0), device_id: device.to_string() }
}

#[test]
fn token_cache_respeta_expiracion_y_margen() {
    let s: u128 = 1_000_000_000;
    let now: u128 = 5_000 * s;
    let mut cache = TokenCache::new();
    assert_eq!(cache.get(now), None);

    cache.put("tok".into(), 3600, now);
    assert_eq!(cache.get(now), Some("tok".into()));
    assert_eq!(cache.get(now + (3600 - 61) * s), Some("tok".into()));
    assert_eq!(cache.get(now + (3600 - 59) * s), None);

    cache.put("tok2".into(), 3600, now);
    cache.clear();
    assert_eq!(cache.get(now), None);
}

#[test]
fn primario_de_duplicados_es_determinista() {
    let (primary, extras) = primary_and_duplicates(vec!["zz".into(), "aa".into(), "mm".into()]);
    assert_eq!(primary.as_deref(), Some("aa"));
    assert_eq!(extras, vec!["mm".to_string(), "zz".to_string()]);

    let (primary, extras) = primary_and_duplicates(Vec::new());
    assert!(primary.is_none());
    assert!(extras.is_empty());
}

#[test]
fn primary_follows_string_order() {
    let (primary, extras) =
        primary_and_duplicates(vec!["b".into(), "ab".into(), "a".into(), "B".into(), "ab".into()]);
    assert_eq!(primary.as_deref(), Some("B"));
    assert_eq!(extras, vec!["a".to_string(), "ab".to_string(), "ab".to_string(), "b".to_string()]);
}

#[test]
fn estados_transitorios_reintentables() {
    assert!(is_transient_status(429));
    assert!(is_transient_status(500));
    assert!(is_transient_status(503));
    assert!(!is_transient_status(404));
    assert!(!is_transient_status(401));
    assert!(!is_transient_status(200));
    assert!(!is_transient_status(412));
}

#[test]
fn content_eq_ignora_device_id() {
    let mut a = SyncState::new();
    a.insert_item("prefs:bundle".into(), sync_item("{\"theme\":\"dark\"}", "device-a"));
    let mut b = SyncState::new();
    b.insert_item("prefs:bundle".into(), sync_item("{\"theme\":\"dark\"}", "device-b"));
    assert!(a.content_eq(&b));
}

#[test]
fn content_eq_ignora_los_timestamps() {
    let mut a = SyncState::new();
    a.insert_item("prefs:bundle".into(), item_en(0, "{\"theme\":\"dark\"}"));
    let mut b = SyncState::new();
    b.insert_item("prefs:bundle".into(), item_en(999, "{\"theme\":\"dark\"}"));
    assert!(a.content_eq(&b));
    assert_ne!(a.item("prefs:bundle"), b.item("prefs:bundle"));
}

#[test]
fn content_eq_detecta_cambios_de_dato() {
    let mut a = SyncState::new();
    a.insert_item("prefs:bundle".into(), item_en(0, "{\"theme\":\"dark\"}"));
    let mut b = SyncState::new();
    b.insert_item("prefs:bundle".into(), item_en(0, "{\"theme\":\"light\"}"));
    assert!(!a.content_eq(&b));
}

#[test]
fn content_eq_ignora_timestamp_de_tombstone() {
    let mut a = SyncState::new();
    a.insert_tombstone("profile:x".into(), ts(0));
    let mut b = SyncState::new();
    b.insert_tombstone("profile:x".into(), ts(500));
    assert!(a.content_eq(&b));
}

#[test]
fn content_eq_sees_missing_keys_and_versions() {
    let mut a = SyncState::new();
    a.insert_item("k".into(), item_en(0, "1"));
    let b = SyncState::new();
    assert!(!a.content_eq(&b));
    assert!(!b.content_eq(&a));
    assert!(!SyncState::new().content_eq(&SyncState::with_version(2)));
}

#[test]
fn merge_lww_gana_el_item_mas_nuevo() {
    let mut local = SyncState::new();
    local.insert_item("profile:1".into(), item_en(0, "{\"v\":\"viejo\"}"));
    let mut remoto = SyncState::new();
    remoto.insert_item("profile:1".into(), item_en(10, "{\"v\":\"nuevo\"}"));
    let cambios = local.merge(remoto);
    assert_eq!(cambios, 1);
    assert_eq!(local.item("profile:1").unwrap().data, "{\"v\":\"nuevo\"}");

    let mut local2 = SyncState::new();
    local2.insert_item("profile:1".into(), item_en(10, "{\"v\":\"nuevo\"}"));
    let mut remoto2 = SyncState::new();
    remoto2.insert_item("profile:1".into(), item_en(0, "{\"v\":\"viejo\"}"));
    let cambios2 = local2.merge(remoto2);
    assert_eq!(cambios2, 0);
    assert_eq!(local2.item("profile:1").unwrap().data, "{\"v\":\"nuevo\"}");
}

#[test]
fn merge_tombstone_mas_nuevo_borra_el_item() {
    let mut local = SyncState::new();
    local.insert_item("profile:1".into(), item_en(0, "{\"v\":\"vivo\"}"));
    let mut remoto = SyncState::new();
    remoto.insert_tombstone("profile:1".into(), ts(10));
    let cambios = local.merge(remoto);
    assert_eq!(cambios, 1);
    assert!(local.item("profile:1").is_none());
    assert_eq!(local.tombstone("profile:1"), Some(ts(10)));
}

#[test]
fn merge_item_mas_nuevo_que_tombstone_resucita() {
    let mut local = SyncState::new();
    local.insert_tombstone("profile:1".into(), ts(0));
    let mut remoto = SyncState::new();
    remoto.insert_item("profile:1".into(), item_en(10, "{\"v\":\"renacido\"}"));
    let cambios = local.merge(remoto);
    assert_eq!(cambios, 1);
    assert_eq!(local.item("profile:1").unwrap().data, "{\"v\":\"renacido\"}");
    assert!(local.tombstone("profile:1").is_none());
}

#[test]
fn merge_item_mas_viejo_que_tombstone_no_resucita() {
    let mut local = SyncState::new();
    local.insert_tombstone("profile:1".into(), ts(10));
    let mut remoto = SyncState::new();
    remoto.insert_item("profile:1".into(), item_en(0, "{\"v\":\"zombi\"}"));
    let cambios = local.merge(remoto);
    assert_eq!(cambios, 0);
    assert!(local.item("profile:1").is_none());
    assert_eq!(local.tombstone("profile:1"), Some(ts(10)));
}

#[test]
fn merge_ties_keep_the_local_value() {
    let mut local = SyncState::new();
    local.insert_item("k".into(), item_en(5, "\"local\""));
    let mut remoto = SyncState::new();
    remoto.insert_item("k".into(), item_en(5, "\"remoto\""));
    remoto.insert_tombstone("otro".into(), ts(1));
    assert_eq!(local.merge(remoto), 1);
    assert_eq!(local.item("k").unwrap().data, "\"local\"");
    assert_eq!(local.tombstone("otro"), Some(ts(1)));
}

#[test]
fn clamp_acota_timestamps_futuros() {
    let now = ts(0);
    let ceiling = ts(FUTURE_TIMESTAMP_MARGIN_SECS);

    let mut st = SyncState::new();
    st.insert_item("profile:ok".into(), item_en(-100, "{\"v\":1}"));
    st.insert_item("profile:futuro".into(), item_en(FUTURE_TIMESTAMP_MARGIN_SECS + 3_600, "{\"v\":2}"));
    st.insert_tombstone("theme:futuro".into(), ts(FUTURE_TIMESTAMP_MARGIN_SECS + 999));
    st.insert_tombstone("theme:ok".into(), ts(-5));

    let clamped = st.clamp_future_timestamps(now);
    assert_eq!(clamped, 2);
    assert_eq!(st.item("profile:futuro").unwrap().updated_at, ceiling);
    assert_eq!(st.item("profile:ok").unwrap().updated_at, ts(-100));
    assert_eq!(st.tombstone("theme:futuro"), Some(ceiling));
    assert_eq!(st.tombstone("theme:ok"), Some(ts(-5)));
    assert_eq!(st.clamp_future_timestamps(now), 0);
}

#[test]
fn prune_tombstones_respeta_retencion() {
    let now = ts(0);
    let mut st = SyncState::new();
    st.insert_tombstone("profile:viejo".into(), ts(-120 * 86_400));
    st.insert_tombstone("profile:reciente".into(), ts(-10 * 86_400));

    assert_eq!(st.prune_tombstones(now, 0), 0);
    assert_eq!(st.tombstones_len(), 2);

    assert_eq!(st.prune_tombstones(now, 90), 1);
    assert!(st.tombstone("profile:reciente").is_some());
    assert!(st.tombstone("profile:viejo").is_none());
    assert_eq!(st.tombstones_len(), 1);
}

#[test]
fn merge_es_idempotente() {
    let remoto = || {
        let mut r = SyncState::new();
        r.insert_item("profile:1".into(), item_en(10, "{\"v\":\"b\"}"));
        r.insert_tombstone("profile:3".into(), ts(5));
        r
    };
    let mut local = SyncState::new();
    local.insert_item("profile:1".into(), item_en(0, "{\"v\":\"a\"}"));
    local.insert_tombstone("profile:2".into(), ts(0));

    let primera = local.merge(remoto());
    assert!(primera > 0);
    let tras_primera = local.entries();

    let segunda = local.merge(remoto());
    assert_eq!(segunda, 0);
    assert_eq!(local.entries(), tras_primera);
}

#[test]
fn propfind_parser_tolera_variantes() {
    let nextcloud = r#"<?xml version="1.0"?>
        <d:multistatus xmlns:d="DAV:">
          <d:response><d:href>/remote.php/dav/files/u/Rustty/rustty-sync-history/</d:href></d:response>
          <d:response><d:href>/remote.php/dav/files/u/Rustty/rustty-sync-history/rustty-sync-20260701T101010Z.bin</d:href></d:response>
        </d:multistatus>"#;
    assert_eq!(
        webdav_history_filenames(nextcloud),
        vec!["rustty-sync-20260701T101010Z.bin".to_string()]
    );

    let iis = r#"<D:multistatus xmlns:D="DAV:">
        <D:response><D:HREF xml:lang="en">/dav/rustty-sync-history/rustty-sync-20260702T090000Z.bin</D:HREF></D:response>
    </D:multistatus>"#;
    assert_eq!(
        webdav_history_filenames(iis),
        vec!["rustty-sync-20260702T090000Z.bin".to_string()]
    );

    let raro = r#"<multistatus>
        <response><href/></response>
        <response><href><![CDATA[/dav/hist/rustty-sync-20260703T080000Z.bin]]></href></response>
        <response><href>/dav/hist/rustty-sync-20260704T070000Z%2Ebin</href></response>
        <response><href>/dav/hist/otro-fichero.txt</href></response>
    </multistatus>"#;
    assert_eq!(
        webdav_history_filenames(raro),
        vec![
            "rustty-sync-20260703T080000Z.bin".to_string(),
            "rustty-sync-20260704T070000Z.bin".to_string(),
        ]
    );

    assert!(webdav_history_filenames("").is_empty());
    assert!(webdav_history_filenames("<no-xml").is_empty());
    assert!(webdav_history_filenames("<href>sin cierre").is_empty());
}

#[test]
fn xml_texts_of_elements() {
    assert_eq!(
        xml_element_texts("<a:x>uno</a:x><y>no</y><X/><x>dos<b>tres</b></x>", "x"),
        vec!["uno".to_string(), "".to_string(), "dostres".to_string()]
    );
    assert_eq!(xml_element_texts("<x>sin fin", "x"), Vec::<String>::new());
}

#[test]
fn oauth_provider_names() {
    assert_eq!(OAuthProvider::parse("google_drive"), Ok(OAuthProvider::GoogleDrive));
    assert_eq!(OAuthProvider::parse("googledrive"), Ok(OAuthProvider::GoogleDrive));
    assert_eq!(OAuthProvider::parse("google"), Ok(OAuthProvider::GoogleDrive));
    assert_eq!(
        OAuthProvider::parse("dropbox"),
        Err("Proveedor OAuth no soportado: dropbox".to_string())
    );
    assert_eq!(OAuthProvider::GoogleDrive.key_part(), "google_drive");
    assert_eq!(oauth_refresh_key(OAuthProvider::GoogleDrive), "sync:oauth:google_drive:refresh_token");
    assert_eq!(google_client_secret_key(), "sync:oauth:google_drive:client_secret");
}

#[test]
fn url_parameters_round_trip() {
    let mut url = String::from("https://accounts.example/auth");
    append_param(&mut url, "redirect_uri", "http://127.0.0.1:1/cb");
    append_param(&mut url, "scope", "a b");
    assert_eq!(
        url,
        "https://accounts.example/auth?redirect_uri=http%3A%2F%2F127.0.0.1%3A1%2Fcb&scope=a%20b"
    );
    assert_eq!(query_param("code=abc&state=x%2Fy", "state"), Some("x/y".to_string()));
    assert_eq!(query_param("code=abc&state=x", "code"), Some("abc".to_string()));
    assert_eq!(query_param("flag&code=1", "flag"), Some("".to_string()));
    assert_eq!(query_param("code=1&code=2", "code"), Some("1".to_string()));
    assert_eq!(query_param("a=1", "b"), None);
    assert_eq!(query_param("bad=%FF", "bad"), None);
}

#[test]
fn pkce_challenge_of_the_rfc_example() {
    assert_eq!(
        pkce_challenge(b"dBjftJeZ4CVP-mB92K27uhbUJU1p1r_wW1gFWFOEjXk"),
        "E9Melhoa2OwvFrEMTJguCHaoeK1t8URWbuGJSstw-cM"
    );
}

#[test]
fn snapshot_labels() {
    assert_eq!(
        snapshot_label_from_filename("rustty-sync-20260701T101010Z.bin"),
        "2026-07-01 10:10:10 UTC"
    );
    assert_eq!(snapshot_label_from_filename("rustty-sync-manual.bin"), "manual");
    assert_eq!(snapshot_label_from_filename("otro.bin"), "otro.bin");
    assert_eq!(snapshot_label_from_filename("20260701T101010Z"), "2026-07-01 10:10:10 UTC");
    assert_eq!(snapshot_label_from_filename("ññéabTñéxyz"), "ññ-é-ab ñ:é:xy UTC");
}

#[test]
fn sync_settings_defaults_and_folders() {
    let c = SyncConfig::default();
    assert!(!c.enabled);
    assert_eq!(c.backend, SyncBackendKind::Off);
    assert_eq!(c.auto_interval_seconds, 300);
    assert_eq!(c.history_keep, 30);
    assert_eq!(c.tombstone_retention_days, 90);
    assert!(c.sync_on_exit);
    assert!(!SyncSelective::default().secrets);
    assert!(SyncSelective::default().notes);

    let mut local = c.clone();
    local.backend = SyncBackendKind::Local;
    local.local.folder = "  /nas/rustty ".into();
    assert_eq!(resolve_sync_folder(&local, Ok("x".into())), Ok(Some("/nas/rustty".to_string())));
    local.local.folder = "   ".into();
    assert_eq!(resolve_sync_folder(&local, Ok("x".into())), Ok(None));
    let mut icloud = c.clone();
    icloud.backend = SyncBackendKind::Icloud;
    assert_eq!(resolve_sync_folder(&icloud, Ok("/h/Rustty".into())), Ok(Some("/h/Rustty".to_string())));
    assert_eq!(resolve_sync_folder(&icloud, Err("sin home".into())), Err("sin home".to_string()));
    assert_eq!(resolve_sync_folder(&c, Ok("x".into())), Ok(None));

    assert_eq!(
        snapshot_url_checked("https://dav.example/f/rustty-sync.bin", "rustty-sync-20260101T000000Z.bin"),
        Ok("https://dav.example/f/rustty-sync-history/rustty-sync-20260101T000000Z.bin".to_string())
    );
    assert_eq!(
        snapshot_url_checked("https://dav.example/f/rustty-sync.bin", "../x.bin"),
        Err("Identificador de snapshot inválido".to_string())
    );
    assert_eq!(
        snapshot_url_checked("sin-barra", "rustty-sync-a.bin"),
        Err("URL WebDAV sin ruta base".to_string())
    );
}

#[test]
fn history_to_prune_borra_los_mas_antiguos() {
    let names: Vec<String> = vec![
        "rustty-sync-20260103T000000Z.bin".to_string(),
        "rustty-sync-20260101T000000Z.bin".to_string(),
        "rustty-sync-20260102T000000Z.bin".to_string(),
    ];
    assert_eq!(
        history_to_prune(names.clone(), 1),
        vec![
            "rustty-sync-20260101T000000Z.bin".to_string(),
            "rustty-sync-20260102T000000Z.bin".to_string(),
        ]
    );
    assert!(history_to_prune(names.clone(), 3).is_empty());
    assert!(history_to_prune(names.clone(), 30).is_empty());
    assert_eq!(history_to_prune(names, 0).len(), 3);
}

#[test]
fn reintenta_solo_lo_transitorio_y_hasta_agotar_esperas() {
    assert_eq!(retry_after(0, HttpOutcome::Status(200)), RetryAction::Return);
    assert_eq!(retry_after(0, HttpOutcome::Status(404)), RetryAction::Return);
    assert_eq!(retry_after(0, HttpOutcome::Status(503)), RetryAction::Wait(500));
    assert_eq!(retry_after(1, HttpOutcome::Status(429)), RetryAction::Wait(2000));
    assert_eq!(retry_after(2, HttpOutcome::Status(503)), RetryAction::Return);
    assert_eq!(retry_after(0, HttpOutcome::Connectivity), RetryAction::Wait(500));
    assert_eq!(retry_after(2, HttpOutcome::Connectivity), RetryAction::Fail);
    assert_eq!(retry_after(0, HttpOutcome::OtherError), RetryAction::Fail);
}

#[test]
fn callback_oauth_devuelve_el_codigo_con_el_state_correcto() {
    let req = b"GET /oauth/callback?code=a%2Fb&state=xyz HTTP/1.1\r\nHost: 127.0.0.1\r\n\r\n";
    assert_eq!(oauth_callback(req, "xyz"), CallbackVerdict::Code("a/b".to_string()));
    assert_eq!(oauth_callback(req, "otro"), CallbackVerdict::ForeignState);
}

#[test]
fn callback_oauth_ignora_otras_peticiones_y_errores() {
    assert_eq!(oauth_callback(b"GET /favicon.ico HTTP/1.1\r\n\r\n", "s"), CallbackVerdict::NotFound);
    assert_eq!(oauth_callback(b"", "s"), CallbackVerdict::NotFound);
    assert_eq!(
        oauth_callback(b"GET /oauth/callback?state=s&error=access_denied HTTP/1.1\r\n", "s"),
        CallbackVerdict::Error("OAuth error: access_denied".to_string())
    );
    assert_eq!(
        oauth_callback(b"GET /oauth/callback?state=s HTTP/1.1\r\n", "s"),
        CallbackVerdict::NoCode
    );
    assert_eq!(
        oauth_callback(b"GET /oauth/callback HTTP/1.1\r\n", ""),
        CallbackVerdict::NoCode
    );
}

fn token_response(
    access: Option<&str>,
    refresh: Option<&str>,
    expires: Option<u64>,
    error: Option<&str>,
    description: Option<&str>,
) -> TokenResponse {
    TokenResponse {
        access_token: access.map(str::to_string),
        refresh_token: refresh.map(str::to_string),
        expires_in: expires,
        error: error.map(str::to_string),
        error_description: description.map(str::to_string),
    }
}

#[test]
fn url_de_autorizacion_con_pkce_y_consentimiento() {
    let url = authorization_url(OAuthProvider::GoogleDrive, "cid", OAUTH_REDIRECT_URI, "st", "ch");
    assert_eq!(
        url,
        "https://accounts.google.com/o/oauth2/v2/auth?response_type=code&client_id=cid\
         &redirect_uri=http%3A%2F%2F127.0.0.1%3A53682%2Foauth%2Fcallback&state=st\
         &code_challenge=ch&code_challenge_method=S256\
         &scope=https%3A%2F%2Fwww.googleapis.com%2Fauth%2Fdrive.appdata\
         &access_type=offline&prompt=consent"
    );
}

#[test]
fn valor_configurado_recortado_o_respaldo() {
    assert_eq!(configured_value("  abc ", Some("x".into())), Some("abc".to_string()));
    assert_eq!(configured_value("   ", Some("x".into())), Some("x".to_string()));
    assert_eq!(configured_value("", None), None);
}

#[test]
fn errores_de_token_eligen_la_mejor_razon() {
    let t = token_response(None, None, None, Some("bad"), Some("detalle"));
    assert_eq!(token_error(OAuthProvider::GoogleDrive, &t), "google_drive OAuth: detalle");
    let t = token_response(None, None, None, Some("bad"), None);
    assert_eq!(token_error(OAuthProvider::GoogleDrive, &t), "google_drive OAuth: bad");
    let t = token_response(None, None, None, None, None);
    assert_eq!(
        token_error(OAuthProvider::GoogleDrive, &t),
        "google_drive OAuth: respuesta OAuth sin access_token"
    );
    assert_eq!(
        token_missing_refresh_error(OAuthProvider::GoogleDrive, &t),
        "google_drive OAuth: respuesta OAuth sin refresh_token"
    );
}

#[test]
fn refresco_de_token_distingue_revocacion() {
    let ok = refresh_outcome(OAuthProvider::GoogleDrive, token_response(Some("at"), None, None, None, None));
    assert_eq!(ok, RefreshOutcome::Token { access_token: "at".into(), expires_in_secs: 3600 });
    let ok = refresh_outcome(OAuthProvider::GoogleDrive, token_response(Some("at"), None, Some(60), None, None));
    assert_eq!(ok, RefreshOutcome::Token { access_token: "at".into(), expires_in_secs: 60 });
    let revoked = refresh_outcome(
        OAuthProvider::GoogleDrive,
        token_response(None, None, None, Some("invalid_grant"), Some("Token has been expired")),
    );
    assert!(matches!(revoked, RefreshOutcome::Revoked(m) if m.contains("revocada")));
    let failed = refresh_outcome(OAuthProvider::GoogleDrive, token_response(None, None, None, Some("x"), None));
    assert_eq!(failed, RefreshOutcome::Failed("google_drive OAuth: x".into()));
    assert_eq!(
        exchange_outcome(OAuthProvider::GoogleDrive, token_response(Some("a"), Some("r"), None, None, None)),
        Ok("r".to_string())
    );
    assert!(exchange_outcome(OAuthProvider::GoogleDrive, token_response(Some("a"), None, None, None, None)).is_err());
}

#[test]
fn formularios_del_endpoint_de_tokens() {
    let p = refresh_params("rt", "cid", Some("sec"));
    let p: Vec<(&str, &str)> = p.iter().map(|(k, v)| (k.as_str(), v.as_str())).collect();
    assert_eq!(
        p,
        vec![("grant_type", "refresh_token"), ("refresh_token", "rt"), ("client_id", "cid"), ("client_secret", "sec")]
    );
    let p = exchange_params("c", "ru", "v", "cid", None);
    let p: Vec<(&str, &str)> = p.iter().map(|(k, v)| (k.as_str(), v.as_str())).collect();
    assert_eq!(
        p,
        vec![
            ("grant_type", "authorization_code"),
            ("code", "c"),
            ("redirect_uri", "ru"),
            ("code_verifier", "v"),
            ("client_id", "cid"),
        ]
    );
}

#[test]
fn backend_segun_la_configuracion() {
    let mut c = SyncConfig::default();
    assert_eq!(backend_target(&c, Err("x".into())), Err("No hay backend seleccionado".to_string()));
    c.backend = SyncBackendKind::Local;
    assert_eq!(
        backend_target(&c, Err("x".into())),
        Err("Carpeta local de sincronización no configurada".to_string())
    );
    c.local.folder = "/home/u/Sync".into();
    assert_eq!(
        backend_target(&c, Err("x".into())),
        Ok(BackendTarget::Folder("/home/u/Sync/rustty-sync.bin".into()))
    );
    c.local.folder = "/home/u/Sync/".into();
    assert_eq!(
        backend_target(&c, Err("x".into())),
        Ok(BackendTarget::Folder("/home/u/Sync/rustty-sync.bin".into()))
    );
    c.backend = SyncBackendKind::Icloud;
    assert_eq!(
        backend_target(&c, Ok("/icloud".into())),
        Ok(BackendTarget::Folder("/icloud/rustty-sync.bin".into()))
    );
    assert_eq!(backend_target(&c, Err("sin iCloud".into())), Err("sin iCloud".to_string()));
    c.backend = SyncBackendKind::Webdav;
    assert_eq!(backend_target(&c, Err("x".into())), Err("URL WebDAV no configurada".to_string()));
    c.webdav.url = "https://dav.example.com/rustty//".into();
    c.webdav.username = "ana".into();
    assert_eq!(
        backend_target(&c, Err("x".into())),
        Ok(BackendTarget::WebDav {
            url: "https://dav.example.com/rustty/rustty-sync.bin".into(),
            username: "ana".into()
        })
    );
    c.backend = SyncBackendKind::GoogleDrive;
    assert_eq!(backend_target(&c, Err("x".into())), Ok(BackendTarget::GoogleDrive));
}

#[test]
fn el_estado_por_defecto_esta_vacio() {
    let st = SyncState::default();
    assert_eq!(st.version(), 1);
    assert_eq!(st.entry_count(), 0);
    assert!(st.content_eq(&SyncState::new()));
}

#[test]
fn etiqueta_de_snapshot_comprobada() {
    assert_eq!(
        snapshot_label_checked("rustty-sync-20260512T093000Z.bin"),
        Some("2026-05-12 09:30:00 UTC".to_string())
    );
    assert_eq!(snapshot_label_checked("otro.bin"), Some("otro.bin".to_string()));
    // 16 bytes with a `T` at byte 8, but `ñ` straddles byte 4: not cuttable.
    assert_eq!(snapshot_label_checked("rustty-sync-202ñ512T093000Z.bin"), None);
}

#[test]
fn desvio_de_reloj_solo_desde_el_umbral() {
    let at = |secs: i64, nanos: u32| Timestamp { secs: 1_778_241_600 + secs, nanos };
    assert_eq!(CLOCK_SKEW_WARN_SECS, 300);
    assert_eq!(significant_clock_skew(at(0, 0), at(300, 0)), Some(300));
    assert_eq!(significant_clock_skew(at(0, 0), at(299, 0)), None);
    assert_eq!(significant_clock_skew(at(300, 0), at(0, 0)), Some(-300));
    assert_eq!(significant_clock_skew(at(0, 0), at(0, 0)), None);
    assert_eq!(significant_clock_skew(at(0, 0), at(3600, 0)), Some(3600));
}

#[test]
fn desvio_de_reloj_trunca_hacia_cero() {
    let at = |secs: i64, nanos: u32| Timestamp { secs: 1_778_241_600 + secs, nanos };
    // 299,9 s: por debajo del umbral.
    assert_eq!(significant_clock_skew(at(0, 500_000_000), at(300, 400_000_000)), None);
    assert_eq!(significant_clock_skew(at(300, 400_000_000), at(0, 500_000_000)), None);
    // 300,1 s y -300,000000001 s: se truncan a ±300.
    assert_eq!(significant_clock_skew(at(0, 400_000_000), at(300, 500_000_000)), Some(300));
    assert_eq!(significant_clock_skew(at(300, 0), at(-1, 999_999_999)), Some(-300));
}

fn drive_file(name: Option<&str>, id: Option<&str>, modified: Option<&str>) -> rustty_core::sync::remote::DriveFile {
    rustty_core::sync::remote::DriveFile {
        name: name.map(|s| s.to_string()),
        id: id.map(|s| s.to_string()),
        modified_time: modified.map(|s| s.to_string()),
    }
}

fn entry(id: &str, label: &str, modified: Option<&str>) -> rustty_core::sync::config::SnapshotEntry {
    rustty_core::sync::config::SnapshotEntry {
        id: id.to_string(),
        label: label.to_string(),
        modified: modified.map(|s| s.to_string()),
    }
}

#[test]
fn historico_de_drive_filtra_etiqueta_y_ordena() {
    let files = vec![
        drive_file(Some("rustty-sync-history-rustty-sync-20250102T030405Z.bin"), Some("b"), Some("2025-01-02T03:04:05Z")),
        drive_file(Some("rustty-sync-history-rustty-sync-20250203T000000Z.bin"), Some("a"), None),
        drive_file(None, Some("c"), None),
        drive_file(Some("rustty-sync-history-rustty-sync-20250101T000000Z.bin"), None, None),
        drive_file(Some("otro.bin"), Some("d"), None),
        drive_file(Some("rustty-sync-history-rustty-sync-20250203T000000Z.bin"), Some("e"), None),
    ];
    let out = rustty_core::sync::remote::drive_snapshot_entries(files);
    assert_eq!(
        out,
        vec![
            entry("d", "otro.bin", None),
            entry("a", "2025-02-03 00:00:00 UTC", None),
            entry("e", "2025-02-03 00:00:00 UTC", None),
            entry("b", "2025-01-02 03:04:05 UTC", Some("2025-01-02T03:04:05Z")),
        ]
    );
    assert!(rustty_core::sync::remote::drive_snapshot_entries(vec![]).is_empty());
}

#[test]
fn historico_webdav_del_mas_nuevo_al_mas_viejo() {
    let names = vec![
        "rustty-sync-20250101T000000Z.bin".to_string(),
        "rustty-sync-x.bin".to_string(),
        "rustty-sync-20250301T101010Z.bin".to_string(),
    ];
    let out = rustty_core::sync::remote::webdav_snapshot_entries(names);
    assert_eq!(
        out,
        vec![
            entry("rustty-sync-x.bin", "x", None),
            entry("rustty-sync-20250301T101010Z.bin", "2025-03-01 10:10:10 UTC", None),
            entry("rustty-sync-20250101T000000Z.bin", "2025-01-01 00:00:00 UTC", None),
        ]
    );
}
