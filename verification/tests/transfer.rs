use rustty_core::transfer::rate::{burst_for, MIN_BURST};
use rustty_core::transfer::resume::{meta_path, plan, PartMeta, ResumePlan, META_SUFFIX};
use rustty_core::transfer::slots::SlotState;
use rustty_core::transfer::traffic::{should_emit_traffic, TrafficMeter, TRAFFIC_MIN_BYTES, TRAFFIC_MIN_INTERVAL_NANOS};
use std::time::Duration;

#[test]
fn sin_techo_nunca_se_llena() {
    let mut st = SlotState::new(0);
    for _ in 0..1_000 {
        assert!(st.try_take());
    }
    assert!(!st.would_wait());
    assert_eq!(st.in_use(), 1_000);
}

#[test]
fn el_techo_corta_en_el_numero_pedido() {
    let mut st = SlotState::new(2);
    assert!(st.try_take());
    assert!(st.try_take());
    assert!(!st.try_take());
    assert!(st.would_wait());

    st.release();
    assert!(!st.would_wait());
    assert!(st.try_take());
}

#[test]
fn soltar_de_mas_no_regala_huecos() {
    let mut st = SlotState::new(1);
    st.release();
    st.release();
    assert_eq!(st.in_use(), 0);
    assert!(st.try_take());
    assert!(!st.try_take());
}

#[test]
fn bajar_el_techo_no_aborta_lo_que_ya_corre() {
    let mut st = SlotState::new(4);
    assert!(st.try_take());
    assert!(st.try_take());
    assert!(st.try_take());
    st.set_limit(1);
    assert!(st.would_wait());
    assert!(!st.try_take());
    st.release();
    st.release();
    assert!(st.would_wait());
    st.release();
    assert!(st.try_take());
}

#[test]
fn release_undoes_a_take() {
    let mut st = SlotState::new(3);
    st.try_take();
    let before = st;
    assert!(st.try_take());
    st.release();
    assert_eq!(st, before);
    assert_eq!(st.limit(), 3);
}

#[test]
fn la_rafaga_nunca_baja_del_chunk() {
    assert_eq!(burst_for(1_024), MIN_BURST);
    assert_eq!(burst_for(0), MIN_BURST);
    assert_eq!(burst_for(4 * 1024 * 1024), 2 * 1024 * 1024);
}

#[test]
fn burst_boundaries() {
    assert_eq!(MIN_BURST, 256 * 1024);
    assert_eq!(burst_for(2 * MIN_BURST), MIN_BURST);
    assert_eq!(burst_for(2 * MIN_BURST + 2), MIN_BURST + 1);
    assert_eq!(burst_for(u64::MAX), u64::MAX / 2);
}

fn meta() -> PartMeta {
    PartMeta {
        remote: "/srv/datos/iso.img".to_string(),
        size: 1_000,
        mtime: Some(1_700_000_000),
    }
}

#[test]
fn sin_trozo_previo_se_empieza_de_cero() {
    assert_eq!(
        plan(Some(&meta()), 0, "/srv/datos/iso.img", 1_000, Some(1_700_000_000)),
        ResumePlan::Fresh
    );
}

#[test]
fn un_trozo_a_medias_del_mismo_fichero_continua() {
    assert_eq!(
        plan(Some(&meta()), 400, "/srv/datos/iso.img", 1_000, Some(1_700_000_000)),
        ResumePlan::Continue(400)
    );
}

#[test]
fn un_trozo_completo_solo_hay_que_publicarlo() {
    assert_eq!(
        plan(Some(&meta()), 1_000, "/srv/datos/iso.img", 1_000, Some(1_700_000_000)),
        ResumePlan::Complete
    );
}

#[test]
fn sin_ficha_no_se_reanuda() {
    assert_eq!(
        plan(None, 400, "/srv/datos/iso.img", 1_000, Some(1_700_000_000)),
        ResumePlan::Fresh
    );
}

#[test]
fn si_el_fichero_remoto_cambio_se_empieza_de_cero() {
    let m = meta();
    assert_eq!(
        plan(Some(&m), 400, "/srv/otro/iso.img", 1_000, Some(1_700_000_000)),
        ResumePlan::Fresh
    );
    assert_eq!(
        plan(Some(&m), 400, "/srv/datos/iso.img", 2_000, Some(1_700_000_000)),
        ResumePlan::Fresh
    );
    assert_eq!(
        plan(Some(&m), 400, "/srv/datos/iso.img", 1_000, Some(1_700_000_999)),
        ResumePlan::Fresh
    );
}

#[test]
fn un_servidor_sin_fecha_se_conforma_con_ruta_y_tamano() {
    let sin_fecha = PartMeta {
        mtime: None,
        ..meta()
    };
    assert_eq!(
        plan(Some(&sin_fecha), 400, "/srv/datos/iso.img", 1_000, None),
        ResumePlan::Continue(400)
    );
    assert_eq!(
        plan(Some(&meta()), 400, "/srv/datos/iso.img", 1_000, None),
        ResumePlan::Fresh
    );
}

#[test]
fn un_trozo_mas_largo_que_el_origen_es_basura() {
    assert_eq!(
        plan(Some(&meta()), 1_500, "/srv/datos/iso.img", 1_000, Some(1_700_000_000)),
        ResumePlan::Fresh
    );
    assert_eq!(META_SUFFIX, ".meta");
}

#[test]
fn no_emite_antes_del_intervalo_con_pocos_bytes() {
    assert!(!should_emit_traffic(Duration::from_millis(50).as_nanos(), 4 * 1024));
    assert!(!should_emit_traffic(Duration::ZERO.as_nanos(), 0));
}

#[test]
fn emite_al_cumplirse_el_intervalo() {
    assert!(should_emit_traffic(TRAFFIC_MIN_INTERVAL_NANOS, 0));
    assert!(should_emit_traffic(Duration::from_millis(300).as_nanos(), 1));
}

#[test]
fn emite_al_superar_el_umbral_de_bytes_aunque_no_pase_el_tiempo() {
    assert!(should_emit_traffic(Duration::from_millis(1).as_nanos(), TRAFFIC_MIN_BYTES));
    assert!(should_emit_traffic(Duration::ZERO.as_nanos(), TRAFFIC_MIN_BYTES + 1));
}

#[test]
fn traffic_thresholds_are_exact() {
    assert_eq!(TRAFFIC_MIN_INTERVAL_NANOS, Duration::from_millis(250).as_nanos());
    assert_eq!(TRAFFIC_MIN_BYTES, 512 * 1024);
    assert!(!should_emit_traffic(Duration::from_millis(250).as_nanos() - 1, TRAFFIC_MIN_BYTES - 1));
}

#[test]
fn la_ficha_va_junto_al_temporal() {
    assert_eq!(
        meta_path("/home/u/Descargas/informe.pdf.rustty-part"),
        "/home/u/Descargas/informe.pdf.rustty-part.meta"
    );
    assert_eq!(meta_path("/"), "/descarga.meta");
}

#[test]
fn la_ficha_vive_junto_al_temporal() {
    assert_eq!(
        meta_path("/tmp/descargas/iso.img.rustty-part"),
        "/tmp/descargas/iso.img.rustty-part.meta"
    );
}

#[test]
fn el_contador_de_trafico_coalesce_eventos() {
    let mut m = TrafficMeter::new();
    assert!(!m.add_up(16_384, 1_000_000));
    assert!(!m.add_down(16_384, 2_000_000));
    assert!(m.add_down(0, 250_000_000));
    assert_eq!(m.totals(), (16_384, 16_384));
    assert!(!m.add_up(1, 0));
    assert!(m.add_up(TRAFFIC_MIN_BYTES, 0));
    assert!(!m.add_up(u64::MAX, 0) || m.totals().0 == u64::MAX);
    assert_eq!(m.totals().0, u64::MAX);
}
