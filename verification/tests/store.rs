use rustty_core::store::{
    check_kind, items_value, migration_backup_name, needs_migration, readable_version, shape_of,
    store_text_ok, Shape, StoreError, CURRENT_VERSION,
};

#[test]
fn reconoce_las_dos_formas_y_rechaza_la_basura() {
    assert_eq!(shape_of("[]"), Some(Shape::Legacy));
    assert_eq!(
        shape_of(r#"{"version":2,"kind":"profiles","items":[]}"#),
        Some(Shape::Versioned(2))
    );
    assert_eq!(shape_of(r#"{"version":99,"items":[]}"#), Some(Shape::Versioned(99)));
    assert_eq!(shape_of("{ no soy json"), None);
    assert_eq!(shape_of(r#"{"version":2}"#), None, "un envelope sin items");
}

#[test]
fn odd_envelopes_are_not_stores() {
    assert_eq!(shape_of(r#"{"version":-1,"items":[]}"#), None);
    assert_eq!(shape_of(r#"{"version":4294967296,"items":[]}"#), None);
    assert_eq!(shape_of(r#"{"version":2,"items":{}}"#), None);
    assert_eq!(shape_of("42"), None);
    assert!(store_text_ok("   "));
    assert!(store_text_ok("[]"));
    assert!(!store_text_ok("basura"));
}

#[test]
fn versions_this_build_reads() {
    assert_eq!(readable_version(Some(Shape::Legacy), "profiles"), Ok(1));
    assert_eq!(readable_version(Some(Shape::Versioned(2)), "profiles"), Ok(2));
    match readable_version(Some(Shape::Versioned(99)), "profiles") {
        Err(StoreError::Store(msg)) => {
            assert!(msg.contains("v99"));
            assert_eq!(
                msg,
                "«profiles» está en formato v99 y esta versión de Rustty entiende hasta la v2. \
                 Lo ha escrito una versión más reciente: actualiza Rustty para no perder estos datos."
            );
        }
        other => panic!("{other:?}"),
    }
    assert_eq!(
        readable_version(None, "scripts"),
        Err(StoreError::Serialization("«scripts» no tiene un formato reconocible".to_string()))
    );
    assert!(needs_migration(1));
    assert!(!needs_migration(CURRENT_VERSION));
}

#[test]
fn a_store_of_another_kind_is_refused() {
    assert_eq!(check_kind("", "profiles"), Ok(()));
    assert_eq!(check_kind("profiles", "profiles"), Ok(()));
    assert_eq!(
        check_kind("credentials", "profiles"),
        Err(StoreError::Store(
            "El almacén «profiles» contiene datos de «credentials»: no se carga para no sobrescribirlo."
                .to_string()
        ))
    );
    assert_eq!(migration_backup_name("profiles.json", 1, 1700000000), "profiles.json.v1-1700000000.bak");
}

#[test]
fn un_formato_futuro_no_se_lee_ni_se_toca() {
    let futuro = r#"{"version":99,"kind":"profiles","items":[{"id":"del futuro"}]}"#;
    let err = readable_version(shape_of(futuro), "profiles").expect_err("no debe leerse");
    assert!(matches!(&err, StoreError::Store(msg) if msg.contains("v99")), "{err:?}");
}

#[test]
fn no_carga_un_store_de_otro_tipo() {
    let text = r#"{"version":2,"kind":"credentials","items":[]}"#;
    assert_eq!(readable_version(shape_of(text), "profiles"), Ok(2));
    let err = check_kind("credentials", "profiles").expect_err("kind cruzado");
    assert!(matches!(err, StoreError::Store(_)), "{err:?}");
}

#[test]
fn un_store_vacio_es_una_lista_vacia() {
    assert!(store_text_ok(""));
    assert!(store_text_ok("  \n"));
    assert!(!store_text_ok("{ roto"));
}

#[test]
fn items_value_lee_el_array_pelado_y_el_envelope() {
    assert_eq!(
        items_value(r#"[1, {"a": 2}]"#),
        Some(vec!["1".to_string(), r#"{"a":2}"#.to_string()])
    );
    assert_eq!(
        items_value(r#"{"version":2,"kind":"profiles","items":[{"id":"x"},"y"]}"#),
        Some(vec![r#"{"id":"x"}"#.to_string(), r#""y""#.to_string()])
    );
    assert_eq!(items_value(r#"{"version":2,"items":[]}"#), Some(vec![]));
    assert_eq!(items_value("[]"), Some(vec![]));
}

#[test]
fn items_value_rechaza_lo_que_no_trae_items() {
    assert_eq!(items_value("3"), None);
    assert_eq!(items_value(r#""texto""#), None);
    assert_eq!(items_value("{"), None);
    assert_eq!(items_value(""), None);
    assert_eq!(items_value(r#"{"version":2}"#), None);
    assert_eq!(items_value(r#"{"items":{"a":1}}"#), None);
    assert_eq!(items_value(r#"{"items":3}"#), None);
}
