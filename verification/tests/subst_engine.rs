use rustty_core::subst::engine::{parse, render_markers, substitute};
use rustty_core::subst::types::{DefaultResolver, InternalVar, Marker, Resolver, SubstContext};

fn ctx() -> SubstContext {
    SubstContext {
        host: "192.168.1.10".to_string(),
        port: 2222,
        user: "ada".to_string(),
        profile_name: "Servidor Pruebas".to_string(),
        workspace: "ws-1".to_string(),
    }
}

fn resolver() -> DefaultResolver {
    DefaultResolver::new(ctx(), vec![])
}

#[test]
fn literal_puro() {
    assert_eq!(parse("hola mundo"), vec![Marker::Literal("hola mundo".into())]);
    assert_eq!(substitute("hola mundo", &resolver()), "hola mundo");
}

#[test]
fn un_interno() {
    assert_eq!(parse("${host}"), vec![Marker::Internal(InternalVar::Host)]);
    assert_eq!(substitute("ssh ${user}@${host}", &resolver()), "ssh ada@192.168.1.10");
    assert_eq!(substitute("puerto ${port}", &resolver()), "puerto 2222");
    assert_eq!(
        substitute("${profileName} en ${workspace}", &resolver()),
        "Servidor Pruebas en ws-1"
    );
}

#[test]
fn varios_marcadores_en_una_linea() {
    let out = substitute("${user}@${host}:${port}", &resolver());
    assert_eq!(out, "ada@192.168.1.10:2222");
}

#[test]
fn internos_date_time_no_vacios() {
    let date = substitute("${date}", &resolver());
    let time = substitute("${time}", &resolver());
    assert_eq!(date.len(), "YYYY-MM-DD".len());
    assert_eq!(time.len(), "HH:MM:SS".len());
    assert!(date.contains('-'));
    assert!(time.contains(':'));
}

#[test]
fn escape_produce_literal() {
    assert_eq!(parse("$${host}"), vec![Marker::Literal("${host}".into())]);
    assert_eq!(substitute("$${host}", &resolver()), "${host}");
    assert_eq!(
        substitute("literal $${host} real ${host}", &resolver()),
        "literal ${host} real 192.168.1.10"
    );
}

#[test]
fn doble_dolar_sin_llave_es_literal() {
    assert_eq!(substitute("precio 5$$ total", &resolver()), "precio 5$$ total");
}

#[test]
fn marcador_desconocido_se_mantiene_literal() {
    assert_eq!(parse("${nope}"), vec![Marker::Literal("${nope}".into())]);
    assert_eq!(substitute("${nope}", &resolver()), "${nope}");
    assert_eq!(substitute("${foo:bar}", &resolver()), "${foo:bar}");
    assert_eq!(substitute("${}", &resolver()), "${}");
    assert_eq!(substitute("${:x}", &resolver()), "${:x}");
}

#[test]
fn sin_cierre_es_literal() {
    assert_eq!(parse("${host"), vec![Marker::Literal("${host".into())]);
    assert_eq!(substitute("antes ${host sin cierre", &resolver()), "antes ${host sin cierre");
}

#[test]
fn sin_anidamiento_lee_hasta_primer_cierre() {
    assert_eq!(substitute("${host}}", &resolver()), "192.168.1.10}");
}

#[test]
fn var_secret_master_ask_quedan_literales_en_fase1() {
    assert_eq!(substitute("${var:dominio}", &resolver()), "${var:dominio}");
    assert_eq!(substitute("${secret:token}", &resolver()), "${secret:token}");
    assert_eq!(substitute("${master:bastion}", &resolver()), "${master:bastion}");
    assert_eq!(
        substitute("${ask:Entorno|prod|staging}", &resolver()),
        "${ask:Entorno|prod|staging}"
    );
    assert_eq!(substitute("${cmd:hostname}", &resolver()), "${cmd:hostname}");
}

#[test]
fn parse_reconoce_namespaces_sin_resolver() {
    assert_eq!(parse("${var:dominio}"), vec![Marker::Var("dominio".into())]);
    assert_eq!(parse("${secret:token}"), vec![Marker::Secret("token".into())]);
    assert_eq!(parse("${master:bastion}"), vec![Marker::Master("bastion".into())]);
    assert_eq!(parse("${env:HOME}"), vec![Marker::Env("HOME".into())]);
    assert_eq!(
        parse("${ask:Entorno|prod|staging}"),
        vec![Marker::Ask {
            label: "Entorno".into(),
            options: vec!["prod".into(), "staging".into()],
        }]
    );
    assert_eq!(
        parse("${ask:Token libre}"),
        vec![Marker::Ask {
            label: "Token libre".into(),
            options: vec![],
        }]
    );
    assert_eq!(parse("${cmd:hostname}"), vec![Marker::Cmd("hostname".into())]);
}

#[test]
fn nombres_invalidos_son_literales() {
    assert_eq!(substitute("${var:1mal}", &resolver()), "${var:1mal}");
    assert_eq!(substitute("${var:con espacio}", &resolver()), "${var:con espacio}");
    assert_eq!(substitute("${env:1MAL}", &resolver()), "${env:1MAL}");
    assert_eq!(substitute("${env:MI-VAR}", &resolver()), "${env:MI-VAR}");
    assert_eq!(parse("${var:mi-var.sub}"), vec![Marker::Var("mi-var.sub".into())]);
}

/// A resolver whose values look like markers: they are copied verbatim.
struct Inject;

impl Resolver for Inject {
    fn internal(&self, _var: InternalVar) -> Option<String> {
        None
    }
    fn env(&self, _name: &str) -> Option<String> {
        Some("${host}".into())
    }
    fn var(&self, name: &str) -> Option<String> {
        Some(format!("<{name}>"))
    }
    fn secret(&self, _name: &str) -> Option<String> {
        None
    }
    fn master(&self, _name: &str) -> Option<String> {
        None
    }
    fn ask(&self, label: &str, options: &[String]) -> Option<String> {
        Some(format!("{label}:{}", options.len()))
    }
}

#[test]
fn single_pass_copies_values_verbatim() {
    assert_eq!(substitute("${env:X}", &Inject), "${host}");
    assert_eq!(substitute("a ${var:b} ${ask:c|d|e} ${host}", &Inject), "a <b> c:2 ${host}");
    assert_eq!(substitute("${cmd:ls}", &Inject), "${cmd:ls}");
}

#[test]
fn environment_snapshot_and_absent_variables() {
    let r = DefaultResolver::new(ctx(), vec![("HOME".into(), "/home/ada".into())]);
    assert_eq!(substitute("[${env:HOME}] [${env:NOPE}]", &r), "[/home/ada] []");
    assert_eq!(substitute("[${env:HOME}]", &resolver()), "[]");
}

#[test]
fn literals_merge_and_unicode_survives() {
    assert_eq!(
        parse("añ$${x} ${nope} é${user}ü"),
        vec![
            Marker::Literal("añ${x} ${nope} é".into()),
            Marker::Internal(InternalVar::User),
            Marker::Literal("ü".into()),
        ]
    );
    assert_eq!(parse(""), Vec::<Marker>::new());
    assert_eq!(parse("$${sin cierre"), vec![Marker::Literal("$${sin cierre".into())]);
    assert_eq!(InternalVar::from_name("profileName"), Some(InternalVar::ProfileName));
    assert_eq!(InternalVar::from_name("Host"), None);
}

#[test]
fn render_markers_uses_answers_or_literal_text() {
    let markers = parse("${var:a}-${ask:L|x|y}-${host}-t");
    assert_eq!(markers.len(), 6);
    let answers = vec![Some("A".to_string()), None, None, Some("ignored".to_string()), None, None];
    assert_eq!(render_markers(&markers, &answers), "A-${ask:L|x|y}-${host}-t");
}

#[test]
fn env_presente() {
    let r = DefaultResolver::new(ctx(), vec![("RUSTTY_SUBST_TEST".to_string(), "valor_env".to_string())]);
    assert_eq!(substitute("x=${env:RUSTTY_SUBST_TEST}", &r), "x=valor_env");
}

#[test]
fn env_ausente_es_cadena_vacia() {
    let r = DefaultResolver::new(ctx(), vec![]);
    assert_eq!(substitute("[${env:RUSTTY_SUBST_NO_EXISTE}]", &r), "[]");
}

#[test]
fn una_sola_pasada_sin_reescaneo() {
    let r = DefaultResolver::new(ctx(), vec![("RUSTTY_SUBST_INJECT".to_string(), "${host}".to_string())]);
    assert_eq!(substitute("${env:RUSTTY_SUBST_INJECT}", &r), "${host}");
}

#[test]
fn fecha_y_hora_tienen_la_forma_de_strftime() {
    let r = resolver();
    let date = r.internal(InternalVar::Date).expect("fecha");
    let d: Vec<char> = date.chars().collect();
    assert_eq!(d.len(), 10);
    assert_eq!(d[4], '-');
    assert_eq!(d[7], '-');
    for (i, c) in d.iter().enumerate() {
        if i != 4 && i != 7 {
            assert!(c.is_ascii_digit(), "{date}");
        }
    }
    let time = r.internal(InternalVar::Time).expect("hora");
    let t: Vec<char> = time.chars().collect();
    assert_eq!(t.len(), 8);
    assert_eq!(t[2], ':');
    assert_eq!(t[5], ':');
    for (i, c) in t.iter().enumerate() {
        if i != 2 && i != 5 {
            assert!(c.is_ascii_digit(), "{time}");
        }
    }
}
