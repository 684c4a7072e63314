use rustty_core::scripts::host::{HostNext, HostRun, HostStage, Progress, StepFlow};
use rustty_core::scripts::resolve::ResolveCtx;
use rustty_core::subst::redact::REDACTED;
use rustty_core::subst::types::{DefaultResolver, SubstContext};
use rustty_core::scripts::fanout::Fanout;
use rustty_core::scripts::registry::RunRegistry;
use rustty_core::scripts::library::{
    check_steps, delete_script, find_script, history_insert, upsert_script,
};
use rustty_core::scripts::runner::{
    expect_exit, final_drain_result, leftover_tail, marker_command, marker_prefix, needs_final_drain,
    new_lines, parse_marker_exit, remember_secret, sanitize_token, step_phase, wait_prompt_result,
    wait_regex_result, PumpOutcome,
};
use rustty_core::scripts::runner::{check_wait_regex, regex_wait_matches, wait_regex};
use rustty_core::scripts::types::{RunRecord, Script, Step, TargetSpec, MAX_RUN_HISTORY, MAX_STEPS};

fn script(id: &str) -> Script {
    Script {
        id: id.to_string(),
        name: id.to_string(),
        description: None,
        target: TargetSpec::Adhoc { profile_ids: vec![] },
        steps: vec![Step::Send { text: "uptime".into() }],
        created_at: "2026-07-04T10:00:00Z".into(),
        updated_at: "2026-07-04T10:00:00Z".into(),
    }
}

fn run_record(id: &str) -> RunRecord {
    RunRecord {
        id: id.to_string(),
        script_id: "s1".into(),
        script_name: "Demo".into(),
        started_at: "2026-07-07T10:00:00Z".into(),
        finished_at: "2026-07-07T10:00:05Z".into(),
        mode: "parallel".into(),
        ok_count: 1,
        error_count: 0,
        total: 1,
        hosts: vec![],
    }
}

#[test]
fn upsert_get_delete() {
    let mut scripts: Vec<Script> = Vec::new();
    assert_eq!(find_script(&scripts, "a"), None);
    upsert_script(&mut scripts, script("a"));
    upsert_script(&mut scripts, script("b"));
    assert_eq!(scripts.len(), 2);
    let mut again = script("a");
    again.name = "renombrado".into();
    upsert_script(&mut scripts, again);
    assert_eq!(scripts.len(), 2);
    assert_eq!(find_script(&scripts, "a"), Some(0));
    assert_eq!(scripts[0].name, "renombrado");
    delete_script(&mut scripts, "a");
    assert_eq!(scripts.len(), 1);
    assert_eq!(find_script(&scripts, "a"), None);
    assert_eq!(find_script(&scripts, "b"), Some(0));
}

#[test]
fn upsert_rechaza_mas_de_max_steps() {
    let mut s = script("grande");
    assert_eq!(check_steps(&s), Ok(()));
    s.steps = (0..MAX_STEPS).map(|_| Step::Send { text: "eco".into() }).collect();
    assert_eq!(check_steps(&s), Ok(()));
    s.steps.push(Step::WaitPrompt);
    let err = check_steps(&s).unwrap_err();
    assert!(err.contains("50"), "el error debe citar el tope: {err}");
    assert_eq!(err, "El script supera el máximo de 50 pasos");
}

#[test]
fn history_save_recorta_y_deduplica() {
    let mut hist: Vec<RunRecord> = Vec::new();
    for i in 0..(MAX_RUN_HISTORY + 5) {
        hist = history_insert(hist, run_record(&format!("r{i}")));
    }
    assert_eq!(hist.len(), MAX_RUN_HISTORY);
    assert_eq!(hist[0].id, format!("r{}", MAX_RUN_HISTORY + 4));
    hist = history_insert(hist, run_record("r10"));
    assert_eq!(hist[0].id, "r10");
    assert_eq!(hist.iter().filter(|r| r.id == "r10").count(), 1);
    assert_eq!(hist.len(), MAX_RUN_HISTORY);
}

#[test]
fn needs_final_drain_detecta_envios_sin_lectura() {
    let send = || Step::Send { text: "ls".into() };
    assert!(needs_final_drain(&[send()]));
    assert!(needs_final_drain(&[
        send(),
        Step::SendPasswordFromKeyring { profile_id: None },
    ]));
    assert!(!needs_final_drain(&[send(), Step::WaitPrompt]));
    assert!(!needs_final_drain(&[
        send(),
        Step::WaitRegex {
            pattern: "listo".into(),
            timeout_ms: 1000,
        },
    ]));
    assert!(needs_final_drain(&[send(), Step::WaitPrompt, send()]));
    assert!(needs_final_drain(&[send(), Step::Sleep { ms: 5 }]));
    assert!(!needs_final_drain(&[
        send(),
        Step::WaitPrompt,
        Step::ExpectExit { code: 0 },
    ]));
    assert!(!needs_final_drain(&[send(), Step::Disconnect]));
    assert!(!needs_final_drain(&[send(), Step::Disconnect, send()]));
    assert!(!needs_final_drain(&[]));
    assert!(!needs_final_drain(&[Step::Sleep { ms: 5 }]));
}

#[test]
fn marker_prefix_es_seguro_y_unico_por_paso() {
    assert_eq!(marker_prefix("abc-123", 0), "__RUSTTY_END_abc123_0_");
    assert_ne!(marker_prefix("abc-123", 0), marker_prefix("abc-123", 1));
}

#[test]
fn parse_marker_extrae_exit_code_y_evita_el_eco() {
    let prefix = marker_prefix("run-9", 2);
    let buffer = format!("$ printf '\\n{prefix}%d__\\n' \"$?\"\nalgo de salida\n{prefix}0__\n$ ",);
    assert_eq!(parse_marker_exit(&buffer, &prefix), Some(0));

    let buffer = format!("salida previa\n{prefix}127__\n");
    assert_eq!(parse_marker_exit(&buffer, &prefix), Some(127));

    let solo_eco = format!("$ printf '\\n{prefix}%d__\\n' \"$?\"\n");
    assert_eq!(parse_marker_exit(&solo_eco, &prefix), None);

    let parcial = format!("{prefix}12");
    assert_eq!(parse_marker_exit(&parcial, &prefix), None);
}

#[test]
fn parse_marker_toma_el_ultimo_valido() {
    let prefix = marker_prefix("r", 0);
    let buffer = format!("{prefix}0__\nmas cosas\n{prefix}3__\n");
    assert_eq!(parse_marker_exit(&buffer, &prefix), Some(3));
}

#[test]
fn parse_marker_skips_an_overflowing_code_but_keeps_an_earlier_one() {
    let prefix = marker_prefix("r", 1);
    let buffer = format!("{prefix}7__\n{prefix}99999999999__\n");
    assert_eq!(parse_marker_exit(&buffer, &prefix), Some(7));
    assert_eq!(parse_marker_exit("", &prefix), None);
}

#[test]
fn sanitize_token_keeps_only_ascii_alphanumerics() {
    assert_eq!(sanitize_token("a-b_c.9Z"), "abc9Z");
    assert_eq!(sanitize_token("ñandú"), "and");
    assert_eq!(sanitize_token(""), "");
}

#[test]
fn waits_and_sleeps_are_waiting_the_rest_running() {
    assert_eq!(step_phase(&Step::Send { text: "x".into() }), "running");
    assert_eq!(step_phase(&Step::WaitPrompt), "waiting");
    assert_eq!(step_phase(&Step::WaitRegex { pattern: "p".into(), timeout_ms: 1 }), "waiting");
    assert_eq!(step_phase(&Step::Disconnect), "running");
    assert_eq!(step_phase(&Step::Sleep { ms: 1 }), "waiting");
}

#[test]
fn abort_marca_flags() {
    let mut reg = RunRegistry::new();
    reg.register_run("run1", &vec!["p1".to_string(), "p2".to_string()]);
    assert!(!reg.run_canceled("run1"));

    reg.abort("run1", Some("p1"));
    assert!(reg.host_canceled("run1", "p1"));
    assert!(!reg.host_canceled("run1", "p2"));
    assert!(!reg.run_canceled("run1"));

    reg.abort("run1", None);
    assert!(reg.run_canceled("run1"));
    assert!(reg.host_canceled("run1", "p2"));
}

#[test]
fn unknown_runs_and_hosts_are_ignored() {
    let mut reg = RunRegistry::new();
    reg.abort("nada", None);
    assert!(!reg.run_canceled("nada"));
    reg.register_run("r", &vec!["a".to_string()]);
    reg.abort("r", Some("zzz"));
    assert!(!reg.host_canceled("r", "a"));
    assert!(!reg.host_canceled("r", "zzz"));
    reg.register_run("otro", &vec![]);
    reg.abort("otro", None);
    assert!(reg.run_canceled("otro"));
    assert!(!reg.run_canceled("r"));
    reg.unregister("otro");
    assert!(!reg.run_canceled("otro"));
    reg.register_run("r", &vec!["a".to_string()]);
    assert!(!reg.host_canceled("r", "a"));
}

#[test]
fn parallel_fanout_respects_the_concurrency() {
    let mut f = Fanout::new(5, 2, false, false);
    assert_eq!(f.start_canary(false), None);
    assert_eq!(f.launch_next(false), Some(0));
    assert_eq!(f.launch_next(false), Some(1));
    assert_eq!(f.launch_next(false), None);
    f.host_finished(false, false, false);
    assert_eq!(f.launch_next(false), Some(2));
    f.host_finished(true, false, false);
    f.host_finished(true, false, false);
    assert_eq!(f.launch_next(false), Some(3));
    assert_eq!(f.launch_next(true), None);
    f.host_finished(true, true, false);
    assert_eq!(f.launch_next(false), None);
    assert_eq!(f.in_flight(), 0);
    assert_eq!(f.summary(), (3, 1, 5));
}

#[test]
fn a_failed_canary_stops_the_run() {
    let mut f = Fanout::new(3, 0, true, false);
    assert_eq!(f.start_canary(false), Some(0));
    f.host_finished(false, false, true);
    assert_eq!(f.launch_next(false), None);
    assert_eq!(f.summary(), (0, 1, 3));

    let mut g = Fanout::new(3, 0, true, false);
    assert_eq!(g.start_canary(false), Some(0));
    g.host_finished(true, false, true);
    assert_eq!(g.launch_next(false), Some(1));
    assert_eq!(g.launch_next(false), None);

    let mut h = Fanout::new(3, 4, true, false);
    assert_eq!(h.start_canary(true), None);
    assert_eq!(h.launch_next(false), None);
    assert_eq!(h.summary(), (0, 0, 3));
}

#[test]
fn stop_on_error_stops_after_the_first_failure() {
    let mut f = Fanout::new(4, 4, false, true);
    for i in 0..4 {
        assert_eq!(f.launch_next(false), Some(i));
    }
    f.host_finished(false, false, false);
    f.host_finished(true, false, false);
    assert_eq!(f.launch_next(false), None);
    assert_eq!(f.summary(), (1, 1, 4));
}

#[test]
fn la_orden_del_marcador_imprime_el_exit_code() {
    let prefix = marker_prefix("run-9", 2);
    assert_eq!(
        marker_command("run-9", 2),
        format!("printf '\\n{prefix}%d__\\n' \"$?\"")
    );
}

#[test]
fn desenlaces_de_las_esperas() {
    let prefix = marker_prefix("r1", 0);
    let acc = format!("salida\n{prefix}7__\n");
    assert_eq!(wait_prompt_result(PumpOutcome::Matched, &acc, "r1", 0), Ok(7));
    assert_eq!(
        wait_prompt_result(PumpOutcome::Matched, "nada", "r1", 0),
        Err("No se pudo leer el exit code del marcador".to_string())
    );
    assert_eq!(
        wait_prompt_result(PumpOutcome::Eof, &acc, "r1", 0),
        Err("La conexión se cerró antes de completar el comando".to_string())
    );
    assert_eq!(
        wait_prompt_result(PumpOutcome::Timeout, &acc, "r1", 0),
        Err("Tiempo de espera agotado esperando el fin del comando".to_string())
    );
    assert_eq!(
        wait_prompt_result(PumpOutcome::Cancelled, &acc, "r1", 0),
        Err("Ejecución cancelada".to_string())
    );
    assert_eq!(final_drain_result(PumpOutcome::Matched, &acc, "r1", 0), Ok(Some(7)));
    assert_eq!(final_drain_result(PumpOutcome::Eof, &acc, "r1", 0), Ok(None));
    assert_eq!(
        final_drain_result(PumpOutcome::Timeout, &acc, "r1", 0),
        Err("Tiempo de espera agotado esperando el fin del último comando".to_string())
    );
    assert_eq!(wait_regex_result(PumpOutcome::Matched, 500), Ok(()));
    assert_eq!(
        wait_regex_result(PumpOutcome::Timeout, 500),
        Err("Tiempo de espera agotado (500 ms) esperando el patrón regex".to_string())
    );
    assert_eq!(
        wait_regex_result(PumpOutcome::Eof, 500),
        Err("La conexión se cerró antes de que la salida casara el patrón".to_string())
    );
}

#[test]
fn expect_exit_compara_con_el_ultimo_codigo() {
    assert_eq!(expect_exit(Some(0), 0), Ok(()));
    assert_eq!(expect_exit(Some(-1), 2), Err("Se esperaba exit code 2 pero fue -1".to_string()));
    assert_eq!(
        expect_exit(None, 0),
        Err("expectExit sin un waitPrompt previo que capturara el exit code".to_string())
    );
}

#[test]
fn los_secretos_se_recuerdan_una_vez() {
    let mut secrets = vec!["a".to_string()];
    remember_secret(&mut secrets, "b".to_string());
    remember_secret(&mut secrets, "a".to_string());
    remember_secret(&mut secrets, String::new());
    assert_eq!(secrets, vec!["a".to_string(), "b".to_string()]);
}

#[test]
fn lineas_nuevas_sin_las_del_marcador() {
    let acc = "uno\nMARCA 0\ndos\ntres";
    let (lines, next) = new_lines(acc, 0, Some("MARCA"));
    assert_eq!(lines, vec!["uno\n".to_string(), "dos\n".to_string()]);
    assert_eq!(next, 16);
    let (lines, next2) = new_lines(acc, next, Some("MARCA"));
    assert!(lines.is_empty());
    assert_eq!(next2, next);
    let (lines, _) = new_lines(acc, 0, None);
    assert_eq!(lines.len(), 3);
    assert_eq!(leftover_tail(acc, next, "MARCA"), Some("tres".to_string()));
    assert_eq!(leftover_tail("x\n  ", 2, "MARCA"), None);
    assert_eq!(leftover_tail("MARCA 1", 0, "MARCA"), None);
}

fn resolve_ctx(params: &[(&str, &str)]) -> ResolveCtx {
    let ctx = SubstContext {
        host: "10.0.0.9".into(),
        port: 22,
        user: "ada".into(),
        profile_name: "Demo".into(),
        workspace: "default".into(),
    };
    ResolveCtx {
        base: DefaultResolver::new(ctx, vec![]),
        vars: vec![],
        secrets: vec![],
        masters: vec![],
        params: params.iter().map(|(k, v)| (k.to_string(), v.to_string())).collect(),
    }
}

#[test]
fn resolve_send_sustituye_internos_y_params() {
    let rc = resolve_ctx(&[("servicio", "nginx"), ("accion", "restart")]);
    let (out, secrets) =
        rc.resolve_send("ssh ${user}@${host}: sudo systemctl ${ask:accion} ${ask:servicio}");
    assert_eq!(out, "ssh ada@10.0.0.9: sudo systemctl restart nginx");
    assert!(secrets.is_empty(), "sin secretos no se registra nada");
}

#[test]
fn resolve_send_param_ausente_queda_literal() {
    let rc = resolve_ctx(&[]);
    let (out, _) = rc.resolve_send("echo ${ask:noexiste}");
    assert_eq!(out, "echo ${ask:noexiste}");
}

#[test]
fn preview_solo_incluye_los_send_y_redacta_secretos() {
    let rc = resolve_ctx(&[]);
    let steps = vec![
        Step::Send { text: "whoami".into() },
        Step::WaitPrompt,
        Step::Send { text: "echo pwd=${secret:token}".into() },
        Step::Sleep { ms: 10 },
    ];
    let cmds = rc.preview_commands(&steps);
    assert_eq!(cmds, vec!["whoami".to_string(), format!("echo pwd={REDACTED}")]);
}

#[test]
fn los_secretos_inyectados_se_registran_para_redactar() {
    let mut rc = resolve_ctx(&[]);
    rc.secrets = vec![("token".into(), "s3cr3t".into()), ("vacio".into(), String::new())];
    rc.masters = vec![("root".into(), "m4st3r".into())];
    let (out, injected) = rc.resolve_send("a=${secret:token} b=${master:root} c=${secret:vacio} d=${secret:otro}");
    assert_eq!(out, "a=s3cr3t b=m4st3r c= d=${secret:otro}");
    assert_eq!(injected, vec!["s3cr3t".to_string(), "m4st3r".to_string()]);
    let cmds = rc.preview_commands(&[Step::Send { text: "${secret:token}".into() }]);
    assert_eq!(cmds, vec![REDACTED.to_string()]);
}

#[test]
fn ejecucion_de_un_host_paso_a_paso() {
    let steps = vec![Step::Send { text: "uptime".into() }, Step::WaitPrompt];
    let mut run = HostRun::new(steps);
    assert_eq!(run.start(), Progress { phase: "connecting", step_index: 0, total_steps: 2 });
    let s = run.on_connect(Ok(()), &[]);
    assert_eq!(s.progress, Some(Progress { phase: "connected", step_index: 0, total_steps: 2 }));
    assert_eq!(s.next, HostNext::Continue);
    let s = run.next_step(false);
    assert_eq!(s.progress.unwrap().phase, "running");
    assert_eq!(s.next, HostNext::Execute(0));
    assert_eq!(run.on_step(Ok((StepFlow::Continue, None)), &[]).next, HostNext::Continue);
    let s = run.next_step(false);
    assert_eq!(s.progress.unwrap().phase, "waiting");
    assert_eq!(s.next, HostNext::Execute(1));
    run.on_step(Ok((StepFlow::Continue, Some(0))), &[]);
    assert_eq!(run.next_step(false).next, HostNext::Close { ok: true, exit: Some(0) });
    assert_eq!(run.stage(), HostStage::Closed);
    assert_eq!(run.done(), Progress { phase: "done", step_index: 2, total_steps: 2 });
}

#[test]
fn host_con_drenaje_final_y_errores_redactados() {
    let mut run = HostRun::new(vec![Step::Send { text: "make".into() }]);
    run.on_connect(Ok(()), &[]);
    run.next_step(false);
    run.on_step(Ok((StepFlow::Continue, None)), &[]);
    let s = run.next_step(false);
    assert_eq!(s.progress, Some(Progress { phase: "draining", step_index: 0, total_steps: 1 }));
    assert_eq!(s.next, HostNext::Drain);
    assert_eq!(run.on_drain(Ok(Some(3)), &[]).next, HostNext::Close { ok: true, exit: Some(3) });

    let mut run = HostRun::new(vec![Step::Send { text: "a".into() }]);
    let s = run.on_connect(Err("auth fallida para hunter2".into()), &["hunter2".to_string()]);
    assert_eq!(s.error, Some((format!("auth fallida para {REDACTED}"), None)));
    assert_eq!(s.next, HostNext::Finish);

    let mut run = HostRun::new(vec![Step::Send { text: "a".into() }, Step::Sleep { ms: 1 }]);
    run.on_connect(Ok(()), &[]);
    let s = run.next_step(true);
    assert_eq!(s.error, Some(("Ejecución cancelada".to_string(), Some(0))));
    assert_eq!(s.next, HostNext::Close { ok: false, exit: None });

    let mut run = HostRun::new(vec![Step::WaitPrompt, Step::Send { text: "b".into() }]);
    run.on_connect(Ok(()), &[]);
    run.next_step(false);
    let s = run.on_step(Err("clave s3 rechazada".into()), &["s3".to_string()]);
    assert_eq!(s.error, Some((format!("clave {REDACTED} rechazada"), Some(0))));

    let mut run = HostRun::new(vec![Step::Disconnect, Step::Send { text: "nunca".into() }]);
    run.on_connect(Ok(()), &[]);
    run.next_step(false);
    run.on_step(Ok((StepFlow::Disconnected, None)), &[]);
    assert_eq!(run.next_step(false).next, HostNext::Close { ok: true, exit: None });

    let mut run = HostRun::new(vec![Step::Send { text: "a".into() }, Step::Disconnect]);
    run.on_connect(Ok(()), &[]);
    run.next_step(false);
    run.on_step(Ok((StepFlow::Continue, None)), &[]);
    run.next_step(false);
    run.on_step(Ok((StepFlow::Disconnected, None)), &[]);
    assert_eq!(run.next_step(false).next, HostNext::Close { ok: true, exit: None });
}

#[test]
fn desregistrar_olvida_solo_ese_run() {
    let mut reg = RunRegistry::new();
    reg.register_run("r1", &vec!["p1".to_string()]);
    reg.register_run("r2", &vec!["p2".to_string()]);
    reg.abort("r2", None);
    reg.unregister("r2");
    assert!(!reg.run_canceled("r2"));
    assert!(!reg.host_canceled("r2", "p2"));
    reg.abort("r1", Some("p1"));
    assert!(reg.host_canceled("r1", "p1"));
}

#[test]
fn wait_regex_casa_la_salida() {
    assert_eq!(regex_wait_matches(r"\$ $", "user@host:~$ "), Ok(true));
    assert_eq!(regex_wait_matches(r"listo\s+\d+", "todo listo  42\n"), Ok(true));
    assert_eq!(regex_wait_matches("^fin$", "sin fin\n"), Ok(false));
    assert_eq!(regex_wait_matches("x", ""), Ok(false));
    assert_eq!(check_wait_regex("a+b"), Ok(()));
}

#[test]
fn wait_regex_patron_invalido() {
    let e = regex_wait_matches("(abc", "abc").unwrap_err();
    assert!(e.starts_with("Patrón regex inválido: "), "{e}");
    assert!(e.len() > "Patrón regex inválido: ".len());
    assert_eq!(check_wait_regex("(abc"), Err(e.clone()));
    // El patrón inválido gana a cualquier final de la lectura.
    assert_eq!(wait_regex("(abc", PumpOutcome::Matched, 500), Err(e));
}

#[test]
fn wait_regex_termina_como_la_lectura() {
    assert_eq!(wait_regex("ok", PumpOutcome::Matched, 500), Ok(()));
    assert_eq!(
        wait_regex("ok", PumpOutcome::Timeout, 500),
        Err("Tiempo de espera agotado (500 ms) esperando el patrón regex".to_string())
    );
    assert_eq!(
        wait_regex("ok", PumpOutcome::Eof, 500),
        Err("La conexión se cerró antes de que la salida casara el patrón".to_string())
    );
    assert_eq!(wait_regex("ok", PumpOutcome::Cancelled, 500), Err("Ejecución cancelada".to_string()));
}
