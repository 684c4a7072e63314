use rustty_core::sftp::controls::{GateStep, SftpManager, TransferControls};
use rustty_core::sftp::paths::{
    join_remote, part_path, remote_name, remote_parent, remote_rename_candidate, safe_entry_name,
};
use rustty_core::sftp::window::{CopyProgress, DownloadWindow, UploadWindow};
use rustty_core::sftp::listing::{drop_dot_entries, sort_listing};
use rustty_core::sftp::types::{
    conflict_step, effective_parallelism, ConflictStep, FileEntry, TransferConflictPolicy, TreeCount,
    WalkEntry, SFTP_CHUNK,
    SFTP_PIPELINE,
};

#[test]
fn safe_entry_name_acepta_nombres_simples() {
    assert!(safe_entry_name("documento.txt").is_ok());
    assert!(safe_entry_name(".bashrc").is_ok());
    assert!(safe_entry_name("con espacios y ñ.log").is_ok());
}

#[test]
fn safe_entry_name_rechaza_travesias_y_separadores() {
    assert!(safe_entry_name("..").is_err());
    assert!(safe_entry_name(".").is_err());
    assert!(safe_entry_name("").is_err());
    assert!(safe_entry_name("../../../.ssh/authorized_keys").is_err());
    assert!(safe_entry_name("sub/dir").is_err());
    assert!(safe_entry_name("sub\\dir").is_err());
    assert!(safe_entry_name("/etc/passwd").is_err());
}

#[test]
fn safe_entry_name_error_quotes_the_name() {
    assert_eq!(
        safe_entry_name("a/b").unwrap_err(),
        "el servidor devolvió un nombre de entrada no seguro: \"a/b\""
    );
}

#[test]
fn paralelismo_es_uno_para_transferencias_pequenas() {
    assert_eq!(effective_parallelism(0, SFTP_PIPELINE), 1);
    assert_eq!(effective_parallelism(1, SFTP_PIPELINE), 1);
    assert_eq!(effective_parallelism(SFTP_CHUNK, SFTP_PIPELINE), 1);
}

#[test]
fn paralelismo_crece_con_el_numero_de_chunks() {
    assert_eq!(effective_parallelism(SFTP_CHUNK + 1, SFTP_PIPELINE), 2);
    assert_eq!(effective_parallelism(SFTP_CHUNK * 3, SFTP_PIPELINE), 3);
    assert_eq!(effective_parallelism(SFTP_CHUNK * 3 + 1, SFTP_PIPELINE), 4);
}

#[test]
fn paralelismo_se_topa_en_el_pipeline_maximo() {
    let enorme = SFTP_CHUNK * (SFTP_PIPELINE as u64) * 10;
    assert_eq!(effective_parallelism(enorme, 1000), SFTP_PIPELINE);
    assert_eq!(
        effective_parallelism(SFTP_CHUNK * SFTP_PIPELINE as u64, SFTP_PIPELINE),
        SFTP_PIPELINE
    );
    assert_eq!(
        effective_parallelism(SFTP_CHUNK * (SFTP_PIPELINE as u64 + 5), SFTP_PIPELINE),
        SFTP_PIPELINE
    );
}

#[test]
fn paralelismo_respeta_el_cap_configurado() {
    let enorme = SFTP_CHUNK * 50;
    assert_eq!(effective_parallelism(enorme, 4), 4);
    assert_eq!(effective_parallelism(enorme, 1), 1);
    assert_eq!(effective_parallelism(enorme, 0), 1);
    assert_eq!(effective_parallelism(enorme, usize::MAX), SFTP_PIPELINE);
}

#[test]
fn conflict_policy_from_its_name() {
    assert_eq!(TransferConflictPolicy::from_str("skip"), TransferConflictPolicy::Skip);
    assert_eq!(TransferConflictPolicy::from_str("rename"), TransferConflictPolicy::Rename);
    assert_eq!(TransferConflictPolicy::from_str("overwrite"), TransferConflictPolicy::Overwrite);
    assert_eq!(TransferConflictPolicy::from_str("SKIP"), TransferConflictPolicy::Overwrite);
    assert_eq!(TransferConflictPolicy::from_str(""), TransferConflictPolicy::Overwrite);
}

#[test]
fn remote_paths_join_and_split() {
    assert_eq!(join_remote("", "a.txt"), "a.txt");
    assert_eq!(join_remote(".", "a.txt"), "a.txt");
    assert_eq!(join_remote("/", "a.txt"), "/a.txt");
    assert_eq!(join_remote("/home/u", "a.txt"), "/home/u/a.txt");
    assert_eq!(join_remote("/home/u/", "a.txt"), "/home/u/a.txt");

    assert_eq!(remote_parent("/home/u/a.txt"), "/home/u");
    assert_eq!(remote_parent("/a.txt"), "/");
    assert_eq!(remote_parent("/home/u/dir///"), "/home/u");
    assert_eq!(remote_parent("a.txt"), ".");
    assert_eq!(remote_parent("/"), ".");

    assert_eq!(remote_name("/home/u/a.txt"), "a.txt");
    assert_eq!(remote_name("/home/u/dir/"), "dir");
    assert_eq!(remote_name("a.txt"), "a.txt");
    assert_eq!(remote_name("/"), "");
}

#[test]
fn remote_rename_candidates_keep_the_extension() {
    assert_eq!(remote_rename_candidate("/srv/informe.pdf", 1), "/srv/informe (1).pdf");
    assert_eq!(remote_rename_candidate("/srv/.bashrc", 2), "/srv/.bashrc (2)");
    assert_eq!(remote_rename_candidate("/srv/raro.", 3), "/srv/raro. (3)");
    assert_eq!(remote_rename_candidate("notas.tar.gz", 12), "notas.tar (12).gz");
    assert_eq!(remote_rename_candidate("/top.txt", 1), "top (1).txt");
}

#[test]
fn cancel_is_consumed_once_and_lifts_the_pause() {
    let mut c = TransferControls::new();
    assert!(!c.take_cancel("t1"));
    c.pause("t1".into());
    assert!(c.is_paused("t1"));
    c.cancel("t1".into());
    assert!(!c.is_paused("t1"));
    assert!(c.take_cancel("t1"));
    assert!(!c.take_cancel("t1"));
    c.pause("t2".into());
    c.resume("t2");
    assert!(!c.is_paused("t2"));
}

#[test]
fn the_gate_between_files_follows_the_signals() {
    let mut c = TransferControls::new();
    assert_eq!(c.gate_dir_transfer("dir", false), GateStep::Proceed { resumed: false });
    c.pause("dir".into());
    assert_eq!(c.gate_dir_transfer("dir", false), GateStep::Paused { announce: true });
    assert_eq!(c.gate_dir_transfer("dir", true), GateStep::Paused { announce: false });
    c.resume("dir");
    assert_eq!(c.gate_dir_transfer("dir", true), GateStep::Proceed { resumed: true });
    c.cancel("dir".into());
    assert_eq!(c.gate_dir_transfer("dir", false), GateStep::Canceled);
    assert_eq!(c.gate_dir_transfer("dir", false), GateStep::Proceed { resumed: false });
}

#[test]
fn the_session_registry_routes_signals_by_session() {
    let mut m: SftpManager<u32> = SftpManager::new();
    assert_eq!(
        m.cancel_transfer("s1", "t".into()),
        Err("Sesión de ficheros no encontrada".to_string())
    );
    assert_eq!(m.insert("s1".into(), 10), None);
    assert_eq!(m.insert("s2".into(), 20), None);
    assert_eq!(m.pause_transfer("s1", "t".into()), Ok(()));
    assert!(m.is_paused("s1", "t"));
    assert!(!m.is_paused("s2", "t"));
    assert_eq!(m.resume_transfer("s1", "t".into()), Ok(()));
    assert!(!m.is_paused("s1", "t"));
    assert_eq!(m.cancel_transfer("s2", "t".into()), Ok(()));
    assert!(!m.take_cancel("s1", "t"));
    assert!(m.take_cancel("s2", "t"));
    assert_eq!(m.insert("s1".into(), 11), Some(10));
    assert_eq!(m.disconnect("s1"), Some(11));
    assert_eq!(m.disconnect("s1"), None);
    assert!(m.pause_transfer("s1", "t".into()).is_err());
    assert_eq!(m.insert("s3".into(), 30), None);
    assert_eq!(m.disconnect_all(), vec![20, 30]);
    assert_eq!(m.disconnect("s2"), None);
}

#[test]
fn the_download_window_reads_ahead_and_writes_in_order() {
    let total = SFTP_CHUNK * 2 + 10;
    let mut w = DownloadWindow::new(total, 3);
    assert_eq!(w.next_request(), Some((0, SFTP_CHUNK)));
    assert_eq!(w.next_request(), Some((SFTP_CHUNK, SFTP_CHUNK)));
    assert_eq!(w.next_request(), Some((2 * SFTP_CHUNK, 10)));
    assert_eq!(w.next_request(), None);
    assert!(w.busy());
    // The last chunk comes back first: nothing can be written yet.
    let (writes, eof) = w.chunk_done(2 * SFTP_CHUNK, vec![7u8; 10]);
    assert!(writes.is_empty() && !eof);
    // The second one: still waiting for the first.
    let (writes, eof) = w.chunk_done(SFTP_CHUNK, vec![2u8; SFTP_CHUNK as usize]);
    assert!(writes.is_empty() && !eof);
    // The first one unlocks all three, in order, with one progress report each.
    let (writes, eof) = w.chunk_done(0, vec![1u8; SFTP_CHUNK as usize]);
    assert!(!eof);
    assert_eq!(writes.len(), 3);
    assert_eq!(writes[0].0[0], 1);
    assert_eq!(writes[1].0[0], 2);
    assert_eq!(writes[2].0, vec![7u8; 10]);
    assert_eq!(writes.iter().map(|x| x.1).collect::<Vec<_>>(), vec![true, true, false]);
    assert_eq!(w.written(), total);
    assert!(!w.busy());
}

#[test]
fn an_empty_chunk_where_the_file_ends_is_an_error() {
    let mut w = DownloadWindow::new(100, 1);
    assert_eq!(w.next_request(), Some((0, 100)));
    let (writes, eof) = w.chunk_done(0, vec![]);
    assert!(writes.is_empty());
    assert!(eof);
}

#[test]
fn reading_never_runs_too_far_ahead_of_writing() {
    let total = SFTP_CHUNK * 100;
    let mut w = DownloadWindow::new(total, 1);
    // One handle: two chunks ahead at most (chunk × factor × 1).
    assert_eq!(w.next_request(), Some((0, SFTP_CHUNK)));
    assert_eq!(w.next_request(), None);
    let (writes, _) = w.chunk_done(0, vec![0u8; SFTP_CHUNK as usize]);
    assert_eq!(writes.len(), 1);
    assert_eq!(w.next_request(), Some((SFTP_CHUNK, SFTP_CHUNK)));
}

#[test]
fn progreso_de_copia_en_serie_cada_256_kib() {
    let mut p = CopyProgress::new();
    assert!(!p.record(100_000));
    assert!(!p.record(100_000));
    assert!(p.record(100_000));
    assert_eq!(p.transferred(), 300_000);
    assert!(!p.record(262_143));
    assert!(p.record(1));
}

fn listed(name: &str, is_dir: bool) -> FileEntry {
    FileEntry {
        name: name.to_string(),
        path: join_remote("/srv", name),
        is_dir,
        is_symlink: false,
        size: 0,
        modified: None,
        permissions: None,
    }
}

#[test]
fn listado_carpetas_primero_y_por_nombre_sin_mayusculas() {
    let entries = vec![
        listed("zeta.txt", false),
        listed("Beta", true),
        listed("alfa.txt", false),
        listed("Alfa.txt", false),
        listed("alfa", true),
        listed("Ñu", false),
    ];
    let names: Vec<String> = sort_listing(entries).into_iter().map(|e| e.name).collect();
    assert_eq!(names, vec!["alfa", "Beta", "alfa.txt", "Alfa.txt", "zeta.txt", "Ñu"]);
}

#[test]
fn listado_ftp_sin_punto_ni_punto_punto() {
    let entries = vec![listed(".", true), listed("..", true), listed(".bashrc", false), listed("a", true)];
    let names: Vec<String> = drop_dot_entries(entries).into_iter().map(|e| e.name).collect();
    assert_eq!(names, vec![".bashrc", "a"]);
}

#[test]
fn part_path_es_hermano_del_destino_final() {
    let final_path = "/home/u/Descargas/informe.pdf";
    let p = part_path(final_path);
    assert_eq!(p, "/home/u/Descargas/informe.pdf.rustty-part");
    assert_eq!(
        std::path::Path::new(&p).parent(),
        std::path::Path::new(final_path).parent()
    );
    assert_eq!(part_path("/tmp/.bashrc"), "/tmp/.bashrc.rustty-part");
}

#[test]
fn conflicto_en_carpeta_segun_la_politica() {
    let (skip, rename, over) =
        (TransferConflictPolicy::Skip, TransferConflictPolicy::Rename, TransferConflictPolicy::Overwrite);
    assert_eq!(conflict_step(skip, None), ConflictStep::Write);
    assert_eq!(conflict_step(skip, Some(false)), ConflictStep::Skip);
    assert_eq!(conflict_step(rename, Some(false)), ConflictStep::RenameFirst);
    assert_eq!(conflict_step(over, Some(false)), ConflictStep::Write);
    assert_eq!(conflict_step(over, Some(true)), ConflictStep::RenameFirst);
}

#[test]
fn count_local_tree_cuenta_symlinks_aparte_de_los_ficheros() {
    let mut count = TreeCount::new();
    let walk = [
        WalkEntry::File(Some(4)),
        WalkEntry::Dir,
        WalkEntry::File(Some(6)),
        WalkEntry::Symlink,
        WalkEntry::Symlink,
        WalkEntry::Other,
    ];
    let descents: Vec<bool> = walk.iter().map(|e| count.add(*e)).collect();
    assert_eq!(descents, vec![false, true, false, false, false, false]);
    assert_eq!(count.files, 2, "solo los ficheros regulares se suben");
    assert_eq!(count.bytes, 4 + 6);
    assert_eq!(count.symlinks, 2, "los enlaces se cuentan como omitidos");
}

#[test]
fn un_fichero_sin_tamano_cuenta_sin_bytes() {
    let mut count = TreeCount::new();
    assert!(!count.add(WalkEntry::File(None)));
    assert_eq!(count, TreeCount { files: 1, bytes: 0, symlinks: 0 });
}

#[test]
fn subida_en_paralelo_reparte_trozos_contiguos() {
    let total = SFTP_CHUNK * 2 + 10;
    let mut w = UploadWindow::new(total, 2);
    assert_eq!(w.next_chunk(), Some((0, SFTP_CHUNK)));
    assert_eq!(w.next_chunk(), Some((SFTP_CHUNK, SFTP_CHUNK)));
    assert_eq!(w.next_chunk(), None, "sin handles libres");
    assert!(w.busy());
    assert!(w.written(SFTP_CHUNK));
    assert_eq!(w.next_chunk(), Some((SFTP_CHUNK * 2, 10)));
    assert!(w.written(SFTP_CHUNK));
    assert!(!w.written(10));
    assert_eq!(w.next_chunk(), None);
    assert!(!w.busy());
    assert_eq!(w.transferred(), total);

    let mut w = UploadWindow::new(SFTP_CHUNK * 3, 1);
    assert_eq!(w.next_chunk(), Some((0, SFTP_CHUNK)));
    w.file_ended();
    assert_eq!(w.next_chunk(), None, "el fichero local se acabó antes");
    assert!(!w.busy());
}
