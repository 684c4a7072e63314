use rustty_core::shell::launch::{launch_for, user_zdotdir, Launch, ShellKind};
use rustty_core::shell::scripts::{BASH_RC, ZSH_ENV, ZSH_RC};

#[test]
fn detecta_el_shell_por_el_nombre_del_ejecutable() {
    assert_eq!(ShellKind::detect("/usr/bin/bash"), ShellKind::Bash);
    assert_eq!(ShellKind::detect("bash"), ShellKind::Bash);
    assert_eq!(ShellKind::detect("/bin/zsh"), ShellKind::Zsh);
    assert_eq!(ShellKind::detect("/usr/local/bin/zsh"), ShellKind::Zsh);
    assert_eq!(ShellKind::detect("/usr/bin/fish"), ShellKind::Other);
    assert_eq!(ShellKind::detect("pwsh.exe"), ShellKind::Other);
    assert_eq!(ShellKind::detect("/bin/sh"), ShellKind::Other);
    assert_eq!(ShellKind::detect(""), ShellKind::Other);
}

#[test]
fn detect_follows_the_file_name_of_the_path() {
    assert_eq!(ShellKind::detect("bash.exe"), ShellKind::Bash);
    assert_eq!(ShellKind::detect("/usr/bin/zsh/"), ShellKind::Zsh);
    assert_eq!(ShellKind::detect("/usr/bin/bash/."), ShellKind::Bash);
    assert_eq!(ShellKind::detect("/usr/bin/bash/.."), ShellKind::Other);
    assert_eq!(ShellKind::detect("/"), ShellKind::Other);
    assert_eq!(ShellKind::detect("zsh.exe.exe"), ShellKind::Other);
}

#[test]
fn los_scripts_llevan_las_cuatro_marcas_y_el_cwd() {
    for script in [BASH_RC, ZSH_RC] {
        for mark in ["133;A", "133;B", "133;C", "133;D;", "7;file://"] {
            assert!(script.contains(mark), "falta {mark}");
        }
    }
    assert!(BASH_RC.contains(". \"$HOME/.bashrc\""));
    assert!(ZSH_ENV.contains(". \"$ZDOTDIR/.zshenv\""));
    assert!(ZSH_RC.contains(". \"$RUSTTY_USER_ZDOTDIR/.zshrc\""));
}

#[test]
fn bash_gets_its_rcfile_and_zsh_its_zdotdir() {
    let bash = launch_for(ShellKind::Bash, "/d/shell-integration/rustty-bash.sh", "/d/z", "/home/u")
        .unwrap();
    assert_eq!(
        bash.args,
        vec!["--rcfile".to_string(), "/d/shell-integration/rustty-bash.sh".to_string()]
    );
    assert!(bash.env.is_empty());

    let zsh = launch_for(ShellKind::Zsh, "/d/rc", "/d/shell-integration/zsh", "/home/u").unwrap();
    assert!(zsh.args.is_empty());
    assert_eq!(
        zsh.env[0],
        ("ZDOTDIR".to_string(), "/d/shell-integration/zsh".to_string())
    );
    assert_eq!(zsh.env[1], ("RUSTTY_USER_ZDOTDIR".to_string(), "/home/u".to_string()));

    assert_eq!(launch_for(ShellKind::Other, "a", "b", "c"), None::<Launch>);
}

#[test]
fn the_user_zdotdir_falls_back_to_home() {
    assert_eq!(user_zdotdir(Some("/home/u/.config/zsh"), Some("/home/u")), "/home/u/.config/zsh");
    assert_eq!(user_zdotdir(Some("   "), Some("/home/u")), "/home/u");
    assert_eq!(user_zdotdir(None, Some("/home/u")), "/home/u");
    assert_eq!(user_zdotdir(None, None), "");
}

#[test]
fn bash_recibe_rcfile_y_zsh_su_zdotdir() {
    let rc = "/datos/shell-integration/rustty-bash.sh";
    let zdir = "/datos/shell-integration/zsh";
    let user = user_zdotdir(None, Some("/home/ada"));
    let bash = launch_for(ShellKind::Bash, rc, zdir, &user).unwrap();
    assert_eq!(bash.args, vec!["--rcfile".to_string(), rc.to_string()]);
    assert!(bash.env.is_empty());

    let zsh = launch_for(ShellKind::Zsh, rc, zdir, &user).unwrap();
    assert!(zsh.args.is_empty());
    assert_eq!(zsh.env[0], ("ZDOTDIR".to_string(), zdir.to_string()));
    assert_eq!(zsh.env[1].0, "RUSTTY_USER_ZDOTDIR");
    assert!(!zsh.env[1].1.is_empty());

    assert_eq!(launch_for(ShellKind::Other, rc, zdir, &user), None);
}
