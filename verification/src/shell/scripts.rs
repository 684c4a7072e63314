//! Startup files of the local console's shell integration: OSC 133 command
//! marks and OSC 7 working directory for bash and zsh, loading the user's
//! own configuration first and never touching their dotfiles.
//!
//! - bash starts with `--rcfile <dir>/rustty-bash.sh`, which loads
//!   `~/.bashrc` itself.
//! - zsh starts with `ZDOTDIR=<dir>/zsh`, whose `.zshenv` and `.zshrc` load
//!   the user's (`RUSTTY_USER_ZDOTDIR`) and give `ZDOTDIR` back.
//! - Other shells start as usual.
use vstd::prelude::*;

verus! {

/// Directory, under the data directory, that holds the startup files.
pub const DIR_NAME: &'static str = "shell-integration";

/// bash startup file, inside `DIR_NAME`.
pub const BASH_FILE: &'static str = "rustty-bash.sh";

/// zsh `ZDOTDIR`, inside `DIR_NAME`.
pub const ZSH_DIR: &'static str = "zsh";

/// bash startup file (`--rcfile`).
pub const BASH_RC: &'static str = r#"# Integracion de shell de Rustty para bash. Generado por Rustty: los cambios
# se pierden al abrir la siguiente consola. Primero carga tu configuracion,
# como haria bash sin --rcfile; despues instala las marcas OSC 133 y OSC 7.
if [ -f "$HOME/.bashrc" ]; then
  . "$HOME/.bashrc"
elif [ -f /etc/bashrc ]; then
  . /etc/bashrc
elif [ -f /etc/bash.bashrc ]; then
  . /etc/bash.bashrc
fi

if [ -z "$__rustty_integrated" ] && [ -n "$BASH_VERSION" ]; then
  __rustty_integrated=1
  __rustty_osc() { printf '\033]%s\033\\' "$1"; }
  # Al principio de PROMPT_COMMAND: lee $? antes de que otro hook lo pise.
  __rustty_precmd_first() {
    local st=$?
    if [ -n "$__rustty_cmd_ran" ]; then
      __rustty_osc "133;D;$st"
      __rustty_cmd_ran=
    fi
  }
  # Al final: cwd, prompt nuevo y la marca de fin de prompt como sufijo de PS1,
  # detras de los temas que reescriben PS1 en cada prompt.
  __rustty_ps1_mark='\[\e]133;B\e\\\]'
  __rustty_precmd_last() {
    __rustty_osc "7;file://${HOSTNAME}${PWD}"
    __rustty_osc "133;A"
    case "$PS1" in
      *"$__rustty_ps1_mark") ;;
      *) PS1="${PS1}${__rustty_ps1_mark}" ;;
    esac
  }
  if [[ "$(declare -p PROMPT_COMMAND 2>/dev/null)" == "declare -a"* ]]; then
    PROMPT_COMMAND=(__rustty_precmd_first "${PROMPT_COMMAND[@]}" __rustty_precmd_last)
  else
    PROMPT_COMMAND="__rustty_precmd_first${PROMPT_COMMAND:+;$PROMPT_COMMAND};__rustty_precmd_last"
  fi
  # PS0 se expande tras leer el comando y antes de ejecutarlo: inicio de la
  # salida. La expansion ${...:=1} anota que hubo comando (para el D) sin
  # imprimir nada fuera de la secuencia.
  PS0="${PS0}"'\e]133;C;${__rustty_cmd_ran:=1}\e\\'
fi
"#;

/// `.zshenv` of our own `ZDOTDIR`: loads the user's and leaves `ZDOTDIR`
/// here so that zsh reads our `.zshrc` next.
pub const ZSH_ENV: &'static str = r#"# Integracion de shell de Rustty para zsh (generado por Rustty). Carga tu
# .zshenv y deja ZDOTDIR apuntando aqui hasta que .zshrc lo devuelva.
__rustty_zdotdir="$ZDOTDIR"
ZDOTDIR="$RUSTTY_USER_ZDOTDIR"
if [[ -f "$ZDOTDIR/.zshenv" ]]; then
  . "$ZDOTDIR/.zshenv"
fi
# Si tu .zshenv movio ZDOTDIR (p. ej. a ~/.config/zsh), .zshrc se busca alli.
export RUSTTY_USER_ZDOTDIR="${ZDOTDIR:-$HOME}"
ZDOTDIR="$__rustty_zdotdir"
unset __rustty_zdotdir
"#;

/// `.zshrc` of our own `ZDOTDIR`: loads the user's, gives `ZDOTDIR` back and
/// installs the hooks.
pub const ZSH_RC: &'static str = r#"# Integracion de shell de Rustty para zsh (generado por Rustty). Carga tu
# .zshrc, devuelve ZDOTDIR a su sitio e instala las marcas OSC 133 y OSC 7.
if [[ -f "$RUSTTY_USER_ZDOTDIR/.zshrc" ]]; then
  ZDOTDIR="$RUSTTY_USER_ZDOTDIR"
  . "$RUSTTY_USER_ZDOTDIR/.zshrc"
fi
if [[ "$RUSTTY_USER_ZDOTDIR" == "$HOME" ]]; then
  unset ZDOTDIR
else
  ZDOTDIR="$RUSTTY_USER_ZDOTDIR"
fi

if [[ -z "$__rustty_integrated" ]]; then
  __rustty_integrated=1
  __rustty_osc() { printf '\033]%s\033\\' "$1"; }
  __rustty_precmd() {
    local st=$?
    if [[ -n "$__rustty_cmd_ran" ]]; then
      __rustty_osc "133;D;$st"
      __rustty_cmd_ran=
    fi
    __rustty_osc "7;file://${HOST}${PWD}"
    __rustty_osc "133;A"
  }
  __rustty_preexec() {
    __rustty_cmd_ran=1
    __rustty_osc "133;C"
  }
  __rustty_ps1_mark=$'%{\e]133;B\e\\%}'
  __rustty_mark_prompt() {
    [[ "$PROMPT" == *"$__rustty_ps1_mark" ]] || PROMPT="${PROMPT}${__rustty_ps1_mark}"
  }
  autoload -Uz add-zsh-hook
  # El de $? va el primero, antes de que otro hook lo pise; el del prompt, el
  # ultimo, detras de los temas que reescriben PROMPT en cada prompt.
  typeset -ga precmd_functions
  precmd_functions=(__rustty_precmd "${precmd_functions[@]}")
  add-zsh-hook precmd __rustty_mark_prompt
  add-zsh-hook preexec __rustty_preexec
fi
"#;

} // verus!
