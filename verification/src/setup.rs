//! Provisioning a server: bash, rsync and mise, each checked and, when
//! missing and possible, installed.

use vstd::prelude::*;
use crate::ssh::{sh_command, sh_command_line};
use crate::text::views;

verus! {

/// The provisioning script.
pub const SETUP_SCRIPT: &'static str = r#"
set -u
have() { command -v "$1" >/dev/null 2>&1; }

if have bash; then echo "ok: bash"; else echo "MISSING: bash (install it manually)"; fi

if have rsync; then
  echo "ok: rsync"
else
  echo "missing: rsync, installing..."
  if have apt-get; then sudo apt-get update -qq && sudo apt-get install -y rsync
  elif have dnf; then sudo dnf install -y rsync
  elif have yum; then sudo yum install -y rsync
  elif have pacman; then sudo pacman -S --noconfirm rsync
  elif have brew; then brew install rsync
  else echo "FAILED: no known package manager; install rsync manually"
  fi
  if have rsync; then echo "ok: rsync"; else echo "FAILED: rsync"; fi
fi

if have mise || [ -x "$HOME/.local/bin/mise" ]; then
  echo "ok: mise"
else
  echo "missing: mise, installing..."
  if have curl; then curl -fsSL https://mise.run | sh
  elif have wget; then wget -qO- https://mise.run | sh
  else echo "FAILED: need curl or wget to install mise"
  fi
  if [ -x "$HOME/.local/bin/mise" ]; then echo "ok: mise"; else echo "FAILED: mise"; fi
fi
"#;

/// The provisioning script. It is POSIX sh, run with `sh -c` so that it
/// works under any login shell; it is idempotent and reports one line per
/// tool (`ok`, `missing`, `FAILED`).
pub open spec fn setup_script_text() -> Seq<char> {
    SETUP_SCRIPT@
}

/// The provisioning script.
pub fn setup_script() -> (r: &'static str)
    ensures
        r@ == setup_script_text(),
{
    SETUP_SCRIPT
}

/// The ssh arguments that provision `host`: the connection-sharing options,
/// `-t` on a terminal (sudo may ask for a password), the host, and the script
/// run by `sh`.
pub open spec fn setup_arg_list(control: Seq<Seq<char>>, host: Seq<char>, tty: bool) -> Seq<Seq<char>> {
    control + (if tty { seq!["-t"@] } else { Seq::empty() }) + seq![host, sh_command_line(setup_script_text())]
}

/// The ssh arguments of `server setup`.
pub fn setup(control: &Vec<String>, host: &str, tty: bool) -> (r: Vec<String>)
    ensures
        views(r@) == setup_arg_list(views(control@), host@, tty),
{
    let mut r: Vec<String> = Vec::new();
    let mut i: usize = 0;
    while i < control.len()
        invariant
            i <= control@.len(),
            views(r@) == views(control@).subrange(0, i as int),
        decreases control.len() - i,
    {
        let ghost r0 = r@;
        r.push(control[i].clone());
        proof {
            crate::text::lemma_views_push(r0, control@[i as int]);
            assert(views(r@) =~= views(control@).subrange(0, i + 1));
        }
        i = i + 1;
    }
    proof {
        assert(views(control@).subrange(0, control@.len() as int) =~= views(control@));
    }
    if tty {
        r.push(String::from_str("-t"));
    }
    r.push(String::from_str(host));
    r.push(sh_command(setup_script()));
    assert(views(r@) =~= setup_arg_list(views(control@), host@, tty));
    r
}

} // verus!
