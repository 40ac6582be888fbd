//! Resolution of the authoritative shell startup file for a user.

use crate::text::{contains_sub, opt_view, str_contains};
use vstd::prelude::*;

verus! {

/// The configuration path chosen for a home directory and an optional
/// shell hint: `<home>/.zshrc` when the hint mentions zsh, else
/// `<home>/.bashrc`.
pub open spec fn spec_config_path(home: Seq<char>, shell: Option<Seq<char>>) -> Seq<char> {
    let hint = match shell {
        Some(s) => s,
        None => Seq::empty(),
    };
    if contains_sub(hint, "zsh"@) {
        home + "/.zshrc"@
    } else {
        home + "/.bashrc"@
    }
}

/// Picks the shell startup file to edit from the `HOME` value and the
/// optional `SHELL` value of the environment.  The zsh test is a
/// heuristic on the hint's text, not a guarantee of shell correctness.
pub fn get_shell_config_path(home: Option<&str>, shell: Option<&str>) -> (r: Result<
    String,
    String,
>)
    ensures
        ({
            match (r, home) {
                (Ok(p), Some(h)) => p@ == spec_config_path(h@, opt_view(shell)),
                (Err(e), None) => e@ == "无法获取HOME目录"@,
                _ => false,
            }
        }),
{
    match home {
        None => Err(String::from_str("无法获取HOME目录")),
        Some(h) => {
            let is_zsh = match shell {
                Some(hint) => str_contains(hint, "zsh"),
                None => {
                    proof {
                        reveal_strlit("zsh");
                        assert(!contains_sub(Seq::<char>::empty(), "zsh"@));
                    }
                    false
                },
            };
            let mut p = String::from_str(h);
            if is_zsh {
                p.append("/.zshrc");
            } else {
                p.append("/.bashrc");
            }
            Ok(p)
        },
    }
}

} // verus!
