use vstd::prelude::*;

use crate::text::{contains_seq, contains_str};

verus! {

/// Why no shell rc file could be chosen.
#[derive(Debug, Clone, Copy, PartialEq, Eq)]
pub enum ShellRcError {
    /// The shell is not one of bash, fish and zsh, or no zsh rc file exists.
    Unsupported,
}

/// The zsh rc files, relative to the home directory, in the order in which
/// they are looked for.
pub open spec fn zsh_rc_candidates() -> Seq<Seq<char>> {
    seq![".zshrc"@, ".config/.zshrc"@, ".config/zsh/.zshrc"@]
}

/// The first zsh rc file that exists, where `exists[i]` tells whether the
/// `i`-th candidate does.
pub open spec fn first_existing_zsh_rc(exists: Seq<bool>) -> Option<Seq<char>> {
    if exists[0] {
        Some(zsh_rc_candidates()[0])
    } else if exists[1] {
        Some(zsh_rc_candidates()[1])
    } else if exists[2] {
        Some(zsh_rc_candidates()[2])
    } else {
        None
    }
}

/// The rc file, relative to the home directory, of the shell whose path is
/// `shell`: bash, then fish, then zsh are recognised, in that order.
pub open spec fn shell_rc_for(shell: Seq<char>, zsh_exists: Seq<bool>) -> Option<Seq<char>> {
    if contains_seq(shell, "/bash"@) {
        Some(".bashrc"@)
    } else if contains_seq(shell, "fish"@) {
        Some(".config/fish/config.fish"@)
    } else if contains_seq(shell, "/zsh"@) {
        first_existing_zsh_rc(zsh_exists)
    } else {
        None
    }
}

/// The zsh rc files to look for, in order of priority.
pub fn zsh_rc_priority() -> (r: Vec<String>)
    ensures
        r@.len() == 3,
        forall|i: int| 0 <= i < 3 ==> #[trigger] r@[i]@ == zsh_rc_candidates()[i],
{
    let mut r: Vec<String> = Vec::new();
    r.push(".zshrc".to_string());
    r.push(".config/.zshrc".to_string());
    r.push(".config/zsh/.zshrc".to_string());
    r
}

/// Chooses the rc file of the current shell, given the shell's path (the
/// `SHELL` variable) and which of the zsh rc files exist.
pub fn find_shell_rc(shell: &str, zsh_rc_exists: [bool; 3]) -> (r: Result<String, ShellRcError>)
    ensures
        match shell_rc_for(shell@, zsh_rc_exists@) {
            Some(p) => r matches Ok(s) && s@ == p,
            None => r == Err::<String, ShellRcError>(ShellRcError::Unsupported),
        },
{
    if contains_str(shell, "/bash") {
        Ok(".bashrc".to_string())
    } else if contains_str(shell, "fish") {
        Ok(".config/fish/config.fish".to_string())
    } else if contains_str(shell, "/zsh") {
        let candidates = zsh_rc_priority();
        let mut i: usize = 0;
        while i < 3
            invariant
                i <= 3,
                !contains_seq(shell@, "/bash"@),
                !contains_seq(shell@, "fish"@),
                contains_seq(shell@, "/zsh"@),
                candidates@.len() == 3,
                forall|k: int| 0 <= k < 3 ==> #[trigger] candidates@[k]@ == zsh_rc_candidates()[k],
                forall|k: int| 0 <= k < i ==> !zsh_rc_exists@[k],
            decreases 3 - i,
        {
            if zsh_rc_exists[i] {
                proof {
                    if i == 1 {
                        assert(!zsh_rc_exists@[0]);
                    } else if i == 2 {
                        assert(!zsh_rc_exists@[0] && !zsh_rc_exists@[1]);
                    }
                    assert(first_existing_zsh_rc(zsh_rc_exists@) == Some(zsh_rc_candidates()[i as int]));
                }
                return Ok(candidates[i].clone());
            }
            i = i + 1;
        }
        proof {
            assert(!zsh_rc_exists@[0] && !zsh_rc_exists@[1] && !zsh_rc_exists@[2]);
        }
        Err(ShellRcError::Unsupported)
    } else {
        Err(ShellRcError::Unsupported)
    }
}

} // verus!
