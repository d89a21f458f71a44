//! The shell code that `phm env` prints: PATH setup and the directory-change hook.
use vstd::prelude::*;
use crate::text::{chars_of, contains, lemma_find_upper};

verus! {

/// The shells that phm generates setup code for.
#[derive(Debug, Clone, Copy, PartialEq, Eq, Structural)]
pub enum ShellKind {
    Zsh,
    Bash,
    Fish,
}

/// Appending the relative component `name` to the path `base`, as `Path::join` does on Unix:
/// a `/` goes between them unless `base` is empty or already ends with one.
pub open spec fn path_join(base: Seq<char>, name: Seq<char>) -> Seq<char> {
    if base.len() == 0 || base.last() == '/' {
        base + name
    } else {
        base + seq!['/'] + name
    }
}

/// The `bin` directory of a multishell directory.
pub open spec fn bin_dir_of(multishell_path: Seq<char>) -> Seq<char> {
    path_join(multishell_path, seq!['b', 'i', 'n'])
}

/// The first line of the setup code: `bin` goes first on `PATH`.
pub open spec fn path_line(shell: ShellKind, bin: Seq<char>) -> Seq<char> {
    match shell {
        ShellKind::Fish => "set -gx PATH \""@ + bin + "\" $PATH"@,
        _ => "export PATH=\""@ + bin + ":$PATH\""@,
    }
}

/// The second line of the setup code: `PHM_MULTISHELL_PATH` names the multishell directory.
pub open spec fn multishell_line(shell: ShellKind, ms: Seq<char>) -> Seq<char> {
    match shell {
        ShellKind::Fish => "set -gx PHM_MULTISHELL_PATH \""@ + ms + "\""@,
        _ => "export PHM_MULTISHELL_PATH=\""@ + ms + "\""@,
    }
}

/// The hook that runs `phm use --silent-if-unchanged` whenever the working directory changes.
pub open spec fn hook_text(shell: ShellKind) -> Seq<char> {
    match shell {
        ShellKind::Zsh => "autoload -U add-zsh-hook\n_phm_autoload_hook() {\n  phm use --silent-if-unchanged\n  rehash\n}\nadd-zsh-hook chpwd _phm_autoload_hook\n_phm_autoload_hook\n"@,
        ShellKind::Bash => "__phm_cd() {\n  \\builtin cd \"$@\" || return\n  phm use --silent-if-unchanged\n  hash -r\n}\nalias cd=__phm_cd\n__phm_cd .\n"@,
        ShellKind::Fish => "function _phm_autoload --on-variable PWD\n  phm use --silent-if-unchanged\nend\n_phm_autoload\n"@,
    }
}

/// The setup code for `shell` with `bin` as the directory to put on `PATH`:
/// the two setup lines, then the hook when `use_on_cd` is set.
pub open spec fn shell_text(shell: ShellKind, bin: Seq<char>, ms: Seq<char>, use_on_cd: bool) -> Seq<char> {
    path_line(shell, bin) + seq!['\n'] + multishell_line(shell, ms) + seq!['\n'] + if use_on_cd {
        hook_text(shell)
    } else {
        Seq::empty()
    }
}

/// The setup code for `shell`: the multishell `bin` directory goes first on `PATH`,
/// `PHM_MULTISHELL_PATH` names the multishell directory, and with `use_on_cd`
/// a hook runs `phm use --silent-if-unchanged` on every change of directory.
pub open spec fn env_text(shell: ShellKind, multishell_path: Seq<char>, use_on_cd: bool) -> Seq<char> {
    shell_text(shell, bin_dir_of(multishell_path), multishell_path, use_on_cd)
}

/// `s` holds no line break.
pub open spec fn no_newline(s: Seq<char>) -> bool {
    forall|i: int| 0 <= i < s.len() ==> #[trigger] s[i] != '\n'
}

proof fn lemma_no_newline_concat(a: Seq<char>, b: Seq<char>)
    requires
        no_newline(a),
        no_newline(b),
    ensures
        no_newline(a + b),
{
    assert forall|i: int| 0 <= i < (a + b).len() implies #[trigger] (a + b)[i] != '\n' by {
        if i >= a.len() {
            assert((a + b)[i] == b[i - a.len()]);
        }
    }
}

/// `p` occurs in `s` at `k`, so `s` contains it.
proof fn lemma_occurs_at(s: Seq<char>, p: Seq<char>, k: int)
    requires
        p.len() > 0,
        0 <= k,
        k + p.len() <= s.len(),
        s.subrange(k, k + p.len()) == p,
    ensures
        contains(s, p),
{
    lemma_find_upper(s, p, k);
}

/// `phm env` without the hook is two lines, the `PATH` line and the multishell line, neither
/// broken when the multishell path holds no line break; with `--use-on-cd` the same two lines are
/// followed by the hook, which runs `phm use --silent-if-unchanged` and, in zsh, registers on
/// `chpwd`, in bash wraps `cd`, and in fish listens on `PWD`.
pub proof fn law_env_hook(shell: ShellKind, p: Seq<char>)
    ensures
        env_text(shell, p, true) == env_text(shell, p, false) + hook_text(shell),
        env_text(shell, p, false) == path_line(shell, bin_dir_of(p)) + seq!['\n'] + multishell_line(shell, p) + seq!['\n'],
        no_newline(p) ==> no_newline(path_line(shell, bin_dir_of(p))) && no_newline(multishell_line(shell, p)),
        contains(hook_text(shell), "phm use --silent-if-unchanged"@),
        shell == ShellKind::Zsh ==> contains(hook_text(shell), "add-zsh-hook chpwd"@),
        shell == ShellKind::Bash ==> contains(hook_text(shell), "alias cd=__phm_cd"@),
        shell == ShellKind::Fish ==> contains(hook_text(shell), "--on-variable PWD"@),
{
    assert(env_text(shell, p, false) + hook_text(shell) =~= env_text(shell, p, true));
    assert(env_text(shell, p, false) =~= env_text(shell, p, false) + Seq::<char>::empty());
    reveal_strlit("set -gx PATH \"");
    reveal_strlit("\" $PATH");
    reveal_strlit("export PATH=\"");
    reveal_strlit(":$PATH\"");
    reveal_strlit("set -gx PHM_MULTISHELL_PATH \"");
    reveal_strlit("export PHM_MULTISHELL_PATH=\"");
    reveal_strlit("\"");
    if no_newline(p) {
        let bin = bin_dir_of(p);
        assert(no_newline(bin)) by {
            assert forall|i: int| 0 <= i < bin.len() implies #[trigger] bin[i] != '\n' by {
                if i < p.len() {
                    assert(bin[i] == p[i]);
                }
            }
        }
        assert(no_newline("set -gx PATH \""@));
        assert(no_newline("\" $PATH"@));
        assert(no_newline("export PATH=\""@));
        assert(no_newline(":$PATH\""@));
        assert(no_newline("set -gx PHM_MULTISHELL_PATH \""@));
        assert(no_newline("export PHM_MULTISHELL_PATH=\""@));
        assert(no_newline("\""@));
        lemma_no_newline_concat("set -gx PATH \""@, bin);
        lemma_no_newline_concat("set -gx PATH \""@ + bin, "\" $PATH"@);
        lemma_no_newline_concat("export PATH=\""@, bin);
        lemma_no_newline_concat("export PATH=\""@ + bin, ":$PATH\""@);
        lemma_no_newline_concat("set -gx PHM_MULTISHELL_PATH \""@, p);
        lemma_no_newline_concat("set -gx PHM_MULTISHELL_PATH \""@ + p, "\""@);
        lemma_no_newline_concat("export PHM_MULTISHELL_PATH=\""@, p);
        lemma_no_newline_concat("export PHM_MULTISHELL_PATH=\""@ + p, "\""@);
    }
    let h = hook_text(shell);
    let m = "phm use --silent-if-unchanged"@;
    reveal_strlit("phm use --silent-if-unchanged");
    match shell {
        ShellKind::Zsh => {
            reveal_strlit("autoload -U add-zsh-hook\n_phm_autoload_hook() {\n  phm use --silent-if-unchanged\n  rehash\n}\nadd-zsh-hook chpwd _phm_autoload_hook\n_phm_autoload_hook\n");
            reveal_strlit("add-zsh-hook chpwd");
            assert(h.subrange(50, 50 + m.len() as int) =~= m);
            lemma_occurs_at(h, m, 50);
            let k = "add-zsh-hook chpwd"@;
            assert(h.subrange(91, 91 + k.len() as int) =~= k);
            lemma_occurs_at(h, k, 91);
        },
        ShellKind::Bash => {
            reveal_strlit("__phm_cd() {\n  \\builtin cd \"$@\" || return\n  phm use --silent-if-unchanged\n  hash -r\n}\nalias cd=__phm_cd\n__phm_cd .\n");
            reveal_strlit("alias cd=__phm_cd");
            assert(h.subrange(44, 44 + m.len() as int) =~= m);
            lemma_occurs_at(h, m, 44);
            let k = "alias cd=__phm_cd"@;
            assert(h.subrange(86, 86 + k.len() as int) =~= k);
            lemma_occurs_at(h, k, 86);
        },
        ShellKind::Fish => {
            reveal_strlit("function _phm_autoload --on-variable PWD\n  phm use --silent-if-unchanged\nend\n_phm_autoload\n");
            reveal_strlit("--on-variable PWD");
            assert(h.subrange(43, 43 + m.len() as int) =~= m);
            lemma_occurs_at(h, m, 43);
            let k = "--on-variable PWD"@;
            assert(h.subrange(23, 23 + k.len() as int) =~= k);
            lemma_occurs_at(h, k, 23);
        },
    }
}

/// `base` joined with the relative component `name`.
pub fn join_path(base: &str, name: &str) -> (r: String)
    ensures
        r@ == path_join(base@, name@),
{
    let chars = chars_of(base);
    let mut r = String::from_str(base);
    if chars.len() > 0 && chars[chars.len() - 1] != '/' {
        proof {
            reveal_strlit("/");
        }
        r.append("/");
    }
    r.append(name);
    r
}

/// Generate shell initialization code.
pub fn generate_env(shell: ShellKind, multishell_path: &str, use_on_cd: bool) -> (out: String)
    ensures
        out@ == env_text(shell, multishell_path@, use_on_cd),
{
    proof {
        reveal_strlit("bin");
    }
    let path_str = join_path(multishell_path, "bin");
    match shell {
        ShellKind::Zsh => generate_zsh(path_str.as_str(), multishell_path, use_on_cd),
        ShellKind::Bash => generate_bash(path_str.as_str(), multishell_path, use_on_cd),
        ShellKind::Fish => generate_fish(path_str.as_str(), multishell_path, use_on_cd),
    }
}

fn generate_zsh(bin_path: &str, multishell_path: &str, use_on_cd: bool) -> (out: String)
    ensures
        out@ == shell_text(ShellKind::Zsh, bin_path@, multishell_path@, use_on_cd),
{
    let mut out = String::from_str("export PATH=\"");
    out.append(bin_path);
    out.append(":$PATH\"");
    out.append("\n");
    out.append("export PHM_MULTISHELL_PATH=\"");
    out.append(multishell_path);
    out.append("\"");
    out.append("\n");
    if use_on_cd {
        out.append(
            "autoload -U add-zsh-hook\n_phm_autoload_hook() {\n  phm use --silent-if-unchanged\n  rehash\n}\nadd-zsh-hook chpwd _phm_autoload_hook\n_phm_autoload_hook\n",
        );
    }
    proof {
        reveal_strlit("\n");
        assert(out@ =~= shell_text(ShellKind::Zsh, bin_path@, multishell_path@, use_on_cd));
    }
    out
}

fn generate_bash(bin_path: &str, multishell_path: &str, use_on_cd: bool) -> (out: String)
    ensures
        out@ == shell_text(ShellKind::Bash, bin_path@, multishell_path@, use_on_cd),
{
    let mut out = String::from_str("export PATH=\"");
    out.append(bin_path);
    out.append(":$PATH\"");
    out.append("\n");
    out.append("export PHM_MULTISHELL_PATH=\"");
    out.append(multishell_path);
    out.append("\"");
    out.append("\n");
    if use_on_cd {
        out.append(
            "__phm_cd() {\n  \\builtin cd \"$@\" || return\n  phm use --silent-if-unchanged\n  hash -r\n}\nalias cd=__phm_cd\n__phm_cd .\n",
        );
    }
    proof {
        reveal_strlit("\n");
        assert(out@ =~= shell_text(ShellKind::Bash, bin_path@, multishell_path@, use_on_cd));
    }
    out
}

fn generate_fish(bin_path: &str, multishell_path: &str, use_on_cd: bool) -> (out: String)
    ensures
        out@ == shell_text(ShellKind::Fish, bin_path@, multishell_path@, use_on_cd),
{
    let mut out = String::from_str("set -gx PATH \"");
    out.append(bin_path);
    out.append("\" $PATH");
    out.append("\n");
    out.append("set -gx PHM_MULTISHELL_PATH \"");
    out.append(multishell_path);
    out.append("\"");
    out.append("\n");
    if use_on_cd {
        out.append(
            "function _phm_autoload --on-variable PWD\n  phm use --silent-if-unchanged\nend\n_phm_autoload\n",
        );
    }
    proof {
        reveal_strlit("\n");
        assert(out@ =~= shell_text(ShellKind::Fish, bin_path@, multishell_path@, use_on_cd));
    }
    out
}

} // verus!
