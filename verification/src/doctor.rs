//! `phm doctor`: the checks it reports on and how many issues it counts.
use vstd::prelude::*;
use crate::text::{chars_of, contains, contains_in, decimal};
use crate::version::{push_decimal, version_text, PhpVersion};

verus! {

/// The outcome of one check.
#[derive(Debug, Clone, Copy, PartialEq, Eq, Structural)]
pub enum CheckStatus {
    /// Fine.
    Pass,
    /// An issue.
    Fail,
    /// Worth knowing, but not an issue.
    Warn,
}

/// One line of the report, with an optional hint on how to fix it.
#[derive(Debug, Clone)]
pub struct Check {
    pub status: CheckStatus,
    pub message: String,
    pub hint: Option<String>,
}

impl View for Check {
    type V = (CheckStatus, Seq<char>, Option<Seq<char>>);

    open spec fn view(&self) -> (CheckStatus, Seq<char>, Option<Seq<char>>) {
        (
            self.status,
            self.message@,
            match self.hint {
                Some(h) => Some(h@),
                None => None,
            },
        )
    }
}

/// The state of the shell integration.
#[derive(Debug, Clone, Copy, PartialEq, Eq, Structural)]
pub enum ShellIntegration {
    /// `PHM_MULTISHELL_PATH` is not set.
    NotLoaded,
    /// `PHM_MULTISHELL_PATH` names a directory that does not exist.
    DirectoryMissing,
    /// `PHM_MULTISHELL_PATH` names an existing directory.
    Active,
}

/// What the doctor looked at.
#[derive(Debug, Clone)]
pub struct DoctorFacts {
    /// The installed versions, in order.
    pub versions: Vec<PhpVersion>,
    /// The text of the `default` file, if one is set.
    pub default: Option<String>,
    pub shell: ShellIntegration,
    /// The value of `PATH`.
    pub path_env: String,
    /// `which composer` succeeded.
    pub composer_found: bool,
    /// How many multishell directories belong to dead shells; `None` when there is no
    /// multishell base directory.
    pub stale_dirs: Option<usize>,
}

/// The checks, in order, and the number of issues among them.
#[derive(Debug, Clone)]
pub struct DoctorReport {
    pub checks: Vec<Check>,
    pub issues: usize,
}

pub type CheckModel = (CheckStatus, Seq<char>, Option<Seq<char>>);

/// The version texts of `vs`, separated by `, `.
pub open spec fn joined(vs: Seq<PhpVersion>) -> Seq<char>
    decreases vs.len(),
{
    if vs.len() == 0 {
        seq![]
    } else if vs.len() == 1 {
        version_text(vs[0])
    } else {
        joined(vs.drop_last()) + ", "@ + version_text(vs.last())
    }
}

pub open spec fn versions_check(vs: Seq<PhpVersion>) -> CheckModel {
    if vs.len() == 0 {
        (CheckStatus::Fail, "No PHP versions found in Homebrew"@, Some("Install one with: brew install php@8.2"@))
    } else {
        (CheckStatus::Pass, decimal(vs.len()) + " PHP version(s) found: "@ + joined(vs), None)
    }
}

pub open spec fn default_check(vs: Seq<PhpVersion>, default: Option<Seq<char>>) -> CheckModel {
    match default {
        Some(ver) => if exists|i: int| 0 <= i < vs.len() && version_text(#[trigger] vs[i]) == ver {
            (CheckStatus::Pass, "Default version: "@ + ver, None)
        } else {
            (CheckStatus::Fail, "Default version "@ + ver + " is not installed"@, None)
        },
        None => (CheckStatus::Fail, "No default version set"@, Some("Set one with: phm default <version>"@)),
    }
}

pub open spec fn shell_check(s: ShellIntegration) -> CheckModel {
    match s {
        ShellIntegration::Active => (CheckStatus::Pass, "Shell integration active"@, None),
        ShellIntegration::DirectoryMissing => (CheckStatus::Fail, "PHM_MULTISHELL_PATH set but directory missing"@, None),
        ShellIntegration::NotLoaded => (
            CheckStatus::Fail,
            "Shell integration not loaded"@,
            Some("Add to .zshrc: eval \"$(phm env --shell=zsh --use-on-cd)\""@),
        ),
    }
}

pub open spec fn herd_check(path: Seq<char>) -> CheckModel {
    if contains(path, seq!['H', 'e', 'r', 'd', '/', 'b', 'i', 'n']) {
        (
            CheckStatus::Fail,
            "Herd is still in PATH \u{2014} may conflict with phm"@,
            Some("Remove from .zshrc: export PATH=\".../Herd/bin/:$PATH\""@),
        )
    } else {
        (CheckStatus::Pass, "No Herd conflict"@, None)
    }
}

pub open spec fn composer_check(found: bool) -> CheckModel {
    if found {
        (CheckStatus::Pass, "Composer found"@, None)
    } else {
        (CheckStatus::Fail, "Composer not found"@, Some("Install with: brew install composer"@))
    }
}

pub open spec fn stale_checks(stale: Option<usize>) -> Seq<CheckModel> {
    match stale {
        Some(k) => if k > 0 {
            seq![(CheckStatus::Warn, decimal(k as nat) + " stale multishell dir(s) (cleaned up on next shell init)"@, None)]
        } else {
            seq![(CheckStatus::Pass, "No stale multishell directories"@, None)]
        },
        None => seq![],
    }
}

/// The report on `f`: installed versions, default version, shell integration, Herd on
/// `PATH`, composer, and stale multishell directories when there is a base directory.
pub open spec fn doctor_checks(f: DoctorFacts) -> Seq<CheckModel> {
    seq![
        versions_check(f.versions@),
        default_check(f.versions@, match f.default {
            Some(d) => Some(d@),
            None => None,
        }),
        shell_check(f.shell),
        herd_check(f.path_env@),
        composer_check(f.composer_found),
    ] + stale_checks(f.stale_dirs)
}

/// The default-version check is the second line of the report. It passes, naming the default,
/// exactly when the `default` file's text is the printed text of some installed version,
/// wherever that version stands in the list; otherwise it fails and counts as an issue.
pub proof fn law_default_check_passes_when_installed(f: DoctorFacts)
    ensures
        doctor_checks(f).len() >= 5,
        (doctor_checks(f)[1].0 == CheckStatus::Pass) <==> (f.default is Some && exists|i: int|
            0 <= i < f.versions@.len() && version_text(#[trigger] f.versions@[i]) == f.default.unwrap()@),
        doctor_checks(f)[1].0 == CheckStatus::Pass ==> doctor_checks(f)[1].1 == "Default version: "@ + f.default.unwrap()@,
        doctor_checks(f)[1].0 != CheckStatus::Pass ==> doctor_checks(f)[1].0 == CheckStatus::Fail,
{
}

/// How many of the checks failed.
pub open spec fn failures(cs: Seq<CheckModel>) -> nat
    decreases cs.len(),
{
    if cs.len() == 0 {
        0
    } else {
        failures(cs.drop_last()) + if cs.last().0 == CheckStatus::Fail { 1nat } else { 0nat }
    }
}

pub open spec fn check_models(cs: Seq<Check>) -> Seq<CheckModel> {
    cs.map_values(|c: Check| c@)
}

fn check(status: CheckStatus, message: String, hint: Option<String>) -> (c: Check)
    ensures
        c.status == status,
        c.message == message,
        c.hint == hint,
{
    Check { status, message, hint }
}

/// The installed versions joined by `, `.
fn join_versions(vs: &Vec<PhpVersion>) -> (s: String)
    ensures
        s@ == joined(vs@),
{
    let mut s = String::new();
    let mut i: usize = 0;
    proof {
        reveal_strlit(", ");
        assert(vs@.take(0) =~= Seq::<PhpVersion>::empty());
    }
    while i < vs.len()
        invariant
            i <= vs.len(),
            s@ == joined(vs@.take(i as int)),
        decreases vs.len() - i,
    {
        if i > 0 {
            s.append(", ");
        }
        let t = vs[i].to_string();
        s.append(t.as_str());
        proof {
            let p = vs@.take(i + 1);
            assert(p.drop_last() =~= vs@.take(i as int));
            assert(p.last() == vs@[i as int]);
            if i == 0 {
                assert(s@ =~= joined(p));
            } else {
                assert(s@ =~= joined(p));
            }
        }
        i = i + 1;
    }
    proof {
        assert(vs@.take(vs.len() as int) =~= vs@);
    }
    s
}

fn versions_line(vs: &Vec<PhpVersion>) -> (c: Check)
    ensures
        c@ == versions_check(vs@),
{
    if vs.len() == 0 {
        check(
            CheckStatus::Fail,
            String::from_str("No PHP versions found in Homebrew"),
            Some(String::from_str("Install one with: brew install php@8.2")),
        )
    } else {
        let mut m = String::new();
        push_decimal(&mut m, vs.len() as u128);
        m.append(" PHP version(s) found: ");
        let j = join_versions(vs);
        m.append(j.as_str());
        check(CheckStatus::Pass, m, None)
    }
}

fn default_line(vs: &Vec<PhpVersion>, default: &Option<String>) -> (c: Check)
    ensures
        c@ == default_check(vs@, match *default {
            Some(d) => Some(d@),
            None => None,
        }),
{
    match default {
        Some(ver) => {
            let mut found = false;
            let mut i: usize = 0;
            while i < vs.len()
                invariant
                    i <= vs.len(),
                    found <==> exists|j: int| 0 <= j < i && version_text(#[trigger] vs@[j]) == ver@,
                decreases vs.len() - i,
            {
                let t = vs[i].to_string();
                if t == *ver {
                    found = true;
                }
                i = i + 1;
            }
            if found {
                let mut m = String::from_str("Default version: ");
                m.append(ver.as_str());
                check(CheckStatus::Pass, m, None)
            } else {
                let mut m = String::from_str("Default version ");
                m.append(ver.as_str());
                m.append(" is not installed");
                check(CheckStatus::Fail, m, None)
            }
        },
        None => check(
            CheckStatus::Fail,
            String::from_str("No default version set"),
            Some(String::from_str("Set one with: phm default <version>")),
        ),
    }
}

fn shell_line(s: ShellIntegration) -> (c: Check)
    ensures
        c@ == shell_check(s),
{
    match s {
        ShellIntegration::Active => check(CheckStatus::Pass, String::from_str("Shell integration active"), None),
        ShellIntegration::DirectoryMissing => check(
            CheckStatus::Fail,
            String::from_str("PHM_MULTISHELL_PATH set but directory missing"),
            None,
        ),
        ShellIntegration::NotLoaded => check(
            CheckStatus::Fail,
            String::from_str("Shell integration not loaded"),
            Some(String::from_str("Add to .zshrc: eval \"$(phm env --shell=zsh --use-on-cd)\"")),
        ),
    }
}

fn herd_line(path: &str) -> (c: Check)
    ensures
        c@ == herd_check(path@),
{
    let v = chars_of(path);
    let herd = vec!['H', 'e', 'r', 'd', '/', 'b', 'i', 'n'];
    proof {
        assert(v@.subrange(0, v@.len() as int) =~= path@);
    }
    if contains_in(v.as_slice(), 0, v.len(), herd.as_slice()) {
        check(
            CheckStatus::Fail,
            String::from_str("Herd is still in PATH \u{2014} may conflict with phm"),
            Some(String::from_str("Remove from .zshrc: export PATH=\".../Herd/bin/:$PATH\"")),
        )
    } else {
        check(CheckStatus::Pass, String::from_str("No Herd conflict"), None)
    }
}

fn composer_line(found: bool) -> (c: Check)
    ensures
        c@ == composer_check(found),
{
    if found {
        check(CheckStatus::Pass, String::from_str("Composer found"), None)
    } else {
        check(
            CheckStatus::Fail,
            String::from_str("Composer not found"),
            Some(String::from_str("Install with: brew install composer")),
        )
    }
}

proof fn lemma_models_push(cs: Seq<Check>, c: Check)
    ensures
        check_models(cs.push(c)) == check_models(cs).push(c@),
{
    assert(check_models(cs.push(c)) =~= check_models(cs).push(c@));
}

fn push_check(checks: &mut Vec<Check>, issues: &mut usize, c: Check)
    requires
        *old(issues) == failures(check_models(old(checks)@)),
        old(checks).len() < 10,
    ensures
        check_models(final(checks)@) == check_models(old(checks)@).push(c@),
        *final(issues) == failures(check_models(final(checks)@)),
        final(checks).len() == old(checks).len() + 1,
{
    proof {
        lemma_models_push(checks@, c);
    }
    let fail = c.status == CheckStatus::Fail;
    checks.push(c);
    proof {
        let m = check_models(checks@);
        assert(m.drop_last() =~= check_models(old(checks)@));
        lemma_failures_bound(check_models(old(checks)@));
    }
    if fail {
        *issues = *issues + 1;
    }
}

proof fn lemma_failures_bound(cs: Seq<CheckModel>)
    ensures
        failures(cs) <= cs.len(),
    decreases cs.len(),
{
    if cs.len() > 0 {
        lemma_failures_bound(cs.drop_last());
    }
}

/// The doctor's report on the facts: each check in order, and the number of failed ones.
pub fn doctor_report(facts: &DoctorFacts) -> (r: DoctorReport)
    ensures
        check_models(r.checks@) == doctor_checks(*facts),
        r.issues == failures(doctor_checks(*facts)),
{
    proof {
        reveal_strlit(" PHP version(s) found: ");
        reveal_strlit("Default version: ");
        reveal_strlit("Default version ");
        reveal_strlit(" is not installed");
        reveal_strlit(" stale multishell dir(s) (cleaned up on next shell init)");
    }
    let mut checks: Vec<Check> = Vec::new();
    let mut issues: usize = 0;
    proof {
        assert(check_models(checks@) =~= Seq::<CheckModel>::empty());
    }
    push_check(&mut checks, &mut issues, versions_line(&facts.versions));
    push_check(&mut checks, &mut issues, default_line(&facts.versions, &facts.default));
    push_check(&mut checks, &mut issues, shell_line(facts.shell));
    push_check(&mut checks, &mut issues, herd_line(facts.path_env.as_str()));
    push_check(&mut checks, &mut issues, composer_line(facts.composer_found));
    match facts.stale_dirs {
        Some(k) => {
            if k > 0 {
                let mut m = String::new();
                push_decimal(&mut m, k as u128);
                m.append(" stale multishell dir(s) (cleaned up on next shell init)");
                push_check(&mut checks, &mut issues, check(CheckStatus::Warn, m, None));
            } else {
                push_check(
                    &mut checks,
                    &mut issues,
                    check(CheckStatus::Pass, String::from_str("No stale multishell directories"), None),
                );
            }
        },
        None => {},
    }
    proof {
        assert(check_models(checks@) =~= doctor_checks(*facts));
    }
    DoctorReport { checks, issues }
}

} // verus!
