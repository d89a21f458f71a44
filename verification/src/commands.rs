//! The decisions behind the `install`, `uninstall`, `exec`, `use` and `list` commands.
use vstd::prelude::*;
use crate::discover::PhpInstallation;
use crate::text::{chars_of, trim, trim_range};
use crate::version::{
    parsed_version, satisfies, version_le, version_text, PhpVersion, UpperBound, VersionConstraint,
};

verus! {

/// How `phm install` installs a version with Homebrew.
#[derive(Debug, Clone)]
pub struct InstallPlan {
    /// The tap to add first, if any.
    pub tap: Option<String>,
    /// The formula to install.
    pub formula: String,
}

/// Whether and how `phm uninstall` removes a version.
#[derive(Debug, Clone)]
pub enum UninstallDecision {
    /// The version is not installed; nothing is done.
    NotInstalled,
    /// The version is the default one and is kept.
    IsDefault,
    /// The formula to uninstall.
    Remove(String),
}

/// What `phm use` does once it knows the required version.
#[derive(Debug, Clone, Copy, PartialEq, Eq, Structural)]
pub enum UseOutcome {
    /// The shell already uses this version, which meets the requirement.
    AlreadyUsing(PhpVersion),
    /// Link the installation at this index.
    Switch(usize),
    /// Nothing installed meets the requirement; this is the version to offer to install.
    Missing(PhpVersion),
}

/// The next step in settling which version `phm use` asks for.
#[derive(Debug, Clone, Copy, PartialEq, Eq, Structural)]
pub enum RequirementStep {
    /// The requirement is known.
    Ready(VersionConstraint),
    /// The version named on the command line is not a version.
    InvalidVersion,
    /// Look for `.php-version` or `composer.json` from the working directory up.
    NeedDetection,
    /// Read the default version.
    NeedDefault,
    /// The default version is not a version.
    InvalidDefault,
    /// Nothing asks for a version and `--silent-if-unchanged` was given: stop quietly.
    SilentExit,
    /// Nothing asks for a version: report that none was given and none is the default.
    NoVersion,
}

/// Versions up to 7 come from the `shivammathur/php` tap; newer ones from Homebrew core.
pub open spec fn needs_tap(v: PhpVersion) -> bool {
    v.major <= 7
}

pub open spec fn formula_text(v: PhpVersion) -> Seq<char> {
    if needs_tap(v) {
        "shivammathur/php/php@"@ + version_text(v)
    } else {
        "php@"@ + version_text(v)
    }
}

/// Every version before PHP 8 (5.x, 7.x, ...) comes from the `shivammathur/php` tap, which is
/// added first; from PHP 8 on the formula is Homebrew core's `php@X.Y` and no tap is added.
pub proof fn law_old_versions_use_the_tap(v: PhpVersion)
    ensures
        v.major < 8 ==> needs_tap(v) && formula_text(v) == "shivammathur/php/php@"@ + version_text(v),
        v.major >= 8 ==> !needs_tap(v) && formula_text(v) == "php@"@ + version_text(v),
{
}

/// Some installation has version `v`.
pub open spec fn is_installed(installed: Seq<PhpInstallation>, v: PhpVersion) -> bool {
    exists|i: int| 0 <= i < installed.len() && #[trigger] installed[i].version == v
}

/// The version that the shell's `current` file names, if it parses.
pub open spec fn current_version(current: Option<Seq<char>>) -> Option<PhpVersion> {
    match current {
        Some(c) => parsed_version(c),
        None => None,
    }
}

/// The Homebrew formula and tap for installing `v`.
pub fn install_plan(v: PhpVersion) -> (plan: InstallPlan)
    ensures
        plan.formula@ == formula_text(v),
        match plan.tap {
            Some(t) => needs_tap(v) && t@ == "shivammathur/php"@,
            None => !needs_tap(v),
        },
{
    let text = v.to_string();
    if v.major <= 7 {
        let mut formula = String::from_str("shivammathur/php/php@");
        formula.append(text.as_str());
        InstallPlan { tap: Some(String::from_str("shivammathur/php")), formula }
    } else {
        let mut formula = String::from_str("php@");
        formula.append(text.as_str());
        InstallPlan { tap: None, formula }
    }
}

/// Whether uninstalling `v` goes ahead: not when it is not installed, nor when it is the
/// default version (`default` is the text of the `default` file); otherwise its formula.
pub fn uninstall_decision(v: PhpVersion, installed: &Vec<PhpInstallation>, default: Option<&str>) -> (d: UninstallDecision)
    ensures
        match d {
            UninstallDecision::NotInstalled => !is_installed(installed@, v),
            UninstallDecision::IsDefault => is_installed(installed@, v) && default is Some
                && default->0@ == version_text(v),
            UninstallDecision::Remove(f) => is_installed(installed@, v) && !(default is Some
                && default->0@ == version_text(v)) && f@ == "php@"@ + version_text(v),
        },
{
    if find_installation(installed, v).is_none() {
        return UninstallDecision::NotInstalled;
    }
    let text = v.to_string();
    if let Some(d) = default {
        if String::from_str(d) == text {
            return UninstallDecision::IsDefault;
        }
    }
    let mut formula = String::from_str("php@");
    formula.append(text.as_str());
    UninstallDecision::Remove(formula)
}

/// The first installation with version `v`.
pub fn find_installation(installed: &Vec<PhpInstallation>, v: PhpVersion) -> (r: Option<usize>)
    ensures
        match r {
            Some(i) => i < installed.len() && installed@[i as int].version == v && forall|j: int|
                0 <= j < i ==> #[trigger] installed@[j].version != v,
            None => !is_installed(installed@, v),
        },
{
    let mut i: usize = 0;
    while i < installed.len()
        invariant
            i <= installed.len(),
            forall|j: int| 0 <= j < i ==> #[trigger] installed@[j].version != v,
        decreases installed.len() - i,
    {
        if installed[i].version == v {
            return Some(i);
        }
        i = i + 1;
    }
    None
}

/// `PATH` for `phm exec`: the installation's bin directory first, then the current `PATH`.
pub fn exec_path(bin_dir: &str, current_path: &str) -> (p: String)
    ensures
        p@ == bin_dir@ + seq![':'] + current_path@,
{
    let mut p = String::from_str(bin_dir);
    proof {
        reveal_strlit(":");
    }
    p.append(":");
    p.append(current_path);
    p
}

/// The requirement that naming a version explicitly (or as the default) sets: exactly
/// that release line; `None` when the text is not a version.
pub fn exact_constraint(text: &str) -> (r: Option<VersionConstraint>)
    ensures
        match parsed_version(text@) {
            Some(v) => r == Some(VersionConstraint { target: v, upper: UpperBound::SameMinor }),
            None => r is None,
        },
{
    match PhpVersion::parse(text) {
        Some(v) => Some(VersionConstraint::exact(v)),
        None => None,
    }
}

/// What `phm use` does for `constraint`, given the version the shell currently uses
/// (the text of its `current` file) and the installed versions: nothing when the current
/// version meets the requirement; otherwise link the lowest installed version that meets
/// it (its first installation); otherwise report the target as missing.
pub fn plan_use(constraint: &VersionConstraint, current: Option<&str>, installed: &Vec<PhpInstallation>) -> (o: UseOutcome)
    ensures
        match current_version(
            match current {
                Some(c) => Some(c@),
                None => None,
            },
        ) {
            Some(cv) if satisfies(*constraint, cv) => o == UseOutcome::AlreadyUsing(cv),
            _ => match o {
                UseOutcome::Switch(i) => {
                    &&& i < installed.len()
                    &&& satisfies(*constraint, installed@[i as int].version)
                    &&& forall|j: int| 0 <= j < installed.len() && satisfies(*constraint, installed@[j].version)
                        ==> version_le(installed@[i as int].version, #[trigger] installed@[j].version)
                    &&& forall|j: int| 0 <= j < i ==> #[trigger] installed@[j].version != installed@[i as int].version
                },
                UseOutcome::Missing(t) => t == constraint.target && forall|j: int|
                    0 <= j < installed.len() ==> !satisfies(*constraint, #[trigger] installed@[j].version),
                UseOutcome::AlreadyUsing(_) => false,
            },
        },
{
    if let Some(c) = current {
        if let Some(cv) = PhpVersion::parse(c) {
            if constraint.satisfies(cv) {
                return UseOutcome::AlreadyUsing(cv);
            }
        }
    }
    let mut versions: Vec<PhpVersion> = Vec::new();
    let mut i: usize = 0;
    while i < installed.len()
        invariant
            i <= installed.len(),
            versions@.len() == i,
            forall|j: int| 0 <= j < i ==> #[trigger] versions@[j] == installed@[j].version,
        decreases installed.len() - i,
    {
        versions.push(installed[i].version);
        i = i + 1;
    }
    match constraint.resolve(versions.as_slice()) {
        Some(v) => {
            match find_installation(installed, v) {
                Some(k) => {
                    proof {
                        assert forall|j: int| 0 <= j < installed.len() && satisfies(*constraint, installed@[j].version) implies version_le(
                            installed@[k as int].version,
                            #[trigger] installed@[j].version,
                        ) by {
                            assert(versions@[j] == installed@[j].version);
                        }
                    }
                    UseOutcome::Switch(k)
                },
                None => {
                    proof {
                        let j = choose|j: int| 0 <= j < versions@.len() && versions@[j] == v;
                        assert(installed@[j].version == v);
                    }
                    UseOutcome::Missing(constraint.target)
                },
            }
        },
        None => {
            proof {
                assert forall|j: int| 0 <= j < installed.len() implies !satisfies(*constraint, #[trigger] installed@[j].version) by {
                    assert(versions@[j] == installed@[j].version);
                }
            }
            UseOutcome::Missing(constraint.target)
        },
    }
}

/// The text behind an optional string.
pub open spec fn text_of(o: Option<&str>) -> Option<Seq<char>> {
    match o {
        Some(t) => Some(t@),
        None => None,
    }
}

/// The requirement that the version text `t` sets, or `invalid` when it is not a version.
pub open spec fn exact_or(t: Seq<char>, invalid: RequirementStep) -> RequirementStep {
    match parsed_version(t) {
        Some(v) => RequirementStep::Ready(VersionConstraint { target: v, upper: UpperBound::SameMinor }),
        None => invalid,
    }
}

/// How `phm use` settles its requirement: a version named on the command line comes first;
/// then what `.php-version` or `composer.json` asks for (`detected`, once looked up); then the
/// default version (`default`, once read); with none of them it stops, quietly when
/// `silent_if_unchanged` is set. `None` for `detected` or `default` means not looked up yet.
pub open spec fn requirement(
    explicit: Option<Seq<char>>,
    detected: Option<Option<VersionConstraint>>,
    default: Option<Option<Seq<char>>>,
    silent_if_unchanged: bool,
) -> RequirementStep {
    match explicit {
        Some(t) => exact_or(t, RequirementStep::InvalidVersion),
        None => match detected {
            None => RequirementStep::NeedDetection,
            Some(Some(c)) => RequirementStep::Ready(c),
            Some(None) => match default {
                None => RequirementStep::NeedDefault,
                Some(Some(t)) => exact_or(t, RequirementStep::InvalidDefault),
                Some(None) => if silent_if_unchanged {
                    RequirementStep::SilentExit
                } else {
                    RequirementStep::NoVersion
                },
            },
        },
    }
}

/// The next step of `phm use` in settling its requirement, from what is known so far.
pub fn requirement_step(
    explicit: Option<&str>,
    detected: Option<Option<VersionConstraint>>,
    default: Option<Option<&str>>,
    silent_if_unchanged: bool,
) -> (step: RequirementStep)
    ensures
        step == requirement(
            text_of(explicit),
            detected,
            match default {
                Some(d) => Some(text_of(d)),
                None => None,
            },
            silent_if_unchanged,
        ),
{
    match explicit {
        Some(t) => match exact_constraint(t) {
            Some(c) => RequirementStep::Ready(c),
            None => RequirementStep::InvalidVersion,
        },
        None => match detected {
            None => RequirementStep::NeedDetection,
            Some(Some(c)) => RequirementStep::Ready(c),
            Some(None) => match default {
                None => RequirementStep::NeedDefault,
                Some(Some(t)) => match exact_constraint(t) {
                    Some(c) => RequirementStep::Ready(c),
                    None => RequirementStep::InvalidDefault,
                },
                Some(None) => if silent_if_unchanged {
                    RequirementStep::SilentExit
                } else {
                    RequirementStep::NoVersion
                },
            },
        },
    }
}

/// A line of `phm list`: `*` before the current version (a blank otherwise), then the version,
/// then which of current and default it is, in brackets, when it is either.
pub open spec fn list_line_text(v: PhpVersion, current: Option<Seq<char>>, default: Option<Seq<char>>) -> Seq<char> {
    let t = version_text(v);
    let is_current = current == Some(t);
    let is_default = default == Some(t);
    (if is_current {
        "* "@
    } else {
        "  "@
    }) + t + if is_current && is_default {
        " (current, default)"@
    } else if is_current {
        " (current)"@
    } else if is_default {
        " (default)"@
    } else {
        Seq::empty()
    }
}

/// The `phm list` line for `v`, given the text of the shell's `current` file and of the
/// `default` file.
pub fn list_line(v: PhpVersion, current: Option<&str>, default: Option<&str>) -> (line: String)
    ensures
        line@ == list_line_text(v, text_of(current), text_of(default)),
{
    let text = v.to_string();
    let is_current = match current {
        Some(c) => String::from_str(c) == text,
        None => false,
    };
    let is_default = match default {
        Some(d) => String::from_str(d) == text,
        None => false,
    };
    let mut line = if is_current {
        String::from_str("* ")
    } else {
        String::from_str("  ")
    };
    line.append(text.as_str());
    if is_current && is_default {
        line.append(" (current, default)");
    } else if is_current {
        line.append(" (current)");
    } else if is_default {
        line.append(" (default)");
    }
    proof {
        assert(line@ =~= list_line_text(v, text_of(current), text_of(default)));
    }
    line
}

/// The answer to the install prompt accepts: `y` or `Y`, ignoring surrounding whitespace.
pub open spec fn is_yes_text(answer: Seq<char>) -> bool {
    trim(answer) == seq!['y'] || trim(answer) == seq!['Y']
}

/// Whether an answer to the install prompt accepts it.
pub fn is_yes(answer: &str) -> (b: bool)
    ensures
        b == is_yes_text(answer@),
{
    let v = chars_of(answer);
    proof {
        assert(v@.subrange(0, v@.len() as int) =~= answer@);
    }
    let (a, e) = trim_range(v.as_slice(), 0, v.len());
    let b = e - a == 1 && (v[a] == 'y' || v[a] == 'Y');
    proof {
        let t = v@.subrange(a as int, e as int);
        if e - a == 1 {
            assert(t[0] == v@[a as int]);
            if b {
                assert(t =~= seq![v@[a as int]]);
            }
        }
        if t == seq!['y'] || t == seq!['Y'] {
            assert(t.len() == 1);
            assert(t[0] == v@[a as int]);
        }
    }
    b
}

} // verus!
