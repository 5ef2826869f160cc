//! The packages the web admin manages: an allowlist of names that were
//! confirmed to resolve on this host, and what is reported of each.

use vstd::prelude::*;

use crate::agent::error::{AgentError, ErrorKind};
use crate::agent::software::{PackageManager, valid_package_name, validate_package_name, package_name_is_valid};
use crate::order::{sort_strings, sorted_texts};
use crate::protocol::{CommandResult, CommandStatus, SoftwarePackage, copy_opt, opt_view};
use crate::text::{contains_text, owned, push_str, texts};

verus! {

/// `software management requires a Linux host` off Linux.
pub fn ensure_linux(on_linux: bool) -> (r: Result<(), AgentError>)
    ensures
        on_linux ==> r is Ok,
        !on_linux ==> (r matches Err(e) && e.kind == ErrorKind::Unavailable && e.message@
            == "software management requires a Linux host"@),
{
    if on_linux {
        Ok(())
    } else {
        Err(AgentError::unavailable("software management requires a Linux host"))
    }
}

/// A package installed on the host, and whether it is managed.
#[derive(Debug, Clone, PartialEq, Eq)]
pub struct InstalledSoftware {
    pub name: String,
    pub version: String,
    pub managed: bool,
}

pub struct SoftwareManager {
    allowed: Vec<String>,
    package_manager: Option<PackageManager>,
}

pub struct ManagerView {
    pub allowed: Set<Seq<char>>,
    pub package_manager: Option<PackageManager>,
}

impl View for SoftwareManager {
    type V = ManagerView;

    closed spec fn view(&self) -> ManagerView {
        ManagerView { allowed: texts(self.allowed@).to_set(), package_manager: self.package_manager }
    }
}

/// The state reported of one managed package: installed when a version is
/// installed, upgradable when a different version is available.
pub open spec fn package_view(name: Seq<char>, installed: Option<Seq<char>>, available: Option<Seq<char>>) -> (
    Seq<char>,
    bool,
    Option<Seq<char>>,
    Option<Seq<char>>,
    bool,
) {
    (name, installed is Some, installed, available, installed is Some && available is Some && available != installed)
}

pub open spec fn package_fields(p: SoftwarePackage) -> (Seq<char>, bool, Option<Seq<char>>, Option<Seq<char>>, bool) {
    (p.name@, p.installed, opt_view(p.installed_version), opt_view(p.available_version), p.upgradable)
}

pub fn package_state(name: String, installed_version: Option<String>, available_version: Option<String>) -> (r: SoftwarePackage)
    ensures
        package_fields(r) == package_view(name@, opt_view(installed_version), opt_view(available_version)),
{
    let installed = installed_version.is_some();
    let differs = match (&installed_version, &available_version) {
        (Some(a), Some(b)) => !crate::agent::events::text_eq(a.as_str(), b.as_str()),
        (None, Some(_)) => true,
        _ => false,
    };
    let upgradable = installed && available_version.is_some() && differs;
    SoftwarePackage { name, installed, installed_version, available_version, upgradable }
}

/// The valid names of the installed list, each once, in the order first
/// seen.
pub open spec fn first_names(items: Seq<(Seq<char>, Seq<char>)>) -> Seq<Seq<char>>
    decreases items.len(),
{
    if items.len() == 0 {
        seq![]
    } else {
        let rest = first_names(items.drop_last());
        if valid_package_name(items.last().0) && !rest.contains(items.last().0) {
            rest.push(items.last().0)
        } else {
            rest
        }
    }
}

/// The version of the first installed entry named `name`.
pub open spec fn first_version(items: Seq<(Seq<char>, Seq<char>)>, name: Seq<char>) -> Option<Seq<char>>
    decreases items.len(),
{
    if items.len() == 0 {
        None
    } else if items[0].0 == name {
        Some(items[0].1)
    } else {
        first_version(items.drop_first(), name)
    }
}

pub open spec fn installed_fields(p: InstalledSoftware) -> (Seq<char>, Seq<char>, bool) {
    (p.name@, p.version@, p.managed)
}

fn find_first(items: &Vec<(String, String)>, name: &String) -> (r: String)
    requires
        first_version(crate::text::pair_texts(items@), name@) is Some,
    ensures
        Some(r@) == first_version(crate::text::pair_texts(items@), name@),
{
    let ghost t = crate::text::pair_texts(items@);
    let mut i: usize = 0;
    assert(t.skip(0) =~= t);
    while i < items.len()
        invariant
            i <= items@.len(),
            t == crate::text::pair_texts(items@),
            first_version(t, name@) == first_version(t.skip(i as int), name@),
            first_version(t, name@) is Some,
        decreases items@.len() - i,
    {
        assert(t.skip(i as int).drop_first() =~= t.skip(i + 1));
        assert(t.skip(i as int)[0] == t[i as int]);
        if items[i].0 == *name {
            return items[i].1.clone();
        }
        i = i + 1;
    }
    assert(t.skip(i as int) =~= Seq::<(Seq<char>, Seq<char>)>::empty());
    String::new()
}

proof fn lemma_first_names_have_versions(items: Seq<(Seq<char>, Seq<char>)>, n: Seq<char>)
    requires
        first_names(items).contains(n),
    ensures
        first_version(items, n) is Some,
        valid_package_name(n),
    decreases items.len(),
{
    let rest = first_names(items.drop_last());
    if rest.contains(n) {
        lemma_first_names_have_versions(items.drop_last(), n);
        lemma_first_version_prefix(items, n);
    } else {
        assert(items.last().0 == n);
        lemma_first_version_last(items, n);
    }
}

proof fn lemma_first_version_prefix(items: Seq<(Seq<char>, Seq<char>)>, n: Seq<char>)
    requires
        items.len() > 0,
        first_version(items.drop_last(), n) is Some,
    ensures
        first_version(items, n) == first_version(items.drop_last(), n),
    decreases items.len(),
{
    if items[0].0 != n {
        assert(items.drop_last().drop_first() =~= items.drop_first().drop_last());
        lemma_first_version_prefix(items.drop_first(), n);
    }
}

proof fn lemma_first_version_last(items: Seq<(Seq<char>, Seq<char>)>, n: Seq<char>)
    requires
        items.len() > 0,
        items.last().0 == n,
    ensures
        first_version(items, n) is Some,
    decreases items.len(),
{
    if items[0].0 != n {
        lemma_first_version_last(items.drop_first(), n);
    }
}

impl SoftwareManager {
    /// The manager of the packages in `allowed`; refuses an invalid name.
    pub fn new(allowed: Vec<String>, package_manager: Option<PackageManager>) -> (r: Result<SoftwareManager, AgentError>)
        ensures
            r is Ok <==> forall|i: int| 0 <= i < allowed@.len() ==> valid_package_name(#[trigger] allowed@[i]@),
            r matches Ok(m) ==> m@.allowed == texts(allowed@).to_set() && m@.package_manager == package_manager,
            r matches Err(e) ==> e.kind == ErrorKind::BadRequest && e.message@ == "invalid package name"@,
    {
        let mut i: usize = 0;
        while i < allowed.len()
            invariant
                i <= allowed@.len(),
                forall|j: int| 0 <= j < i ==> valid_package_name(#[trigger] allowed@[j]@),
            decreases allowed@.len() - i,
        {
            validate_package_name(allowed[i].as_str())?;
            i = i + 1;
        }
        Ok(SoftwareManager { allowed, package_manager })
    }

    /// The package manager, or the error of a host without a supported one.
    pub fn backend(&self) -> (r: Result<PackageManager, AgentError>)
        ensures
            match self@.package_manager {
                Some(p) => r == Ok::<PackageManager, AgentError>(p),
                None => r matches Err(e) && e.kind == ErrorKind::Unavailable && e.message@
                    == "no supported package manager (apt, dnf, pacman, or zypper) was found on this host"@,
            },
    {
        match self.package_manager {
            Some(p) => Ok(p),
            None => Err(
                AgentError::unavailable(
                    "no supported package manager (apt, dnf, pacman, or zypper) was found on this host",
                ),
            ),
        }
    }

    pub fn is_allowed(&self, name: &str) -> (r: bool)
        ensures
            r == self@.allowed.contains(name@),
    {
        let k = owned(name);
        let r = contains_text(&self.allowed, &k);
        proof {
            if r {
                assert(texts(self.allowed@).contains(name@));
            } else {
                assert(!texts(self.allowed@).contains(name@));
            }
        }
        r
    }

    /// A package may be installed, removed or upgraded only when its name
    /// is valid, it is on the allowlist, and the host has a package
    /// manager.
    pub fn ensure_allowed(&self, name: &str) -> (r: Result<PackageManager, AgentError>)
        ensures
            !valid_package_name(name@) ==> (r matches Err(e) && e.kind == ErrorKind::BadRequest),
            valid_package_name(name@) && !self@.allowed.contains(name@) ==> (r matches Err(e) && e.kind
                == ErrorKind::Forbidden && e.message@ == "software is not in the management allowlist: "@ + name@),
            valid_package_name(name@) && self@.allowed.contains(name@) ==> match self@.package_manager {
                Some(p) => r == Ok::<PackageManager, AgentError>(p),
                None => r matches Err(e) && e.kind == ErrorKind::Unavailable,
            },
    {
        validate_package_name(name)?;
        if !self.is_allowed(name) {
            let mut m = owned("software is not in the management allowlist: ");
            push_str(&mut m, name);
            return Err(AgentError::forbidden(m.as_str()));
        }
        self.backend()
    }

    /// The allowlist to persist before `name` joins it: the names as they
    /// are, with `name` at the end; `None` when it is there already.
    pub fn allowlist_with(&self, name: &str) -> (r: Option<Vec<String>>)
        ensures
            self@.allowed.contains(name@) ==> r is None,
            !self@.allowed.contains(name@) ==> (r matches Some(l) && texts(l@).to_set() == self@.allowed.insert(
                name@,
            )),
    {
        if self.is_allowed(name) {
            return None;
        }
        let mut l = copy_strings(&self.allowed);
        let ghost before = l@;
        l.push(owned(name));
        assert(texts(l@) =~= texts(before).push(name@));
        proof {
            crate::text::lemma_to_set_push(texts(before), name@);
        }
        Some(l)
    }

    /// The allowlist to persist once `name` leaves it; `None` when it is
    /// not there.
    pub fn allowlist_without(&self, name: &str) -> (r: Option<Vec<String>>)
        ensures
            !self@.allowed.contains(name@) ==> r is None,
            self@.allowed.contains(name@) ==> (r matches Some(l) && texts(l@).to_set() == self@.allowed.remove(
                name@,
            )),
    {
        if !self.is_allowed(name) {
            return None;
        }
        let mut out: Vec<String> = Vec::new();
        let mut i: usize = 0;
        while i < self.allowed.len()
            invariant
                i <= self.allowed@.len(),
                texts(out@).to_set() == texts(self.allowed@).take(i as int).to_set().remove(name@),
            decreases self.allowed@.len() - i,
        {
            let ghost pre = texts(self.allowed@).take(i as int);
            assert(texts(self.allowed@).take(i + 1) =~= pre.push(self.allowed@[i as int]@));

            proof {
                crate::text::lemma_to_set_push(pre, self.allowed@[i as int]@);
            }
            if !crate::agent::events::text_eq(self.allowed[i].as_str(), name) {
                let ghost ob = texts(out@);
                out.push(self.allowed[i].clone());
                assert(texts(out@) =~= ob.push(self.allowed@[i as int]@));
                proof {
                    crate::text::lemma_to_set_push(ob, self.allowed@[i as int]@);
                }
                assert(texts(out@).to_set() =~= pre.push(self.allowed@[i as int]@).to_set().remove(name@));
            } else {
                assert(texts(out@).to_set() =~= pre.push(self.allowed@[i as int]@).to_set().remove(name@));
            }
            i = i + 1;
        }
        assert(texts(self.allowed@).take(self.allowed@.len() as int) =~= texts(self.allowed@));
        Some(out)
    }

    /// Records that `name` joined the allowlist (once persisted).
    pub fn record_allowed(&mut self, name: &str)
        ensures
            final(self)@.allowed == old(self)@.allowed.insert(name@),
            final(self)@.package_manager == old(self)@.package_manager,
    {
        if !self.is_allowed(name) {
            let ghost before = self.allowed@;
            self.allowed.push(owned(name));
            assert(texts(self.allowed@) =~= texts(before).push(name@));
            proof {
                crate::text::lemma_to_set_push(texts(before), name@);
            }
        } else {
            assert(old(self)@.allowed.insert(name@) =~= old(self)@.allowed);
        }
    }

    /// Records that `name` left the allowlist (once persisted).
    pub fn record_disallowed(&mut self, name: &str)
        ensures
            final(self)@.allowed == old(self)@.allowed.remove(name@),
            final(self)@.package_manager == old(self)@.package_manager,
    {
        match self.allowlist_without(name) {
            Some(l) => {
                self.allowed = l;
            },
            None => {
                assert(old(self)@.allowed.remove(name@) =~= old(self)@.allowed);
            },
        }
    }

    /// The managed names, sorted: the packages `list` reports on.
    pub fn sorted_names(&self) -> (r: Vec<String>)
        ensures
            vstd::relations::sorted_by(texts(r@), crate::order::text_order()),
            texts(r@).to_set() == self@.allowed,
    {
        let r = sort_strings(&self.allowed);
        proof {
            let le = crate::order::text_order();
            crate::order::lemma_text_order_total();
            texts(self.allowed@).lemma_sort_by_ensures(le);
            texts(r@).to_multiset_ensures();
            texts(self.allowed@).to_multiset_ensures();
            assert forall|x: Seq<char>| texts(r@).to_set().contains(x) <==> self@.allowed.contains(x) by {
                assert(texts(r@).to_multiset().count(x) == texts(self.allowed@).to_multiset().count(x));
            }
            assert(texts(r@).to_set() =~= self@.allowed);
        }
        r
    }

    /// Every installed package with a valid name, once, sorted by name,
    /// with the version it was first listed with, flagged when managed.
    pub fn installed_list(&self, installed: &Vec<(String, String)>) -> (r: Vec<InstalledSoftware>)
        ensures
            r@.len() == sorted_texts(first_names(crate::text::pair_texts(installed@))).len(),
            forall|k: int|
                0 <= k < r@.len() ==> {
                    let n = sorted_texts(first_names(crate::text::pair_texts(installed@)))[k];
                    &&& #[trigger] r@[k].name@ == n
                    &&& Some(r@[k].version@) == first_version(crate::text::pair_texts(installed@), n)
                    &&& r@[k].managed == self@.allowed.contains(n)
                },
    {
        let ghost t = crate::text::pair_texts(installed@);
        let mut names: Vec<String> = Vec::new();
        let mut i: usize = 0;
        while i < installed.len()
            invariant
                i <= installed@.len(),
                t == crate::text::pair_texts(installed@),
                texts(names@) == first_names(t.take(i as int)),
            decreases installed@.len() - i,
        {
            assert(t.take(i + 1).drop_last() =~= t.take(i as int));
            let name = &installed[i].0;
            if package_name_is_valid(name.as_str()) && !contains_text(&names, name) {
                let ghost before = names@;
                names.push(name.clone());
                assert(texts(names@) =~= texts(before).push(name@));
            }
            i = i + 1;
        }
        assert(t.take(installed@.len() as int) =~= t);
        let sorted = sort_strings(&names);
        let ghost fs = first_names(t);
        proof {
            let le = crate::order::text_order();
            crate::order::lemma_text_order_total();
            fs.lemma_sort_by_ensures(le);
            fs.to_multiset_ensures();
            sorted_texts(fs).to_multiset_ensures();
        }
        let mut out: Vec<InstalledSoftware> = Vec::new();
        let mut k: usize = 0;
        while k < sorted.len()
            invariant
                k <= sorted@.len(),
                texts(sorted@) == sorted_texts(fs),
                fs == first_names(t),
                t == crate::text::pair_texts(installed@),
                sorted_texts(fs).to_multiset() == fs.to_multiset(),
                forall|x: Seq<char>| sorted_texts(fs).contains(x) <==> sorted_texts(fs).to_multiset().count(x) > 0,
                forall|x: Seq<char>| fs.contains(x) <==> fs.to_multiset().count(x) > 0,
                sorted_texts(fs).len() == fs.len(),
                out@.len() == k,
                forall|j: int|
                    0 <= j < k ==> {
                        let n = sorted_texts(fs)[j];
                        &&& #[trigger] out@[j].name@ == n
                        &&& Some(out@[j].version@) == first_version(t, n)
                        &&& out@[j].managed == self@.allowed.contains(n)
                    },
            decreases sorted@.len() - k,
        {
            let name = &sorted[k];
            let ghost n = sorted_texts(fs)[k as int];
            assert(name@ == n);
            proof {
                assert(sorted_texts(fs).contains(n));
                sorted_texts(fs).to_multiset_ensures();
                fs.to_multiset_ensures();
                assert(sorted_texts(fs).to_multiset().count(n) > 0);
                assert(fs.contains(n));
                lemma_first_names_have_versions(t, n);
            }
            let version = find_first(installed, name);
            let managed = self.is_allowed(name.as_str());
            let ghost before = out@;
            out.push(InstalledSoftware { name: name.clone(), version, managed });
            assert(forall|j: int| 0 <= j < k ==> out@[j] == before[j]);
            k = k + 1;
        }
        out
    }
}

/// A copy of a list of strings.
pub fn copy_strings(items: &Vec<String>) -> (r: Vec<String>)
    ensures
        texts(r@) == texts(items@),
{
    let mut out: Vec<String> = Vec::new();
    let mut i: usize = 0;
    while i < items.len()
        invariant
            i <= items@.len(),
            texts(out@) == texts(items@).take(i as int),
        decreases items@.len() - i,
    {
        let ghost before = out@;
        let x = items[i].clone();
        proof {
            crate::text::lemma_texts_push(before, x);
        }
        out.push(x);
        assert(texts(items@).take(i + 1) =~= texts(items@).take(i as int).push(items@[i as int]@));
        i = i + 1;
    }
    assert(texts(items@).take(items@.len() as int) =~= texts(items@));
    out
}

/// The answer to a change of the allowlist or a package.
pub fn software_result(command_id: String, name: &str, what: &str) -> (r: CommandResult)
    ensures
        r.command_id@ == command_id@,
        r.status == CommandStatus::Completed,
        opt_view(r.message) == Some(name@ + what@),
{
    let mut m = owned(name);
    push_str(&mut m, what);
    CommandResult { command_id, status: CommandStatus::Completed, message: Some(m) }
}

/// A change to one package.
#[derive(Debug, Clone, Copy, PartialEq, Eq, Structural)]
pub enum PackageAction {
    Install,
    Remove,
    Upgrade,
}

/// One command of a change: the program, its arguments, and its timeout in
/// seconds.
pub struct Step {
    pub program: &'static str,
    pub args: Vec<String>,
    pub timeout_seconds: u64,
}

pub type StepView = (Seq<char>, Seq<Seq<char>>, u64);

pub open spec fn step_views(steps: Seq<Step>) -> Seq<StepView> {
    steps.map_values(|s: Step| (s.program@, texts(s.args@), s.timeout_seconds))
}

/// The commands that carry out a change with each package manager:
/// installs and upgrades refresh the package index first; removal never
/// purges configuration where the backend tells the two apart.
pub open spec fn steps_of(pm: PackageManager, action: PackageAction, name: Seq<char>) -> Seq<StepView> {
    match pm {
        PackageManager::Apt => match action {
            PackageAction::Install => seq![
                ("apt-get"@, seq!["update"@], 120u64),
                ("apt-get"@, seq!["install"@, "-y"@, name], 180u64),
            ],
            PackageAction::Remove => seq![("apt-get"@, seq!["remove"@, "-y"@, name], 180u64)],
            PackageAction::Upgrade => seq![
                ("apt-get"@, seq!["update"@], 120u64),
                ("apt-get"@, seq!["install"@, "--only-upgrade"@, "-y"@, name], 180u64),
            ],
        },
        PackageManager::Dnf => match action {
            PackageAction::Install => seq![
                ("dnf"@, seq!["makecache"@, "--refresh"@], 120u64),
                ("dnf"@, seq!["install"@, "-y"@, name], 180u64),
            ],
            PackageAction::Remove => seq![("dnf"@, seq!["remove"@, "-y"@, name], 180u64)],
            PackageAction::Upgrade => seq![
                ("dnf"@, seq!["makecache"@, "--refresh"@], 120u64),
                ("dnf"@, seq!["upgrade"@, "-y"@, name], 180u64),
            ],
        },
        PackageManager::Pacman => match action {
            PackageAction::Remove => seq![("pacman"@, seq!["-R"@, "--noconfirm"@, name], 180u64)],
            _ => seq![("pacman"@, seq!["-Syu"@, "--noconfirm"@, name], 600u64)],
        },
        PackageManager::Zypper => match action {
            PackageAction::Install => seq![
                ("zypper"@, seq!["--non-interactive"@, "refresh"@], 120u64),
                ("zypper"@, seq!["--non-interactive"@, "install"@, name], 180u64),
            ],
            PackageAction::Remove => seq![("zypper"@, seq!["--non-interactive"@, "remove"@, name], 180u64)],
            PackageAction::Upgrade => seq![
                ("zypper"@, seq!["--non-interactive"@, "refresh"@], 120u64),
                ("zypper"@, seq!["--non-interactive"@, "update"@, name], 180u64),
            ],
        },
    }
}

/// Removing a package is one command of three minutes whose last argument
/// is the package; none of the options before it purges configuration. With
/// apt it is exactly `apt-get remove -y NAME`.
pub proof fn lemma_removal_keeps_configuration(pm: PackageManager, name: Seq<char>)
    ensures
        steps_of(pm, PackageAction::Remove, name).len() == 1,
        ({
            let s = steps_of(pm, PackageAction::Remove, name)[0];
            &&& s.1.len() > 0
            &&& s.1.last() == name
            &&& s.2 == 180
            &&& forall|k: int|
                0 <= k < s.1.len() - 1 ==> #[trigger] s.1[k] != "purge"@ && s.1[k] != "--purge"@ && s.1[k]
                    != "-Rn"@ && s.1[k] != "-Rns"@
        }),
        pm is Apt ==> steps_of(pm, PackageAction::Remove, name) == seq![
            ("apt-get"@, seq!["remove"@, "-y"@, name], 180u64),
        ],
{
    reveal_strlit("purge");
    reveal_strlit("--purge");
    reveal_strlit("-Rn");
    reveal_strlit("-Rns");
    reveal_strlit("remove");
    reveal_strlit("-y");
    reveal_strlit("-R");
    reveal_strlit("--noconfirm");
    reveal_strlit("--non-interactive");
    let s = steps_of(pm, PackageAction::Remove, name)[0];
    assert forall|k: int| 0 <= k < s.1.len() - 1 implies #[trigger] s.1[k] != "purge"@ && s.1[k] != "--purge"@
        && s.1[k] != "-Rn"@ && s.1[k] != "-Rns"@ by {
        assert(s.1[k].len() != "purge"@.len() || s.1[k][0] != "purge"@[0] || s.1[k][1] != "purge"@[1]);
        assert(s.1[k].len() != "--purge"@.len() || s.1[k][2] != "--purge"@[2]);
        assert(s.1[k].len() != "-Rn"@.len() || s.1[k][1] != "-Rn"@[1] || s.1[k][2] != "-Rn"@[2]);
        assert(s.1[k].len() != "-Rns"@.len() || s.1[k][2] != "-Rns"@[2]);
    }
}

/// Every command that changes packages runs without asking: apt and dnf
/// with `-y`, pacman with `--noconfirm`, zypper with `--non-interactive`.
/// Installing and upgrading never remove anything, and an apt upgrade only
/// upgrades (`--only-upgrade`), never installing a package that is missing.
pub proof fn lemma_changes_never_prompt(pm: PackageManager, action: PackageAction, name: Seq<char>)
    ensures
        ({
            let last = steps_of(pm, action, name).last().1;
            let flag = match pm {
                PackageManager::Apt => "-y"@,
                PackageManager::Dnf => "-y"@,
                PackageManager::Pacman => "--noconfirm"@,
                PackageManager::Zypper => "--non-interactive"@,
            };
            &&& steps_of(pm, action, name).len() > 0
            &&& exists|k: int| 0 <= k < last.len() - 1 && last[k] == flag
        }),
        !(action is Remove) ==> forall|i: int, k: int|
            0 <= i < steps_of(pm, action, name).len() && 0 <= k < steps_of(pm, action, name)[i].1.len() - 1
                ==> #[trigger] steps_of(pm, action, name)[i].1[k] != "remove"@ && steps_of(pm, action, name)[i].1[k]
                != "purge"@ && steps_of(pm, action, name)[i].1[k] != "-R"@,
        (pm is Apt && action is Upgrade) ==> steps_of(pm, action, name).last().1.contains("--only-upgrade"@),
{
    reveal_strlit("remove");
    reveal_strlit("purge");
    reveal_strlit("-R");
    reveal_strlit("-y");
    reveal_strlit("--noconfirm");
    reveal_strlit("--non-interactive");
    reveal_strlit("update");
    reveal_strlit("install");
    reveal_strlit("--only-upgrade");
    reveal_strlit("makecache");
    reveal_strlit("--refresh");
    reveal_strlit("upgrade");
    reveal_strlit("-Syu");
    reveal_strlit("refresh");
    let st = steps_of(pm, action, name);
    let last = st.last().1;
    match pm {
        PackageManager::Apt => {
            if action is Upgrade {
                assert(last[1] == "--only-upgrade"@);
                assert(last[2] == "-y"@);
            } else {
                assert(last[last.len() - 2] == "-y"@);
            }
        },
        PackageManager::Dnf => assert(last[last.len() - 2] == "-y"@),
        PackageManager::Pacman => assert(last[1] == "--noconfirm"@),
        PackageManager::Zypper => assert(last[0] == "--non-interactive"@),
    }
    if !(action is Remove) {
        assert forall|i: int, k: int|
            0 <= i < st.len() && 0 <= k < st[i].1.len() - 1 implies #[trigger] st[i].1[k] != "remove"@ && st[i].1[k]
            != "purge"@ && st[i].1[k] != "-R"@ by {
            let a = st[i].1[k];
            assert(a.len() != "remove"@.len() || a[0] != 'r' || a[1] != 'e' || a[2] != 'm');
            assert(a.len() != "purge"@.len() || a[0] != 'p');
            assert(a.len() != "-R"@.len() || a[1] != 'R');
        }
    }
}

/// Installing or upgrading ends with the command that names the package;
/// with apt, dnf and zypper a refresh of the package index comes first, the
/// same command whatever the package (`other` is any second name).
pub proof fn lemma_changes_refresh_first(pm: PackageManager, action: PackageAction, name: Seq<char>, other: Seq<char>)
    requires
        !(action is Remove),
    ensures
        steps_of(pm, action, name).len() > 0,
        steps_of(pm, action, name).last().1.len() > 0,
        steps_of(pm, action, name).last().1.last() == name,
        !(pm is Pacman) ==> {
            &&& steps_of(pm, action, name).len() == 2
            &&& steps_of(pm, action, name)[0].2 == 120
            &&& steps_of(pm, action, name)[0] == steps_of(pm, action, other)[0]
        },
{
}

fn args(items: Vec<&str>) -> (r: Vec<String>)
    ensures
        r@.len() == items@.len(),
        forall|i: int| 0 <= i < items@.len() ==> #[trigger] r@[i]@ == items@[i]@,
{
    let mut out: Vec<String> = Vec::new();
    let mut i: usize = 0;
    while i < items.len()
        invariant
            i <= items@.len(),
            out@.len() == i,
            forall|j: int| 0 <= j < i ==> #[trigger] out@[j]@ == items@[j]@,
        decreases items@.len() - i,
    {
        out.push(owned(items[i]));
        i = i + 1;
    }
    out
}

fn step(program: &'static str, items: Vec<&str>, timeout_seconds: u64) -> (r: Step)
    ensures
        r.program == program,
        texts(r.args@) == items@.map_values(|x: &str| x@),
        r.timeout_seconds == timeout_seconds,
{
    let a = args(items);
    assert(texts(a@) =~= items@.map_values(|x: &str| x@));
    Step { program, args: a, timeout_seconds }
}

/// The commands that carry out `action` on package `name`.
pub fn mutation_steps(pm: PackageManager, action: PackageAction, name: &str) -> (r: Vec<Step>)
    ensures
        step_views(r@) == steps_of(pm, action, name@),
        action is Remove ==> r@.len() == 1 && r@[0].timeout_seconds == 180 && texts(r@[0].args@).last() == name@,
        (pm is Apt && action is Remove) ==> r@[0].program@ == "apt-get"@ && texts(r@[0].args@) == seq![
            "remove"@,
            "-y"@,
            name@,
        ],
{
    proof {
        lemma_removal_keeps_configuration(pm, name@);
    }
    let r = match pm {
        PackageManager::Apt => match action {
            PackageAction::Install => vec![step("apt-get", vec!["update"], 120), step("apt-get", vec!["install", "-y", name], 180)],
            PackageAction::Remove => vec![step("apt-get", vec!["remove", "-y", name], 180)],
            PackageAction::Upgrade => vec![
                step("apt-get", vec!["update"], 120),
                step("apt-get", vec!["install", "--only-upgrade", "-y", name], 180),
            ],
        },
        PackageManager::Dnf => match action {
            PackageAction::Install => vec![
                step("dnf", vec!["makecache", "--refresh"], 120),
                step("dnf", vec!["install", "-y", name], 180),
            ],
            PackageAction::Remove => vec![step("dnf", vec!["remove", "-y", name], 180)],
            PackageAction::Upgrade => vec![
                step("dnf", vec!["makecache", "--refresh"], 120),
                step("dnf", vec!["upgrade", "-y", name], 180),
            ],
        },
        PackageManager::Pacman => match action {
            PackageAction::Remove => vec![step("pacman", vec!["-R", "--noconfirm", name], 180)],
            _ => vec![step("pacman", vec!["-Syu", "--noconfirm", name], 600)],
        },
        PackageManager::Zypper => match action {
            PackageAction::Install => vec![
                step("zypper", vec!["--non-interactive", "refresh"], 120),
                step("zypper", vec!["--non-interactive", "install", name], 180),
            ],
            PackageAction::Remove => vec![step("zypper", vec!["--non-interactive", "remove", name], 180)],
            PackageAction::Upgrade => vec![
                step("zypper", vec!["--non-interactive", "refresh"], 120),
                step("zypper", vec!["--non-interactive", "update", name], 180),
            ],
        },
    };
    assert(step_views(r@) =~~= steps_of(pm, action, name@));
    proof {
        if action is Remove {
            assert(step_views(r@)[0] == steps_of(pm, action, name@)[0]);
        }
    }
    r
}

} // verus!
