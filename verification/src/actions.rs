//! The decisions taken by the commands between their file, network and
//! process steps: whether a module is installed, reinstalled or left alone,
//! which modules to update, how plugin options change the declared plugins,
//! and which arguments Csound and Risset are run with.

use vstd::prelude::*;
use crate::collections::{StrMap, StrSet};
use crate::names::{full_name, full_name_spec};
use crate::text::{views, lemma_views_push, lemma_views_take_step};
use crate::names::ModuleTools;
use crate::remote::{RemoteRegistryIndex, ResolveError, resolve_spec};
use crate::registry::{LocalRegistry, RegistryData};
use crate::version::{
    Version, VersionError, VersionStatus, compare_spec, version_parse_defined, version_parse_spec,
};

verus! {

/// What to do with a module that is asked for.
#[derive(Debug, Clone, Copy, PartialEq, Eq, Structural)]
pub enum InstallAction {
    /// It is not there: install it.
    Install,
    /// Another version is there: remove it, then install.
    Reinstall,
    /// That version is there: nothing to do.
    AlreadyInstalled,
}

/// What to do with a module that is to be updated.
pub enum UpdateAction {
    /// The installed version is newer than the latest one offered.
    UpToDate,
    /// Update to `entry` (`name@latest`).
    Update { entry: String },
    /// The installed version is the latest one.
    AlreadyCurrent,
}

/// What `install_action` decides for a module declared at `existing`
/// (`None` when not declared) once `resolved` was chosen.
pub open spec fn install_spec(existing: Option<Seq<char>>, resolved: Seq<char>) -> Result<
    InstallAction,
    VersionError,
> {
    match existing {
        None => Ok(InstallAction::Install),
        Some(v) => match (version_parse_spec(v), version_parse_spec(resolved)) {
            (Ok(a), Ok(b)) => if compare_spec(a, b) == VersionStatus::Same {
                Ok(InstallAction::AlreadyInstalled)
            } else {
                Ok(InstallAction::Reinstall)
            },
            _ => Err(VersionError::InvalidFormat),
        },
    }
}

/// Decides whether a module declared at `existing` (`None` when it is not
/// declared) is installed, reinstalled or left alone, once `resolved` was chosen.
pub fn install_action(existing: Option<&str>, resolved: &str) -> (r: Result<InstallAction, VersionError>)
    requires
        existing matches Some(v) ==> version_parse_defined(v@) && (version_parse_spec(v@) is Ok
            ==> version_parse_defined(resolved@)),
    ensures
        r == install_spec(
            match existing {
                Some(v) => Some(v@),
                None => None,
            },
            resolved@,
        ),
{
    match existing {
        None => Ok(InstallAction::Install),
        Some(v) => {
            let a = Version::parse(v)?;
            let b = Version::parse(resolved)?;
            match a.compare(&b) {
                VersionStatus::Same => Ok(InstallAction::AlreadyInstalled),
                _ => Ok(InstallAction::Reinstall),
            }
        },
    }
}

/// Decides the update of `module`, installed at `installed`, given the
/// `latest` version chosen in the registry: an older installed version is
/// updated to `module@latest`.
pub fn classify_update(module: &str, installed: &str, latest: &str) -> (r: Result<UpdateAction, VersionError>)
    requires
        version_parse_defined(installed@),
        version_parse_defined(latest@),
    ensures
        match (version_parse_spec(installed@), version_parse_spec(latest@)) {
            (Ok(a), Ok(b)) => match compare_spec(a, b) {
                VersionStatus::Young => r matches Ok(UpdateAction::UpToDate),
                VersionStatus::Same => r matches Ok(UpdateAction::AlreadyCurrent),
                VersionStatus::Old => r matches Ok(UpdateAction::Update { entry }) && entry@
                    == full_name_spec(module@, latest@),
            },
            _ => r matches Err(VersionError::InvalidFormat),
        },
{
    let a = Version::parse(installed)?;
    let b = Version::parse(latest)?;
    match a.compare(&b) {
        VersionStatus::Young => Ok(UpdateAction::UpToDate),
        VersionStatus::Old => Ok(UpdateAction::Update { entry: full_name(module, latest) }),
        VersionStatus::Same => Ok(UpdateAction::AlreadyCurrent),
    }
}

/// What an update finds for one module.
pub enum UpdateCheck {
    /// The modules index has no entry for the module.
    NotInstalled,
    /// The module is installed: what to do with it.
    Decided(UpdateAction),
}

/// Why an update could not be decided.
#[derive(Debug)]
pub enum UpdateError {
    /// The installed version or the latest one is not `major.minor.patch`.
    InvalidVersion,
    /// The registry does not offer the module, or offers no version of it.
    ModuleNotFound { name: String },
}

/// The version an update moves to: the last one the registry lists.
pub open spec fn latest_spec(index: Option<&RemoteRegistryIndex>) -> Option<Seq<char>> {
    resolve_spec(
        None,
        match index {
            Some(ix) => Some(views(ix.versions@)),
            None => None,
        },
    )
}

/// Decides the update of `module`, installed at `installed` (`None` when the
/// modules index has no entry for it), given what the remote index says of
/// it (`index`, `None` when it has no entry): an installed version older than
/// the last one listed is updated to it.
pub fn update_check(module: &str, installed: Option<&str>, index: Option<&RemoteRegistryIndex>) -> (r:
    Result<UpdateCheck, UpdateError>)
    requires
        installed matches Some(v) ==> version_parse_defined(v@) && (version_parse_spec(v@) is Ok
            ==> (latest_spec(index) matches Some(l) ==> version_parse_defined(l))),
    ensures
        match installed {
            None => r matches Ok(UpdateCheck::NotInstalled),
            Some(v) => match version_parse_spec(v@) {
                Err(_) => r matches Err(UpdateError::InvalidVersion),
                Ok(a) => match latest_spec(index) {
                    None => r matches Err(UpdateError::ModuleNotFound { name }) && name@ == module@,
                    Some(l) => match version_parse_spec(l) {
                        Err(_) => r matches Err(UpdateError::InvalidVersion),
                        Ok(b) => match compare_spec(a, b) {
                            VersionStatus::Young => r matches Ok(
                                UpdateCheck::Decided(UpdateAction::UpToDate),
                            ),
                            VersionStatus::Same => r matches Ok(
                                UpdateCheck::Decided(UpdateAction::AlreadyCurrent),
                            ),
                            VersionStatus::Old => r matches Ok(
                                UpdateCheck::Decided(UpdateAction::Update { entry }),
                            ) && entry@ == full_name_spec(module@, l),
                        },
                    },
                },
            },
        },
{
    let v = match installed {
        None => {
            return Ok(UpdateCheck::NotInstalled);
        },
        Some(v) => v,
    };
    if Version::parse(v).is_err() {
        return Err(UpdateError::InvalidVersion);
    }
    let latest = match ModuleTools::resolve_module_version(module, None, index) {
        Ok(l) => l,
        Err(ResolveError::ModuleNotFound { name }) => {
            return Err(UpdateError::ModuleNotFound { name });
        },
        Err(ResolveError::VersionNotFound { name, .. }) => {
            return Err(UpdateError::ModuleNotFound { name });
        },
    };
    match classify_update(module, v, latest.as_str()) {
        Ok(a) => Ok(UpdateCheck::Decided(a)),
        Err(_) => Err(UpdateError::InvalidVersion),
    }
}

/// The names of the modules in entries of a modules index, in order.
pub open spec fn entry_names(s: Seq<(String, String)>) -> Seq<Seq<char>> {
    s.map_values(|p: (String, String)| p.0@)
}

/// The modules an update looks at: those named in `modules`, or, when none
/// is named, every module of the modules index (none when the index holds no
/// installed modules).
pub fn update_candidates(registry: &LocalRegistry, modules: Option<&Vec<String>>) -> (r: Vec<String>)
    ensures
        match modules {
            Some(m) => views(r@) == views(m@),
            None => match registry.registry {
                Some(RegistryData::ModulesRegistry(map)) => views(r@) == entry_names(map.pairs()),
                _ => r@.len() == 0,
            },
        },
{
    match modules {
        Some(m) => {
            let mut r: Vec<String> = Vec::new();
            let mut i: usize = 0;
            while i < m.len()
                invariant
                    i <= m@.len(),
                    views(r@) == views(m@.take(i as int)),
                decreases m.len() - i,
            {
                let ghost prev = r@;
                let s = m[i].clone();
                let ghost sc = s;
                r.push(s);
                proof {
                    lemma_views_push(prev, sc);
                    lemma_views_take_step(m@, i as int);
                }
                i = i + 1;
            }
            assert(m@.take(i as int) =~= m@);
            r
        },
        None => {
            let mut r: Vec<String> = Vec::new();
            match &registry.registry {
                Some(RegistryData::ModulesRegistry(map)) => {
                    let entries = map.pairs_vec();
                    let mut i: usize = 0;
                    while i < entries.len()
                        invariant
                            entries@ == map.pairs(),
                            i <= entries@.len(),
                            views(r@) == entry_names(entries@.take(i as int)),
                        decreases entries.len() - i,
                    {
                        let ghost prev = r@;
                        let s = entries[i].0.clone();
                        let ghost sc = s;
                        r.push(s);
                        proof {
                            lemma_views_push(prev, sc);
                        }
                        assert(entry_names(entries@.take(i + 1)) =~= entry_names(
                            entries@.take(i as int),
                        ).push(entries@[i as int].0@));
                        i = i + 1;
                    }
                    assert(entries@.take(i as int) =~= entries@);
                    r
                },
                _ => r,
            }
        },
    }
}

/// The first requested module that the manifest does not declare, if any.
pub fn undeclared_module(requested: &Vec<String>, deps: &StrMap<String>) -> (r: Option<String>)
    requires
        deps.wf(),
    ensures
        match r {
            Some(m) => exists|i: int|
                0 <= i < requested@.len() && #[trigger] requested@[i]@ == m@
                    && !deps@.contains_key(m@) && forall|j: int|
                    0 <= j < i ==> deps@.contains_key(#[trigger] requested@[j]@),
            None => forall|i: int|
                0 <= i < requested@.len() ==> deps@.contains_key(#[trigger] requested@[i]@),
        },
{
    let mut i: usize = 0;
    while i < requested.len()
        invariant
            deps.wf(),
            i <= requested@.len(),
            forall|j: int| 0 <= j < i ==> deps@.contains_key(#[trigger] requested@[j]@),
        decreases requested.len() - i,
    {
        if !deps.contains_key(requested[i].as_str()) {
            return Some(requested[i].clone());
        }
        i = i + 1;
    }
    None
}

/// The option `x` is one of the words `w` (`install` or `remove`),
/// `--force` or `-f`.
pub open spec fn is_keyword(x: Seq<char>, w: Seq<char>) -> bool {
    x == w || x == "--force"@ || x == "-f"@
}

/// How Risset options change the declared plugins: with `install` among
/// them, the options other than `install`, `--force` and `-f` (the plugin
/// names) are added; else, with `remove` among them, the options other than
/// `remove`, `--force` and `-f` are removed.
pub open spec fn plugin_changes_spec(options: Seq<Seq<char>>) -> (Set<Seq<char>>, Set<Seq<char>>) {
    if options.contains("install"@) {
        (
            Set::new(|x: Seq<char>| options.contains(x) && !is_keyword(x, "install"@)),
            Set::empty(),
        )
    } else if options.contains("remove"@) {
        (
            Set::empty(),
            Set::new(|x: Seq<char>| options.contains(x) && !is_keyword(x, "remove"@)),
        )
    } else {
        (Set::empty(), Set::empty())
    }
}

/// The plugins to add and to remove after Risset ran with `options`.
pub fn plugin_changes(options: &Vec<String>) -> (r: (StrSet, StrSet))
    ensures
        r.0.wf(),
        r.1.wf(),
        (r.0@, r.1@) == plugin_changes_spec(views(options@)),
{
    proof {
        reveal_strlit("install");
        reveal_strlit("remove");
        reveal_strlit("--force");
        reveal_strlit("-f");
    }
    let install = String::from_str("install");
    let remove = String::from_str("remove");
    let force_long = String::from_str("--force");
    let force_short = String::from_str("-f");
    let mut to_add = StrSet::new();
    let mut to_remove = StrSet::new();
    let ghost opts = views(options@);
    let has_install = crate::remote::contains_string(options, "install");
    let has_remove = crate::remote::contains_string(options, "remove");
    if !has_install && !has_remove {
        assert(to_add@ =~= Set::<Seq<char>>::empty());
        return (to_add, to_remove);
    }
    let word = if has_install {
        install
    } else {
        remove
    };
    let mut i: usize = 0;
    while i < options.len()
        invariant
            opts == views(options@),
            i <= options@.len(),
            to_add.wf(),
            to_remove.wf(),
            word@ == if has_install {
                "install"@
            } else {
                "remove"@
            },
            force_long@ == "--force"@,
            force_short@ == "-f"@,
            has_install ==> to_remove@ == Set::<Seq<char>>::empty() && to_add@ == Set::new(
                |x: Seq<char>| opts.take(i as int).contains(x) && !is_keyword(x, "install"@),
            ),
            !has_install ==> to_add@ == Set::<Seq<char>>::empty() && to_remove@ == Set::new(
                |x: Seq<char>| opts.take(i as int).contains(x) && !is_keyword(x, "remove"@),
            ),
        decreases options.len() - i,
    {
        let o = &options[i];
        let kw = *o == word || *o == force_long || *o == force_short;
        let ghost ov = o@;
        assert(opts[i as int] == ov);
        assert(opts.take(i + 1) =~= opts.take(i as int).push(ov));
        let ghost prev_add = to_add@;
        let ghost prev_remove = to_remove@;
        if has_install && !kw {
            to_add.insert(o.clone());
        } else if !has_install && !kw {
            to_remove.insert(o.clone());
        }
        let ghost t_old = opts.take(i as int);
        i = i + 1;
        let ghost t_new = opts.take(i as int);
        assert(t_new =~= t_old.push(ov));
        assert forall|x: Seq<char>| #[trigger] t_new.contains(x) <==> (t_old.contains(x) || x
            == ov) by {
            if t_new.contains(x) && x != ov {
                let j = choose|j: int| 0 <= j < t_new.len() && t_new[j] == x;
                assert(t_old[j] == x);
            }
            if t_old.contains(x) {
                let j = choose|j: int| 0 <= j < t_old.len() && t_old[j] == x;
                assert(t_new[j] == x);
            }
            if x == ov {
                assert(t_new[t_old.len() as int] == x);
            }
        }
        if has_install {
            assert(to_add@ =~= Set::new(
                |x: Seq<char>| opts.take(i as int).contains(x) && !is_keyword(x, "install"@),
            ));
        } else {
            assert(to_remove@ =~= Set::new(
                |x: Seq<char>| opts.take(i as int).contains(x) && !is_keyword(x, "remove"@),
            ));
        }
    }
    assert(opts.take(i as int) =~= opts);
    if has_install {
        assert(to_add@ =~= plugin_changes_spec(opts).0);
        assert(to_remove@ =~= plugin_changes_spec(opts).1);
    } else {
        assert(to_add@ =~= plugin_changes_spec(opts).0);
        assert(to_remove@ =~= plugin_changes_spec(opts).1);
    }
    (to_add, to_remove)
}

/// Adds `to_add` to the declared plugins, then takes out `to_remove`.
pub fn apply_plugin_changes(plugins: &mut StrSet, to_add: &StrSet, to_remove: &StrSet)
    requires
        old(plugins).wf(),
    ensures
        final(plugins).wf(),
        final(plugins)@ == old(plugins)@.union(to_add@).difference(to_remove@),
{
    plugins.extend(to_add);
    plugins.remove_all(to_remove);
}

/// The Risset arguments that install `plugins`: `install`, then each plugin.
pub fn risset_install_options(plugins: &StrSet) -> (r: Vec<String>)
    ensures
        views(r@) == seq!["install"@] + views(plugins.elems()),
{
    let mut r: Vec<String> = Vec::new();
    r.push(String::from_str("install"));
    let items = plugins.items_vec();
    let mut i: usize = 0;
    while i < items.len()
        invariant
            items@ == plugins.elems(),
            i <= items@.len(),
            views(r@) == seq!["install"@] + views(items@.take(i as int)),
        decreases items.len() - i,
    {
        let ghost prev = r@;
        let s = items[i].clone();
        let ghost sc = s;
        r.push(s);
        proof {
            lemma_views_push(prev, sc);
            lemma_views_take_step(items@, i as int);
        }
        i = i + 1;
        assert(views(r@) =~= seq!["install"@] + views(items@.take(i as int)));
    }
    assert(items@.take(i as int) =~= items@);
    r
}

/// The Csound arguments: the first script, the second one when there is
/// one, then the options.
pub fn csound_arguments(entry_point: &(String, String), cs_options: &Vec<String>) -> (r: Vec<String>)
    ensures
        views(r@) == seq![entry_point.0@] + (if entry_point.1@.len() > 0 {
            seq![entry_point.1@]
        } else {
            Seq::<Seq<char>>::empty()
        }) + views(cs_options@),
{
    let mut r: Vec<String> = Vec::new();
    r.push(entry_point.0.clone());
    if !entry_point.1.as_str().is_empty() {
        r.push(entry_point.1.clone());
    }
    let ghost head = views(r@);
    let ghost hn = r@.len();
    let mut i: usize = 0;
    while i < cs_options.len()
        invariant
            i <= cs_options@.len(),
            r@.len() == hn + i,
            views(r@) == head + views(cs_options@.take(i as int)),
        decreases cs_options.len() - i,
    {
        let ghost prev = r@;
        let s = cs_options[i].clone();
        let ghost sc = s;
        r.push(s);
        proof {
            lemma_views_push(prev, sc);
            lemma_views_take_step(cs_options@, i as int);
        }
        i = i + 1;
        assert(views(r@) =~= head + views(cs_options@.take(i as int)));
    }
    assert(cs_options@.take(i as int) =~= cs_options@);
    assert(views(r@) =~= seq![entry_point.0@] + (if entry_point.1@.len() > 0 {
        seq![entry_point.1@]
    } else {
        Seq::<Seq<char>>::empty()
    }) + views(cs_options@));
    r
}

/// Whether `init` creates a module (rather than a project): only when the
/// module flag is given without the project flag.
pub fn init_module_flag(module_flag: bool, project_flag: bool) -> (r: bool)
    ensures
        r == (module_flag && !project_flag),
{
    if !(module_flag ^ project_flag) || !module_flag {
        false
    } else {
        true
    }
}

/// Asking again for the version that is declared leaves the module alone.
pub proof fn law_same_version_already_installed(v: Seq<char>)
    requires
        version_parse_spec(v) is Ok,
    ensures
        install_spec(Some(v), v) == Ok::<InstallAction, VersionError>(
            InstallAction::AlreadyInstalled,
        ),
{
}

/// Asking for another version of a declared module reinstalls it, when both
/// versions are well formed and differ in some number.
pub proof fn law_other_version_reinstalled(v: Seq<char>, w: Seq<char>)
    requires
        version_parse_spec(v) is Ok,
        version_parse_spec(w) is Ok,
        version_parse_spec(v) != version_parse_spec(w),
    ensures
        install_spec(Some(v), w) == Ok::<InstallAction, VersionError>(InstallAction::Reinstall),
{
    crate::version::law_compare_same_iff_equal(
        version_parse_spec(v)->Ok_0,
        version_parse_spec(w)->Ok_0,
    );
}

} // verus!
