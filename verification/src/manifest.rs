//! The project manifest (`Cspm.toml`): package metadata, the entry point of
//! the Csound script, the declared dependencies and plugins.

use vstd::prelude::*;
use crate::collections::{StrMap, StrSet};
use crate::registry::{LocalRegistry, RegistryData, RegistryModel};

verus! {

/// The entry point of the project: a source folder and the script files.
pub struct MainEntry {
    pub src: String,
    pub csd: Option<String>,
    pub orc: Option<String>,
    pub sco: Option<String>,
    pub udo: Option<String>,
}

/// Package metadata.
pub struct MainPackage {
    pub name: String,
    pub version: String,
    pub mode: String,
    pub description: String,
    pub repository: String,
    pub authors: Vec<String>,
    pub license: String,
    pub cs_version: String,
    pub included: Vec<String>,
}

/// A project manifest.
pub struct Manifest {
    pub package: MainPackage,
    pub main: MainEntry,
    /// Module name to declared version.
    pub dependencies: StrMap<String>,
    pub plugins: StrSet,
}

/// Why no script can be run.
#[derive(Debug, Clone, Copy, PartialEq, Eq, Structural)]
pub enum EntryPointError {
    /// No source folder and no script is given.
    Empty,
    /// A `.csd` and an `.orc`/`.sco` pair are all given.
    ManyEntryPoints,
    /// Neither a `.csd` nor a complete `.orc`/`.sco` pair is given.
    MissingEntryPoint,
}

/// How the installed modules disagree with the manifest.
#[derive(Debug)]
pub enum ManifestError {
    /// The modules index has not been read.
    RegistryUnavailable,
    /// `name` is declared at `declared` but installed at `installed`.
    VersionMismatch { name: String, declared: String, installed: String },
    /// `name` is declared at `declared` and not installed.
    NotInstalled { name: String, declared: String },
}

/// The view of an optional string.
pub open spec fn opt_view(o: Option<String>) -> Option<Seq<char>> {
    match o {
        Some(s) => Some(s@),
        None => None,
    }
}

impl MainEntry {
    /// No source folder and no script.
    pub open spec fn is_empty_spec(&self) -> bool {
        self.src@.len() == 0 && self.csd is None && self.orc is None && self.sco is None
            && self.udo is None
    }

    /// The scripts to run: a module (`.udo`) runs nothing; a `.csd` runs alone
    /// (an `.orc` or `.sco` beside it is ignored) unless all three are given;
    /// otherwise an `.orc` and a `.sco` run together.
    pub open spec fn entry_point_spec(&self) -> Result<(Seq<char>, Seq<char>), EntryPointError> {
        if self.is_empty_spec() {
            Err(EntryPointError::Empty)
        } else if self.udo is Some {
            Ok((Seq::empty(), Seq::empty()))
        } else if self.csd is Some && self.orc is Some && self.sco is Some {
            Err(EntryPointError::ManyEntryPoints)
        } else if self.csd is Some {
            Ok((self.csd->0@, Seq::empty()))
        } else if self.orc is Some && self.sco is Some {
            Ok((self.orc->0@, self.sco->0@))
        } else {
            Err(EntryPointError::MissingEntryPoint)
        }
    }

    /// Whether no source folder and no script is given.
    pub fn is_empty(&self) -> (r: bool)
        ensures
            r == self.is_empty_spec(),
    {
        self.src.as_str().is_empty() && self.csd.is_none() && self.orc.is_none()
            && self.sco.is_none() && self.udo.is_none()
    }

    /// The scripts to hand to Csound: the first file and, for an
    /// `.orc`/`.sco` pair, the second one (empty otherwise).
    pub fn get_entry_point(&self) -> (r: Result<(String, String), EntryPointError>)
        ensures
            match (r, self.entry_point_spec()) {
                (Ok((a, b)), Ok((sa, sb))) => a@ == sa && b@ == sb,
                (Err(e), Err(se)) => e == se,
                _ => false,
            },
    {
        if self.is_empty() {
            return Err(EntryPointError::Empty);
        }
        if self.udo.is_some() {
            return Ok((String::new(), String::new()));
        }
        if self.csd.is_some() && self.orc.is_some() && self.sco.is_some() {
            return Err(EntryPointError::ManyEntryPoints);
        }
        if self.csd.is_none() && (self.orc.is_none() || self.sco.is_none()) {
            return Err(EntryPointError::MissingEntryPoint);
        }
        match &self.csd {
            Some(c) => Ok((c.clone(), String::new())),
            None => match (&self.orc, &self.sco) {
                (Some(o), Some(s)) => Ok((o.clone(), s.clone())),
                _ => Err(EntryPointError::MissingEntryPoint),
            },
        }
    }
}

/// Whether `installed` agrees with every declared dependency: installed, at
/// the declared version.
pub open spec fn deps_installed(
    deps: Map<Seq<char>, Seq<char>>,
    installed: Map<Seq<char>, Seq<char>>,
) -> bool {
    forall|d: Seq<char>|
        #[trigger] deps.contains_key(d) ==> installed.contains_key(d) && installed[d] == deps[d]
}

/// The entry `p` is installed at its declared version.
pub open spec fn dep_agrees(installed: Map<Seq<char>, Seq<char>>, p: (String, String)) -> bool {
    installed.contains_key(p.0@) && installed[p.0@] == p.1@
}

/// `name` is the first declared dependency, in entry order, that `installed`
/// disagrees with.
pub open spec fn first_disagreeing(
    entries: Seq<(String, String)>,
    installed: Map<Seq<char>, Seq<char>>,
    name: Seq<char>,
) -> bool {
    exists|i: int|
        0 <= i < entries.len() && (#[trigger] entries[i]).0@ == name && !dep_agrees(installed, entries[i])
            && forall|j: int| 0 <= j < i ==> dep_agrees(installed, #[trigger] entries[j])
}

/// Whether the package mode agrees with the entry point: `cs-module` needs a
/// `.udo`, `cs-project` a `.csd` or an `.orc`/`.sco` pair; other modes are refused.
pub open spec fn module_mode_ok(mode: Seq<char>, main: MainEntry) -> bool {
    if mode == "cs-module"@ {
        main.udo is Some
    } else if mode == "cs-project"@ {
        main.csd is Some || (main.orc is Some && main.sco is Some)
    } else {
        false
    }
}

impl Manifest {
    /// The declared dependencies and plugins are each held once.
    pub open spec fn wf(&self) -> bool {
        self.dependencies.wf() && self.plugins.wf()
    }

    /// Checks the declared dependencies against the modules index: each must
    /// be installed at its declared version. A cache index holds no installed
    /// modules and is not checked.
    pub fn check_manifest_deps(&self, registry: &LocalRegistry) -> (r: Result<(), ManifestError>)
        requires
            self.wf(),
            registry.wf(),
        ensures
            match registry.model() {
                None => r matches Err(ManifestError::RegistryUnavailable),
                Some(RegistryModel::Cache(_)) => r is Ok,
                Some(RegistryModel::Modules(md)) => {
                    &&& r is Ok <==> deps_installed(self.dependencies@, md)
                    &&& r matches Err(ManifestError::VersionMismatch { name, declared, installed })
                        ==> self.dependencies@.contains_key(name@) && self.dependencies@[name@]
                        == declared@ && md.contains_key(name@) && md[name@] == installed@
                        && installed@ != declared@
                    &&& r matches Err(ManifestError::NotInstalled { name, declared })
                        ==> self.dependencies@.contains_key(name@) && self.dependencies@[name@]
                        == declared@ && !md.contains_key(name@)
                    &&& r matches Err(ManifestError::VersionMismatch { name, .. })
                        ==> first_disagreeing(self.dependencies.pairs(), md, name@)
                    &&& r matches Err(ManifestError::NotInstalled { name, .. })
                        ==> first_disagreeing(self.dependencies.pairs(), md, name@)
                    &&& !(r matches Err(ManifestError::RegistryUnavailable))
                },
            },
    {
        match &registry.registry {
            None => Err(ManifestError::RegistryUnavailable),
            Some(RegistryData::CacheRegistry(_)) => Ok(()),
            Some(RegistryData::ModulesRegistry(data)) => {
                let deps = self.dependencies.pairs_vec();
                proof {
                    self.dependencies.lemma_pairs_in_map();
                }
                let mut i: usize = 0;
                while i < deps.len()
                    invariant
                        deps@ == self.dependencies.pairs(),
                        self.dependencies.wf(),
                        data.wf(),
                        registry.model() == Some(RegistryModel::Modules(data@)),
                        i <= deps@.len(),
                        forall|j: int|
                            0 <= j < i ==> data@.contains_key(#[trigger] deps@[j].0@)
                                && data@[deps@[j].0@] == deps@[j].1@,
                        forall|j: int| 0 <= j < i ==> dep_agrees(data@, #[trigger] deps@[j]),
                    decreases deps.len() - i,
                {
                    proof {
                        self.dependencies.lemma_pairs_in_map();
                    }
                    let ghost d = deps@[i as int].0@;
                    assert(self.dependencies@.contains_key(d));
                    match data.get(deps[i].0.as_str()) {
                        Some(rvers) => {
                            if deps[i].1 != *rvers {
                                assert(!dep_agrees(data@, deps@[i as int]));
                                assert(first_disagreeing(deps@, data@, d));
                                return Err(
                                    ManifestError::VersionMismatch {
                                        name: deps[i].0.clone(),
                                        declared: deps[i].1.clone(),
                                        installed: rvers.clone(),
                                    },
                                );
                            }
                        },
                        None => {
                            assert(!dep_agrees(data@, deps@[i as int]));
                            assert(first_disagreeing(deps@, data@, d));
                            return Err(
                                ManifestError::NotInstalled {
                                    name: deps[i].0.clone(),
                                    declared: deps[i].1.clone(),
                                },
                            );
                        },
                    }
                    i = i + 1;
                }
                assert(deps_installed(self.dependencies@, data@)) by {
                    assert forall|d: Seq<char>| #[trigger]
                        self.dependencies@.contains_key(d) implies data@.contains_key(d)
                        && data@[d] == self.dependencies@[d] by {
                        let j = self.dependencies.index_of(d);
                        assert(deps@[j].0@ == d);
                    }
                }
                Ok(())
            },
        }
    }

    /// Whether name, version, authors and mode are all given.
    pub fn mandatory_fields_exists(&self) -> (r: bool)
        ensures
            r == (self.package.name@.len() > 0 && self.package.version@.len() > 0
                && self.package.authors@.len() > 0 && self.package.mode@.len() > 0),
    {
        !(self.package.name.as_str().is_empty() || self.package.version.as_str().is_empty()
            || self.package.authors.len() == 0 || self.package.mode.as_str().is_empty())
    }

    /// Whether the package mode agrees with the entry point.
    pub fn check_module_mode(&self) -> (r: bool)
        ensures
            r == module_mode_ok(self.package.mode@, self.main),
    {
        let module = String::from_str("cs-module");
        let project = String::from_str("cs-project");
        proof {
            reveal_strlit("cs-module");
            reveal_strlit("cs-project");
        }
        if self.package.mode == module {
            self.main.udo.is_some()
        } else if self.package.mode == project {
            self.main.csd.is_some() || (self.main.orc.is_some() && self.main.sco.is_some())
        } else {
            false
        }
    }

    /// Whether the Csound version detected on the machine (`None` when none
    /// was found) is the one the manifest declares.
    pub fn check_csound_versions(&self, detected: Option<String>) -> (r: bool)
        ensures
            r == (opt_view(detected) == Some(self.package.cs_version@)),
    {
        match detected {
            Some(v) => v == self.package.cs_version,
            None => false,
        }
    }

    /// Takes over every section of `manifest` (as read again from its file).
    pub fn update_from_file(&mut self, manifest: Manifest)
        ensures
            *final(self) == manifest,
    {
        self.package = manifest.package;
        self.main = manifest.main;
        self.dependencies = manifest.dependencies;
        self.plugins = manifest.plugins;
    }

    /// Declares `pversion` of `pname`, in place of a version declared before.
    pub fn add_dependency(&mut self, pname: &str, pversion: &str)
        requires
            old(self).wf(),
        ensures
            final(self).wf(),
            final(self).dependencies@ == old(self).dependencies@.insert(pname@, pversion@),
            final(self).plugins == old(self).plugins,
            final(self).package == old(self).package,
            final(self).main == old(self).main,
    {
        self.dependencies.insert(pname.to_owned(), pversion.to_owned());
    }
}

/// Records `version` of `pname` among the dependencies that the manifest declares.
pub fn update_manifest(manifest: &mut Manifest, pname: &str, version: &str)
    requires
        old(manifest).wf(),
    ensures
        final(manifest).wf(),
        final(manifest).dependencies@ == old(manifest).dependencies@.insert(pname@, version@),
        final(manifest).plugins == old(manifest).plugins,
        final(manifest).package == old(manifest).package,
        final(manifest).main == old(manifest).main,
{
    manifest.add_dependency(pname, version);
}

/// A `.csd` beside an incomplete `.orc`/`.sco` pair, with no `.udo`, runs
/// alone: the `.csd` is the first script and there is no second one.
pub proof fn law_csd_runs_alone(e: MainEntry)
    requires
        e.csd is Some,
        e.udo is None,
        e.orc is None || e.sco is None,
    ensures
        e.entry_point_spec() == Ok::<(Seq<char>, Seq<char>), EntryPointError>((e.csd->0@, Seq::empty())),
{
}

/// Too many entry points are reported exactly when a `.csd`, an `.orc` and
/// a `.sco` are all given and no `.udo`.
pub proof fn law_many_entry_points(e: MainEntry)
    ensures
        (e.entry_point_spec() == Err::<(Seq<char>, Seq<char>), EntryPointError>(EntryPointError::ManyEntryPoints))
            <==> (e.udo is None && e.csd is Some && e.orc is Some && e.sco is Some),
{
}

/// An `.orc`/`.sco` pair without a `.csd` or a `.udo` runs the two together.
pub proof fn law_orc_sco_pair_runs(e: MainEntry)
    requires
        e.csd is None,
        e.udo is None,
        e.orc is Some,
        e.sco is Some,
    ensures
        e.entry_point_spec() == Ok::<(Seq<char>, Seq<char>), EntryPointError>((e.orc->0@, e.sco->0@)),
{
}

/// A module (a `.udo` entry point) runs nothing; a missing script is
/// reported only when no `.csd`, no complete pair and no `.udo` is given.
pub proof fn law_udo_and_missing(e: MainEntry)
    ensures
        e.udo is Some ==> e.entry_point_spec() == Ok::<(Seq<char>, Seq<char>), EntryPointError>(
            (Seq::empty(), Seq::empty()),
        ),
        (e.entry_point_spec() == Err::<(Seq<char>, Seq<char>), EntryPointError>(EntryPointError::MissingEntryPoint))
            <==> (!e.is_empty_spec() && e.udo is None && e.csd is None && (e.orc is None || e.sco is None)),
{
}

} // verus!
