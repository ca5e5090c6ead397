//! The checks run on a project: before a module is published, when a
//! project is validated, and when its dependencies are compared with the
//! remote registry.

use vstd::prelude::*;
use crate::collections::StrMap;
use crate::gitignore::{gitignore_status, has_line, status_spec};
use crate::manifest::{Manifest, deps_installed};
use crate::registry::{LocalRegistry, RegistryData, RegistryModel};
use crate::remote::{RemoteRegistryIndex, contains_string};
use crate::text::{
    joined, join_with, split_chars, split_on, views, lemma_split_nonempty, lemma_views_push,
};
use crate::version::{Version, VersionError, version_parse_defined, version_parse_spec};

verus! {

/// The outcome of the checks run before publishing.
#[derive(Debug, Clone, Copy, PartialEq, Eq, Structural)]
pub struct PublishReport {
    pub warnings: u128,
    pub errors: u128,
}

/// One when `b` holds, zero otherwise.
pub open spec fn one_if(b: bool) -> nat {
    if b {
        1
    } else {
        0
    }
}

/// How many of `s` hold.
pub open spec fn count_true(s: Seq<bool>) -> nat
    decreases s.len(),
{
    if s.len() == 0 {
        0
    } else {
        count_true(s.drop_last()) + one_if(s.last())
    }
}

/// The views of two string lists agree.
pub open spec fn same_strings(a: Seq<String>, b: Seq<String>) -> bool {
    views(a) == views(b)
}

/// What the publish checks find. Warnings: no lock file; the version is
/// already in the registry; no source folder; and, when the source folder
/// is missing, each included path that is the source folder. Errors:
/// name, version or authors missing; the version is in the registry under
/// other authors; no `.gitignore`, or one that leaves out an existing
/// `cs_modules` folder or `.config.toml` file. A version that is not
/// `major.minor.patch` stops the checks.
pub open spec fn publish_spec(
    manifest: Manifest,
    lock_exists: bool,
    remote: Option<RemoteRegistryIndex>,
    src_exists: bool,
    includes_are_src: Seq<bool>,
    gitignore: Option<Seq<char>>,
    modules_exists: bool,
    config_exists: bool,
) -> Result<(nat, nat), VersionError> {
    let version = manifest.package.version@;
    let listed = remote matches Some(ix) && views(ix.versions@).contains(version);
    let other_authors = remote matches Some(ix) && !same_strings(
        ix.authors@,
        manifest.package.authors@,
    );
    let warnings = one_if(!lock_exists) + one_if(listed) + one_if(!src_exists) + if !src_exists {
        count_true(includes_are_src)
    } else {
        0
    };
    let errors = one_if(
        manifest.package.name@.len() == 0 || version.len() == 0
            || manifest.package.authors@.len() == 0,
    ) + one_if(other_authors && listed) + match gitignore {
        None => 1,
        Some(t) => one_if(!status_spec(t).has_modules && modules_exists) + one_if(
            !status_spec(t).has_config && config_exists,
        ),
    };
    if version_parse_spec(version) is Err {
        Err(VersionError::InvalidFormat)
    } else {
        Ok((warnings, errors))
    }
}

/// Whether two string lists hold the same strings in the same order.
pub fn strings_equal(a: &Vec<String>, b: &Vec<String>) -> (r: bool)
    ensures
        r == same_strings(a@, b@),
{
    if a.len() != b.len() {
        return false;
    }
    let mut i: usize = 0;
    while i < a.len()
        invariant
            a@.len() == b@.len(),
            i <= a@.len(),
            forall|j: int| 0 <= j < i ==> #[trigger] a@[j]@ == b@[j]@,
        decreases a.len() - i,
    {
        if a[i] != b[i] {
            assert(views(a@)[i as int] != views(b@)[i as int]);
            return false;
        }
        i = i + 1;
    }
    assert(views(a@) =~= views(b@));
    true
}

/// The pieces of a path kept as components: the non-empty ones other than `.`.
pub open spec fn kept_components(pieces: Seq<Seq<char>>) -> Seq<Seq<char>>
    decreases pieces.len(),
{
    if pieces.len() == 0 {
        Seq::empty()
    } else {
        let rest = kept_components(pieces.drop_last());
        if pieces.last().len() > 0 && pieces.last() != "."@ {
            rest.push(pieces.last())
        } else {
            rest
        }
    }
}

/// What `Path` compares of a path on Unix: whether it starts at the root,
/// whether it starts with `.` (otherwise), and its other components (`.`
/// and repeated separators dropped).
pub open spec fn path_key(p: Seq<char>) -> (bool, bool, Seq<Seq<char>>) {
    let pieces = split_on(p, '/');
    let absolute = p.len() > 0 && p[0] == '/';
    (absolute, !absolute && pieces[0] == "."@, kept_components(pieces))
}

/// `Path::join`: `p` itself when it starts at the root, else `root/p`.
pub open spec fn joined_path(root: Seq<char>, p: Seq<char>) -> Seq<char> {
    if p.len() > 0 && p[0] == '/' {
        p
    } else {
        joined(root, '/', p)
    }
}

/// Whether `root` joined with `p` and `root` joined with `q` are equal paths.
pub open spec fn same_joined_path(root: Seq<char>, p: Seq<char>, q: Seq<char>) -> bool {
    path_key(joined_path(root, p)) == path_key(joined_path(root, q))
}

/// The key under which `Path` compares `p`.
fn path_key_of(p: &str) -> (r: (bool, bool, Vec<String>))
    ensures
        r.0 == path_key(p@).0,
        r.1 == path_key(p@).1,
        views(r.2@) == path_key(p@).2,
{
    proof {
        reveal_strlit(".");
        lemma_split_nonempty(p@, '/');
    }
    let pieces = split_chars(p, '/');
    let absolute = if p.unicode_len() > 0 {
        p.get_char(0) == '/'
    } else {
        false
    };
    let dot = String::from_str(".");
    let lead = !absolute && pieces[0] == dot;
    assert(pieces@[0]@ == split_on(p@, '/')[0]);
    let mut kept: Vec<String> = Vec::new();
    let mut i: usize = 0;
    while i < pieces.len()
        invariant
            dot@ == "."@,
            views(pieces@) == split_on(p@, '/'),
            i <= pieces@.len(),
            views(kept@) == kept_components(views(pieces@).take(i as int)),
        decreases pieces.len() - i,
    {
        let ghost t = views(pieces@).take(i + 1);
        assert(t.drop_last() =~= views(pieces@).take(i as int));
        assert(t.last() == pieces@[i as int]@);
        let piece = &pieces[i];
        if !piece.as_str().is_empty() && *piece != dot {
            let ghost prev = kept@;
            let c = piece.clone();
            let ghost cc = c;
            kept.push(c);
            proof {
                lemma_views_push(prev, cc);
            }
        }
        i = i + 1;
    }
    assert(views(pieces@).take(i as int) =~= views(pieces@));
    (absolute, lead, kept)
}

/// For each included path, whether it is the source folder: whether
/// `root` joined with it and `root` joined with `src` are equal paths, as
/// `Path` compares them.
pub fn includes_are_src(root: &str, included: &Vec<String>, src: &str) -> (r: Vec<bool>)
    ensures
        r@.len() == included@.len(),
        forall|i: int| 0 <= i < r@.len() ==> #[trigger] r@[i] == same_joined_path(root@, included@[i]@, src@),
{
    let src_full = join_path(root, src);
    let src_key = path_key_of(src_full.as_str());
    let mut r: Vec<bool> = Vec::new();
    let mut i: usize = 0;
    while i < included.len()
        invariant
            src_full@ == joined_path(root@, src@),
            src_key.0 == path_key(src_full@).0,
            src_key.1 == path_key(src_full@).1,
            views(src_key.2@) == path_key(src_full@).2,
            i <= included@.len(),
            r@.len() == i,
            forall|j: int| 0 <= j < i ==> #[trigger] r@[j] == same_joined_path(root@, included@[j]@, src@),
        decreases included.len() - i,
    {
        let full = join_path(root, included[i].as_str());
        let key = path_key_of(full.as_str());
        let same = key.0 == src_key.0 && key.1 == src_key.1 && strings_equal(&key.2, &src_key.2);
        r.push(same);
        i = i + 1;
    }
    r
}

/// `Path::join`.
fn join_path(root: &str, p: &str) -> (r: String)
    ensures
        r@ == joined_path(root@, p@),
{
    if p.unicode_len() > 0 && p.get_char(0) == '/' {
        p.to_owned()
    } else {
        join_with(root, '/', p)
    }
}

/// The checks run before a module is published. `lock_exists`,
/// `src_exists`, `modules_exists` and `config_exists` tell which of the lock
/// file, the source folder, the `cs_modules` folder and the `.config.toml`
/// file exist; `remote` is the registry entry of the module, if any;
/// `includes_are_src` tells, for each included path, whether it is the
/// source folder; `gitignore` is the `.gitignore` text, if any.
pub fn publish_report(
    manifest: &Manifest,
    lock_exists: bool,
    remote: Option<&RemoteRegistryIndex>,
    src_exists: bool,
    includes_are_src: &Vec<bool>,
    gitignore: Option<&str>,
    modules_exists: bool,
    config_exists: bool,
) -> (r: Result<PublishReport, VersionError>)
    requires
        version_parse_defined(manifest.package.version@),
    ensures
        ({
            let spec = publish_spec(
                *manifest,
                lock_exists,
                match remote {
                    Some(x) => Some(*x),
                    None => None,
                },
                src_exists,
                includes_are_src@,
                match gitignore {
                    Some(t) => Some(t@),
                    None => None,
                },
                modules_exists,
                config_exists,
            );
            match (r, spec) {
                (Ok(rep), Ok((w, e))) => rep.warnings == w && rep.errors == e,
                (Err(x), Err(y)) => x == y,
                _ => false,
            }
        }),
{
    let version = manifest.package.version.as_str();
    let mut warnings: u128 = 0;
    let mut errors: u128 = 0;
    if !lock_exists {
        warnings = warnings + 1;
    }
    if version.is_empty() || manifest.package.name.as_str().is_empty()
        || manifest.package.authors.len() == 0 {
        errors = errors + 1;
    }
    match Version::parse(version) {
        Err(e) => {
            return Err(e);
        },
        Ok(_) => {},
    }
    let mut listed = false;
    let mut other_authors = false;
    match remote {
        Some(ix) => {
            listed = contains_string(&ix.versions, version);
            other_authors = !strings_equal(&ix.authors, &manifest.package.authors);
        },
        None => {},
    }
    if other_authors && listed {
        errors = errors + 1;
    }
    if listed {
        warnings = warnings + 1;
    }
    if !src_exists {
        warnings = warnings + 1;
    }
    let ghost base = warnings;
    let mut i: usize = 0;
    while i < includes_are_src.len()
        invariant
            i <= includes_are_src@.len(),
            base <= 3,
            warnings == base + if !src_exists {
                count_true(includes_are_src@.take(i as int))
            } else {
                0
            },
            count_true(includes_are_src@.take(i as int)) <= i,
        decreases includes_are_src.len() - i,
    {
        assert(includes_are_src@.take(i + 1).drop_last() =~= includes_are_src@.take(i as int));
        if includes_are_src[i] && !src_exists {
            warnings = warnings + 1;
        }
        i = i + 1;
    }
    assert(includes_are_src@.take(i as int) =~= includes_are_src@);
    match gitignore {
        None => {
            errors = errors + 1;
        },
        Some(text) => {
            let s = gitignore_status(text);
            if !s.has_modules && modules_exists {
                errors = errors + 1;
            }
            if !s.has_config && config_exists {
                errors = errors + 1;
            }
        },
    }
    Ok(PublishReport { warnings, errors })
}

/// Why a project cannot be validated.
#[derive(Debug, Clone, Copy, PartialEq, Eq, Structural)]
pub enum ValidateError {
    /// The modules index holds cache entries.
    CorruptedIndex,
}

/// Whether the installed modules must be rebuilt from the manifest: some
/// dependency is declared and the modules index is missing or disagrees
/// with the manifest. A cache index in place of the modules index is an error.
pub open spec fn repair_spec(deps: Map<Seq<char>, Seq<char>>, model: Option<RegistryModel>) -> Result<
    bool,
    ValidateError,
> {
    if deps.dom() == Set::<Seq<char>>::empty() {
        Ok(false)
    } else {
        match model {
            None => Ok(true),
            Some(RegistryModel::Cache(_)) => Err(ValidateError::CorruptedIndex),
            Some(RegistryModel::Modules(md)) => Ok(!deps_installed(deps, md)),
        }
    }
}

/// Whether validation must rebuild the installed modules.
pub fn repair_needed(manifest: &Manifest, registry: &LocalRegistry) -> (r: Result<bool, ValidateError>)
    requires
        manifest.wf(),
        registry.wf(),
    ensures
        r == repair_spec(manifest.dependencies@, registry.model()),
{
    if manifest.dependencies.is_empty() {
        return Ok(false);
    }
    match &registry.registry {
        None => Ok(true),
        Some(RegistryData::CacheRegistry(_)) => Err(ValidateError::CorruptedIndex),
        Some(RegistryData::ModulesRegistry(_)) => {
            let ok = manifest.check_manifest_deps(registry);
            Ok(ok.is_err())
        },
    }
}

/// How a declared dependency stands in the remote registry.
pub enum RemoteStatus {
    /// The declared version is the last one listed.
    UpToDate,
    /// A later version is listed last.
    Outdated { latest: String },
    /// The registry lists no version.
    NoVersions,
    /// The registry does not know the module.
    NotInRemote,
}

/// The state of one declared dependency.
pub struct DependencySync {
    pub name: String,
    pub declared: String,
    pub remote: RemoteStatus,
    /// Whether the modules index holds the module.
    pub installed: bool,
}

/// Why the dependencies could not be compared.
#[derive(Debug, Clone, Copy, PartialEq, Eq, Structural)]
pub enum SyncError {
    /// The modules index has not been read.
    RegistryUnavailable,
}

/// How `declared` stands against the registry entry `entry`.
pub open spec fn remote_status_spec(
    declared: Seq<char>,
    entry: Option<(Seq<Seq<char>>, Seq<Seq<char>>, Seq<char>)>,
    status: RemoteStatus,
) -> bool {
    match entry {
        None => status is NotInRemote,
        Some(ix) => if ix.0.len() == 0 {
            status is NoVersions
        } else if declared == ix.0.last() {
            status is UpToDate
        } else {
            status matches RemoteStatus::Outdated { latest } && latest@ == ix.0.last()
        },
    }
}

/// The state of each declared dependency, in the order they are held:
/// how it stands in the remote registry (`indexes`) and whether it is
/// installed. With no dependency nothing is compared.
pub fn sync_report(
    manifest: &Manifest,
    indexes: &StrMap<RemoteRegistryIndex>,
    registry: &LocalRegistry,
) -> (r: Result<Vec<DependencySync>, SyncError>)
    requires
        manifest.wf(),
        indexes.wf(),
        registry.wf(),
    ensures
        manifest.dependencies.pairs().len() == 0 ==> (r matches Ok(v) && v@.len() == 0),
        manifest.dependencies.pairs().len() > 0 && registry.model() is None ==> r matches Err(
            SyncError::RegistryUnavailable,
        ),
        registry.model() is Some ==> r is Ok,
        r matches Ok(v) ==> {
            &&& v@.len() == manifest.dependencies.pairs().len()
            &&& forall|i: int|
                0 <= i < v@.len() ==> {
                    let (name, declared) = manifest.dependencies.pairs()[i];
                    &&& (#[trigger] v@[i]).name@ == name@
                    &&& v@[i].declared@ == declared@
                    &&& remote_status_spec(
                        declared@,
                        if indexes@.contains_key(name@) {
                            Some(indexes@[name@])
                        } else {
                            None
                        },
                        v@[i].remote,
                    )
                    &&& v@[i].installed == (registry.model() matches Some(
                        RegistryModel::Modules(md),
                    ) && md.contains_key(name@))
                }
        },
{
    let deps = manifest.dependencies.pairs_vec();
    let mut out: Vec<DependencySync> = Vec::new();
    if deps.len() == 0 {
        return Ok(out);
    }
    if registry.registry.is_none() {
        return Err(SyncError::RegistryUnavailable);
    }
    let mut i: usize = 0;
    while i < deps.len()
        invariant
            deps@ == manifest.dependencies.pairs(),
            indexes.wf(),
            registry.wf(),
            registry.registry is Some,
            i <= deps@.len(),
            out@.len() == i,
            forall|j: int|
                0 <= j < i ==> {
                    let (name, declared) = manifest.dependencies.pairs()[j];
                    &&& (#[trigger] out@[j]).name@ == name@
                    &&& out@[j].declared@ == declared@
                    &&& remote_status_spec(
                        declared@,
                        if indexes@.contains_key(name@) {
                            Some(indexes@[name@])
                        } else {
                            None
                        },
                        out@[j].remote,
                    )
                    &&& out@[j].installed == (registry.model() matches Some(
                        RegistryModel::Modules(md),
                    ) && md.contains_key(name@))
                },
        decreases deps.len() - i,
    {
        let name = &deps[i].0;
        let declared = &deps[i].1;
        let remote = match indexes.get(name.as_str()) {
            None => RemoteStatus::NotInRemote,
            Some(ix) => {
                let n = ix.versions.len();
                if n == 0 {
                    RemoteStatus::NoVersions
                } else {
                    assert(ix@.0.last() == ix.versions@[n - 1]@);
                    if ix.versions[n - 1] == *declared {
                        RemoteStatus::UpToDate
                    } else {
                        RemoteStatus::Outdated { latest: ix.versions[n - 1].clone() }
                    }
                }
            },
        };
        let installed = match &registry.registry {
            Some(RegistryData::ModulesRegistry(map)) => map.contains_key(name.as_str()),
            _ => false,
        };
        out.push(
            DependencySync { name: name.clone(), declared: declared.clone(), remote, installed },
        );
        i = i + 1;
    }
    Ok(out)
}

/// The outcome of the publish checks, compared between two situations: the
/// same warnings, and `extra` more errors in the first.
pub open spec fn more_errors(
    a: Result<(nat, nat), VersionError>,
    b: Result<(nat, nat), VersionError>,
    extra: nat,
) -> bool {
    match (a, b) {
        (Ok((wa, ea)), Ok((wb, eb))) => wa == wb && ea == eb + extra,
        (Err(x), Err(y)) => x == y,
        _ => false,
    }
}

/// The outcome of the publish checks, compared between two situations: the
/// same errors, and `extra` more warnings in the first.
pub open spec fn more_warnings(
    a: Result<(nat, nat), VersionError>,
    b: Result<(nat, nat), VersionError>,
    extra: nat,
) -> bool {
    match (a, b) {
        (Ok((wa, ea)), Ok((wb, eb))) => ea == eb && wa == wb + extra,
        (Err(x), Err(y)) => x == y,
        _ => false,
    }
}

/// A `cs_modules` folder that the `.gitignore` text does not list (as
/// `cs_modules` or `/cs_modules`) is one more error than no such folder,
/// all else equal; once listed, the folder changes nothing.
pub proof fn law_publish_unignored_modules(
    manifest: Manifest,
    lock_exists: bool,
    remote: Option<RemoteRegistryIndex>,
    src_exists: bool,
    includes_are_src: Seq<bool>,
    text: Seq<char>,
    config_exists: bool,
)
    ensures
        !has_line(text, "cs_modules"@) && !has_line(text, "/cs_modules"@) ==> more_errors(
            publish_spec(manifest, lock_exists, remote, src_exists, includes_are_src, Some(text), true, config_exists),
            publish_spec(manifest, lock_exists, remote, src_exists, includes_are_src, Some(text), false, config_exists),
            1,
        ),
        has_line(text, "cs_modules"@) || has_line(text, "/cs_modules"@) ==> more_errors(
            publish_spec(manifest, lock_exists, remote, src_exists, includes_are_src, Some(text), true, config_exists),
            publish_spec(manifest, lock_exists, remote, src_exists, includes_are_src, Some(text), false, config_exists),
            0,
        ),
{
}

/// A `.config.toml` file that the `.gitignore` text does not list is one
/// more error than no such file, all else equal; once listed, it changes
/// nothing.
pub proof fn law_publish_unignored_config(
    manifest: Manifest,
    lock_exists: bool,
    remote: Option<RemoteRegistryIndex>,
    src_exists: bool,
    includes_are_src: Seq<bool>,
    text: Seq<char>,
    modules_exists: bool,
)
    ensures
        !has_line(text, ".config.toml"@) ==> more_errors(
            publish_spec(manifest, lock_exists, remote, src_exists, includes_are_src, Some(text), modules_exists, true),
            publish_spec(manifest, lock_exists, remote, src_exists, includes_are_src, Some(text), modules_exists, false),
            1,
        ),
        has_line(text, ".config.toml"@) ==> more_errors(
            publish_spec(manifest, lock_exists, remote, src_exists, includes_are_src, Some(text), modules_exists, true),
            publish_spec(manifest, lock_exists, remote, src_exists, includes_are_src, Some(text), modules_exists, false),
            0,
        ),
{
}

/// Without a `.gitignore` the publish checks find at least one error, and
/// a `.gitignore` listing everything there is avoids it.
pub proof fn law_publish_missing_gitignore(
    manifest: Manifest,
    lock_exists: bool,
    remote: Option<RemoteRegistryIndex>,
    src_exists: bool,
    includes_are_src: Seq<bool>,
    text: Seq<char>,
    modules_exists: bool,
    config_exists: bool,
)
    requires
        has_line(text, "cs_modules"@),
        has_line(text, ".config.toml"@),
    ensures
        more_errors(
            publish_spec(manifest, lock_exists, remote, src_exists, includes_are_src, None, modules_exists, config_exists),
            publish_spec(manifest, lock_exists, remote, src_exists, includes_are_src, Some(text), modules_exists, config_exists),
            1,
        ),
{
}

/// A missing lock file is one more warning, all else equal.
pub proof fn law_publish_missing_lock(
    manifest: Manifest,
    remote: Option<RemoteRegistryIndex>,
    src_exists: bool,
    includes_are_src: Seq<bool>,
    gitignore: Option<Seq<char>>,
    modules_exists: bool,
    config_exists: bool,
)
    ensures
        more_warnings(
            publish_spec(manifest, false, remote, src_exists, includes_are_src, gitignore, modules_exists, config_exists),
            publish_spec(manifest, true, remote, src_exists, includes_are_src, gitignore, modules_exists, config_exists),
            1,
        ),
{
}

/// A module whose name, version or authors are missing, or whose version is
/// already listed in the registry under other authors, is refused: the
/// checks find at least one error.
pub proof fn law_publish_refuses_incomplete_or_taken(
    manifest: Manifest,
    lock_exists: bool,
    remote: Option<RemoteRegistryIndex>,
    src_exists: bool,
    includes_are_src: Seq<bool>,
    gitignore: Option<Seq<char>>,
    modules_exists: bool,
    config_exists: bool,
)
    requires
        manifest.package.name@.len() == 0 || manifest.package.authors@.len() == 0 || (remote matches Some(ix)
            && views(ix.versions@).contains(manifest.package.version@) && views(ix.authors@) != views(
            manifest.package.authors@,
        )),
    ensures
        publish_spec(manifest, lock_exists, remote, src_exists, includes_are_src, gitignore, modules_exists, config_exists)
            matches Ok((w, e)) ==> e >= 1,
{
}

} // verus!
