//! Decisions about the project itself: the manifest a new project starts
//! with, and which module a removal request names.

use vstd::prelude::*;
use crate::collections::{StrMap, StrSet};
use crate::manifest::{MainEntry, MainPackage, Manifest, module_mode_ok};
use crate::names::{ModuleTools, full_name, full_name_spec, parse_module_name_spec};
use crate::text::{views, join_with};

verus! {

/// The version a new project starts at.
pub open spec fn initial_version() -> Seq<char> {
    "0.1.0"@
}

/// The mode of a new package: `cs-module` for a module, `cs-project` otherwise.
pub open spec fn initial_mode(module_flag: bool) -> Seq<char> {
    if module_flag {
        "cs-module"@
    } else {
        "cs-project"@
    }
}

/// The script of a new project: `name.udo` for a module, `name.csd` otherwise.
pub open spec fn main_script_spec(name: Seq<char>, module_flag: bool) -> Seq<char> {
    name + if module_flag {
        ".udo"@
    } else {
        ".csd"@
    }
}

/// The script file name of a new project.
pub fn main_script_name(name: &str, module_flag: bool) -> (r: String)
    ensures
        r@ == main_script_spec(name@, module_flag),
{
    let mut r = name.to_owned();
    if module_flag {
        r.append(".udo");
    } else {
        r.append(".csd");
    }
    r
}

/// The manifest a new project starts with: its name at version `0.1.0`,
/// in mode `cs-module` for a module or `cs-project` otherwise,
/// the `src` folder as source folder and only included path, and the
/// script `src/<script>` as `.udo` entry point for a module or `.csd` entry
/// point for a project; no dependency and no plugin.
pub fn initial_manifest(p_name: &str, module_flag: bool) -> (r: Manifest)
    ensures
        r.wf(),
        r.package.name@ == p_name@,
        r.package.version@ == initial_version(),
        r.package.mode@ == initial_mode(module_flag),
        module_mode_ok(r.package.mode@, r.main),
        r.package.description@.len() == 0,
        r.package.repository@.len() == 0,
        r.package.authors@.len() == 0,
        r.package.license@.len() == 0,
        r.package.cs_version@.len() == 0,
        views(r.package.included@) == seq!["src"@],
        r.main.src@ == "src"@,
        r.main.orc is None,
        r.main.sco is None,
        module_flag ==> r.main.csd is None && (r.main.udo matches Some(u) && u@
            == crate::text::joined("src"@, '/', main_script_spec(p_name@, module_flag))),
        !module_flag ==> r.main.udo is None && (r.main.csd matches Some(c) && c@
            == crate::text::joined("src"@, '/', main_script_spec(p_name@, module_flag))),
        r.dependencies@ == Map::<Seq<char>, Seq<char>>::empty(),
        r.plugins@ == Set::<Seq<char>>::empty(),
{
    let script = main_script_name(p_name, module_flag);
    let entry = join_with("src", '/', script.as_str());
    proof {
        reveal_strlit("cs-module");
        reveal_strlit("cs-project");
    }
    let mode = if module_flag {
        String::from_str("cs-module")
    } else {
        String::from_str("cs-project")
    };
    let mut included: Vec<String> = Vec::new();
    included.push(String::from_str("src"));
    assert(views(included@) =~= seq!["src"@]);
    let package = MainPackage {
        name: p_name.to_owned(),
        version: String::from_str("0.1.0"),
        mode: mode,
        description: String::new(),
        repository: String::new(),
        authors: Vec::new(),
        license: String::new(),
        cs_version: String::new(),
        included,
    };
    let main = if module_flag {
        MainEntry { src: String::from_str("src"), csd: None, orc: None, sco: None, udo: Some(entry) }
    } else {
        MainEntry { src: String::from_str("src"), csd: Some(entry), orc: None, sco: None, udo: None }
    };
    Manifest { package, main, dependencies: StrMap::new(), plugins: StrSet::new() }
}

/// Why a module cannot be removed.
#[derive(Debug)]
pub enum RemoveError {
    /// The request gives `provided` where the manifest declares `declared`.
    VersionMismatch { provided: String, declared: String },
}

/// What a removal request `pname` names: nothing when the manifest does not
/// declare `pname` as a dependency; an error when the request carries a
/// version other than the version declared for that dependency; else the
/// installed entry `pname@<declared version>` to remove.
pub fn removal_target(manifest: &Manifest, pname: &str) -> (r: Result<Option<String>, RemoveError>)
    requires
        manifest.wf(),
    ensures
        !manifest.dependencies@.contains_key(pname@) ==> r matches Ok(None),
        manifest.dependencies@.contains_key(pname@) ==> {
            let given = parse_module_name_spec(pname@).1;
            let declared_version = manifest.dependencies@[pname@];
            if given.len() > 0 && given != declared_version {
                r matches Err(RemoveError::VersionMismatch { provided, declared }) && provided@
                    == given && declared@ == declared_version
            } else {
                r matches Ok(Some(e)) && e@ == full_name_spec(pname@, declared_version)
            }
        },
{
    let declared = match manifest.dependencies.get(pname) {
        None => {
            return Ok(None);
        },
        Some(v) => v.clone(),
    };
    let (_, check_version) = ModuleTools::parse_module_name(pname);
    if !check_version.as_str().is_empty() && check_version != declared {
        return Err(RemoveError::VersionMismatch { provided: check_version, declared });
    }
    Ok(Some(full_name(pname, declared.as_str())))
}

} // verus!
