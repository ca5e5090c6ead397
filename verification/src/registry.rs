//! The local registries: the index of the modules installed in a
//! `cs_modules` folder (a name mapped to its one installed version) and the
//! index of the module cache (a name mapped to the set of cached versions).

use vstd::prelude::*;
use crate::collections::{StrMap, StrSet, pairs_map, distinct_keys, prefix_set};
use crate::json::{
    json_string_object, json_string_set_object, json_pretty_string_object,
    json_pretty_string_set_object, pairs_set_map, read_json_string_object,
    read_json_string_set_object, write_json_string_object, write_json_string_set_object,
};
use crate::names::{ModuleTools, full_name, full_name_spec, parse_module_name_spec};

verus! {

/// Which of the two indexes a registry holds.
#[derive(Debug, Clone, Copy, PartialEq, Eq, Structural)]
pub enum RegistryMode {
    CacheMode,
    ModulesMode,
}

/// The contents of a registry index.
pub enum RegistryData {
    /// Module name to the set of its cached versions.
    CacheRegistry(StrMap<StrSet>),
    /// Module name to its installed version.
    ModulesRegistry(StrMap<String>),
}

/// The contents of a registry index, as mathematical maps.
pub enum RegistryModel {
    Cache(Map<Seq<char>, Set<Seq<char>>>),
    Modules(Map<Seq<char>, Seq<char>>),
}

/// What can go wrong with a registry index.
#[derive(Debug)]
pub enum RegistryError {
    /// The index was not read yet.
    NotLoaded,
    /// The index text is not the JSON object that the mode expects.
    InvalidIndex,
    /// The index could not be written as JSON.
    Serialize,
    /// `name` is installed at `installed`, and `requested` was asked for.
    Conflict { name: String, requested: String, installed: String },
}

impl RegistryData {
    /// No key twice, and no version twice under a key.
    pub open spec fn wf(&self) -> bool {
        match self {
            RegistryData::CacheRegistry(m) => m.wf() && forall|i: int|
                0 <= i < m.pairs().len() ==> (#[trigger] m.pairs()[i]).1.wf(),
            RegistryData::ModulesRegistry(m) => m.wf(),
        }
    }

    /// The maps that the index stands for.
    pub open spec fn model(&self) -> RegistryModel {
        match self {
            RegistryData::CacheRegistry(m) => RegistryModel::Cache(m@),
            RegistryData::ModulesRegistry(m) => RegistryModel::Modules(m@),
        }
    }
}

/// The empty index of a mode.
pub open spec fn empty_model(mode: RegistryMode) -> RegistryModel {
    match mode {
        RegistryMode::CacheMode => RegistryModel::Cache(Map::empty()),
        RegistryMode::ModulesMode => RegistryModel::Modules(Map::empty()),
    }
}

/// The index after recording `version` of `name`.
pub open spec fn add_spec(m: RegistryModel, name: Seq<char>, version: Seq<char>) -> RegistryModel {
    match m {
        RegistryModel::Cache(c) => RegistryModel::Cache(
            c.insert(
                name,
                if c.contains_key(name) {
                    c[name].insert(version)
                } else {
                    Set::empty().insert(version)
                },
            ),
        ),
        RegistryModel::Modules(md) => RegistryModel::Modules(md.insert(name, version)),
    }
}

/// The index after removing the entry `name@version`: in the cache the
/// version leaves the name's set, and the name leaves when its set is
/// empty; among installed modules the name leaves when it is installed at
/// that version or when no version is given.
pub open spec fn remove_spec(m: RegistryModel, entry: Seq<char>) -> RegistryModel {
    let name = parse_module_name_spec(entry).0;
    let version = parse_module_name_spec(entry).1;
    match m {
        RegistryModel::Cache(c) => if c.contains_key(name) {
            let rest = c[name].remove(version);
            if rest == Set::<Seq<char>>::empty() {
                RegistryModel::Cache(c.remove(name))
            } else {
                RegistryModel::Cache(c.insert(name, rest))
            }
        } else {
            RegistryModel::Cache(c)
        },
        RegistryModel::Modules(md) => if md.contains_key(name) && (md[name] == version
            || version.len() == 0) {
            RegistryModel::Modules(md.remove(name))
        } else {
            RegistryModel::Modules(md)
        },
    }
}

/// The version installed for `name`; the cache answers nothing.
pub open spec fn query_spec(m: RegistryModel, name: Seq<char>) -> Option<Seq<char>> {
    match m {
        RegistryModel::Modules(md) => if md.contains_key(name) {
            Some(md[name])
        } else {
            None
        },
        RegistryModel::Cache(_) => None,
    }
}

/// The installed modules as `name@version`; the cache lists nothing.
pub open spec fn list_spec(m: RegistryModel) -> Set<Seq<char>> {
    match m {
        RegistryModel::Modules(md) => Set::new(
            |s: Seq<char>| exists|n: Seq<char>| #[trigger] md.contains_key(n) && s == full_name_spec(n, md[n]),
        ),
        RegistryModel::Cache(_) => Set::empty(),
    }
}

/// Whether asking for `version` of `name` clashes with what is installed.
pub open spec fn conflicts_spec(m: RegistryModel, name: Seq<char>, version: Seq<char>) -> bool {
    match m {
        RegistryModel::Modules(md) => md.contains_key(name) && md[name] != version,
        RegistryModel::Cache(_) => false,
    }
}

/// The mode of an index.
pub open spec fn mode_of(m: RegistryModel) -> RegistryMode {
    match m {
        RegistryModel::Cache(_) => RegistryMode::CacheMode,
        RegistryModel::Modules(_) => RegistryMode::ModulesMode,
    }
}

/// The index that `read_internal_registry` loads from `text` in `mode`,
/// `None` when the text is refused.
pub open spec fn read_model_spec(mode: RegistryMode, text: Seq<char>) -> Option<RegistryModel> {
    match mode {
        RegistryMode::CacheMode => match json_string_set_object(text) {
            Some(c) => Some(RegistryModel::Cache(c)),
            None => None,
        },
        RegistryMode::ModulesMode => match json_string_object(text) {
            Some(md) => Some(RegistryModel::Modules(md)),
            None => None,
        },
    }
}

/// A registry index kept in a file.
pub struct LocalRegistry {
    pub registry: Option<RegistryData>,
    pub rpath: String,
    pub rmode: RegistryMode,
}

impl LocalRegistry {
    /// Where the index is kept.
    pub open spec fn path(&self) -> Seq<char> {
        self.rpath@
    }

    /// Which index this is.
    pub open spec fn mode(&self) -> RegistryMode {
        self.rmode
    }

    /// The index has been read and is well formed, or has not been read.
    pub open spec fn wf(&self) -> bool {
        self.registry matches Some(d) ==> d.wf()
    }

    /// The contents, once read.
    pub open spec fn model(&self) -> Option<RegistryModel> {
        match self.registry {
            Some(d) => Some(d.model()),
            None => None,
        }
    }

    /// A registry kept at `path_to_registry`, not read yet.
    pub fn new(path_to_registry: &str, rmode: RegistryMode) -> (r: Self)
        ensures
            r.wf(),
            r.registry is None,
            r.path() == path_to_registry@,
            r.mode() == rmode,
    {
        LocalRegistry { registry: None, rpath: path_to_registry.to_owned(), rmode }
    }

    /// Where the index is kept.
    pub fn registry_path(&self) -> (r: &str)
        ensures
            r@ == self.path(),
    {
        self.rpath.as_str()
    }

    /// Which index this is.
    pub fn registry_mode(&self) -> (r: RegistryMode)
        ensures
            r == self.mode(),
    {
        self.rmode
    }

    /// Loads the index from the text of its file, or as empty when there is
    /// no file (`contents` is `None`). Text that is not the JSON object of the
    /// mode is refused and leaves the registry unchanged.
    pub fn read_internal_registry(&mut self, contents: Option<&str>) -> (r: Result<
        (),
        RegistryError,
    >)
        requires
            old(self).wf(),
        ensures
            final(self).wf(),
            final(self).path() == old(self).path(),
            final(self).mode() == old(self).mode(),
            match contents {
                None => r is Ok && final(self).model() == Some(empty_model(old(self).mode())),
                Some(text) => match read_model_spec(old(self).mode(), text@) {
                    Some(m) => r is Ok && final(self).model() == Some(m),
                    None => r matches Err(RegistryError::InvalidIndex) && final(self).registry
                        == old(self).registry,
                },
            },
    {
        match self.rmode {
            RegistryMode::CacheMode => {
                match contents {
                    None => {
                        let m: StrMap<StrSet> = StrMap::new();
                        self.registry = Some(RegistryData::CacheRegistry(m));
                        Ok(())
                    },
                    Some(text) => match read_json_string_set_object(text) {
                        Some(v) => {
                            let m = cache_map_from_pairs(v);
                            self.registry = Some(RegistryData::CacheRegistry(m));
                            Ok(())
                        },
                        None => Err(RegistryError::InvalidIndex),
                    },
                }
            },
            RegistryMode::ModulesMode => {
                match contents {
                    None => {
                        let m: StrMap<String> = StrMap::new();
                        self.registry = Some(RegistryData::ModulesRegistry(m));
                        Ok(())
                    },
                    Some(text) => match read_json_string_object(text) {
                        Some(v) => {
                            let m = StrMap::from_pairs(v);
                            self.registry = Some(RegistryData::ModulesRegistry(m));
                            Ok(())
                        },
                        None => Err(RegistryError::InvalidIndex),
                    },
                }
            },
        }
    }

    /// The JSON text of the index, to be written to its file. Reading that
    /// text back gives the same index.
    pub fn write_internal_registry(&self) -> (r: Result<String, RegistryError>)
        requires
            self.wf(),
        ensures
            match self.model() {
                None => r matches Err(RegistryError::NotLoaded),
                Some(RegistryModel::Cache(c)) => match json_pretty_string_set_object(c) {
                    Some(t) => r matches Ok(s) && s@ == t && json_string_set_object(s@) == Some(c),
                    None => r matches Err(RegistryError::Serialize),
                },
                Some(RegistryModel::Modules(md)) => match json_pretty_string_object(md) {
                    Some(t) => r matches Ok(s) && s@ == t && json_string_object(s@) == Some(md),
                    None => r matches Err(RegistryError::Serialize),
                },
            },
    {
        match &self.registry {
            None => Err(RegistryError::NotLoaded),
            Some(RegistryData::ModulesRegistry(m)) => {
                match write_json_string_object(m.pairs_vec()) {
                    Some(s) => Ok(s),
                    None => Err(RegistryError::Serialize),
                }
            },
            Some(RegistryData::CacheRegistry(m)) => {
                let v = cache_pairs(m);
                match write_json_string_set_object(&v) {
                    Some(s) => Ok(s),
                    None => Err(RegistryError::Serialize),
                }
            },
        }
    }

    /// Removes the entry `entry_name` (`name@version`, or a bare name).
    pub fn remove_entry_from_registry(&mut self, entry_name: String)
        requires
            old(self).wf(),
        ensures
            final(self).wf(),
            final(self).path() == old(self).path(),
            final(self).mode() == old(self).mode(),
            final(self).model() == match old(self).model() {
                Some(m) => Some(remove_spec(m, entry_name@)),
                None => None,
            },
    {
        let (name, version) = ModuleTools::parse_module_name(entry_name.as_str());
        let ghost sname = parse_module_name_spec(entry_name@).0;
        let ghost sversion = parse_module_name_spec(entry_name@).1;
        assert(name@ == sname && version@ == sversion);
        match &mut self.registry {
            None => {},
            Some(RegistryData::CacheRegistry(map)) => {
                let ghost before = map@;
                let ghost before_map = *map;
                proof {
                    map.lemma_pairs_in_map();
                }
                match map.remove(name.as_str()) {
                    Some(mut set) => {
                        assert(set.wf()) by {
                            let i = before_index(&before_map, name@);
                            assert(before_map.pairs()[i].1.wf());
                        }
                        set.remove(version.as_str());
                        let ghost rest = set@;
                        assert(rest == before[sname].remove(sversion));
                        if set.is_empty() {
                            assert(map@ == before.remove(sname));
                        } else {
                            let ghost moved = set;
                            map.insert(name, set);
                            assert(map@ =~= before.insert(sname, rest));
                            assert forall|i: int| 0 <= i < map.pairs().len() implies (
                            #[trigger] map.pairs()[i]).1.wf() by {
                                if map.pairs()[i].1 != moved {
                                    let j = choose|j: int|
                                        0 <= j < before_map.pairs().len()
                                            && before_map.pairs()[j] == map.pairs()[i];
                                }
                            }
                        }
                    },
                    None => {
                        assert(!before.contains_key(sname));
                        assert(map@ =~= before);
                    },
                }
            },
            Some(RegistryData::ModulesRegistry(map)) => {
                let ghost before = map@;
                match map.get(name.as_str()) {
                    Some(v) => {
                        if *v == version || version.as_str().is_empty() {
                            map.remove(name.as_str());
                            assert(map@ == before.remove(sname));
                        } else {
                            assert(!(before[sname] == sversion || sversion.len() == 0));
                        }
                    },
                    None => {},
                }
            },
        }
    }

    /// Records `entry_version` of `entry_name`.
    pub fn add_entry_to_registry(&mut self, entry_name: &str, entry_version: &str)
        requires
            old(self).wf(),
        ensures
            final(self).wf(),
            final(self).path() == old(self).path(),
            final(self).mode() == old(self).mode(),
            final(self).model() == match old(self).model() {
                Some(m) => Some(add_spec(m, entry_name@, entry_version@)),
                None => None,
            },
    {
        match &mut self.registry {
            None => {},
            Some(RegistryData::CacheRegistry(map)) => {
                proof {
                    map.lemma_pairs_in_map();
                }
                let ghost before = map@;
                let ghost before_map = *map;
                let mut set = match map.remove(entry_name) {
                    Some(s) => {
                        assert(s.wf()) by {
                            let i = before_index(&before_map, entry_name@);
                            assert(before_map.pairs()[i].1.wf());
                        }
                        s
                    },
                    None => StrSet::new(),
                };
                let ghost start = set@;
                assert(start == if before.contains_key(entry_name@) {
                    before[entry_name@]
                } else {
                    Set::<Seq<char>>::empty()
                });
                set.insert(entry_version.to_owned());
                let ghost sv = set@;
                let ghost moved = set;
                map.insert(entry_name.to_owned(), set);
                assert(map@ =~= before.insert(entry_name@, sv));
                assert forall|i: int| 0 <= i < map.pairs().len() implies (
                #[trigger] map.pairs()[i]).1.wf() by {
                    if map.pairs()[i].1 != moved {
                        let j = choose|j: int|
                            0 <= j < before_map.pairs().len() && before_map.pairs()[j]
                                == map.pairs()[i];
                    }
                }
            },
            Some(RegistryData::ModulesRegistry(map)) => {
                map.insert(entry_name.to_owned(), entry_version.to_owned());
            },
        }
    }

    /// The version installed for `pkg_name`, if any.
    pub fn query_registry(&self, pkg_name: &str) -> (r: Option<String>)
        requires
            self.wf(),
        ensures
            match (r, self.model()) {
                (Some(v), Some(m)) => query_spec(m, pkg_name@) == Some(v@),
                (None, Some(m)) => query_spec(m, pkg_name@) is None,
                (None, None) => true,
                (Some(_), None) => false,
            },
    {
        match &self.registry {
            Some(RegistryData::ModulesRegistry(data)) => match data.get(pkg_name) {
                Some(version) => Some(version.clone()),
                None => None,
            },
            _ => None,
        }
    }

    /// The installed entry `name@version` of `pkg_name`, if it is installed.
    pub fn installed_entry(&self, pkg_name: &str) -> (r: Option<String>)
        requires
            self.wf(),
        ensures
            match self.model() {
                Some(m) => match query_spec(m, pkg_name@) {
                    Some(v) => r matches Some(e) && e@ == full_name_spec(pkg_name@, v),
                    None => r is None,
                },
                None => r is None,
            },
    {
        match self.query_registry(pkg_name) {
            Some(v) => Some(full_name(pkg_name, v.as_str())),
            None => None,
        }
    }

    /// The installed modules, each written `name@version`.
    pub fn from_registry_to_list(&self) -> (r: StrSet)
        requires
            self.wf(),
        ensures
            r.wf(),
            r@ == match self.model() {
                Some(m) => list_spec(m),
                None => Set::empty(),
            },
    {
        let mut out = StrSet::new();
        match &self.registry {
            Some(RegistryData::ModulesRegistry(data)) => {
                let entries = data.pairs_vec();
                proof {
                    data.lemma_pairs_in_map();
                }
                let mut i: usize = 0;
                while i < entries.len()
                    invariant
                        entries@ == data.pairs(),
                        data.wf(),
                        i <= entries@.len(),
                        out.wf(),
                        out@ == Set::new(
                            |s: Seq<char>|
                                exists|j: int|
                                    0 <= j < i && s == full_name_spec(
                                        #[trigger] entries@[j].0@,
                                        entries@[j].1@,
                                    ),
                        ),
                    decreases entries.len() - i,
                {
                    let ghost prev = out@;
                    out.insert(full_name(entries[i].0.as_str(), entries[i].1.as_str()));
                    i = i + 1;
                    assert(out@ =~= Set::new(
                        |s: Seq<char>|
                            exists|j: int|
                                0 <= j < i && s == full_name_spec(
                                    #[trigger] entries@[j].0@,
                                    entries@[j].1@,
                                ),
                    )) by {
                        assert forall|s: Seq<char>| #[trigger] out@.contains(s) implies exists|j: int|
                            0 <= j < i && s == full_name_spec(
                                #[trigger] entries@[j].0@,
                                entries@[j].1@,
                            ) by {
                            if s != full_name_spec(entries@[i - 1].0@, entries@[i - 1].1@) {
                                assert(prev.contains(s));
                            }
                        }
                    }
                }
                assert(out@ =~= list_spec(self.model()->0)) by {
                    let md = data@;
                    assert forall|s: Seq<char>| #[trigger] out@.contains(s) implies list_spec(
                        self.model()->0,
                    ).contains(s) by {
                        let j = choose|j: int|
                            0 <= j < i && s == full_name_spec(
                                #[trigger] entries@[j].0@,
                                entries@[j].1@,
                            );
                        assert(md.contains_key(entries@[j].0@));
                    }
                    assert forall|s: Seq<char>| #[trigger] list_spec(
                        self.model()->0,
                    ).contains(s) implies out@.contains(s) by {
                        let n = choose|n: Seq<char>|
                            #[trigger] md.contains_key(n) && s == full_name_spec(n, md[n]);
                        let j = data.index_of(n);
                        assert(s == full_name_spec(entries@[j].0@, entries@[j].1@));
                    }
                }
            },
            _ => {
                assert(out@ =~= Set::<Seq<char>>::empty());
            },
        }
        out
    }

    /// Refuses `pversion` of `pname` when another version is installed;
    /// a registry not read yet is refused too.
    pub fn check_version_conflicts(&self, pname: &str, pversion: &str) -> (r: Result<
        (),
        RegistryError,
    >)
        requires
            self.wf(),
        ensures
            match self.model() {
                None => r matches Err(RegistryError::NotLoaded),
                Some(m) => if conflicts_spec(m, pname@, pversion@) {
                    r matches Err(RegistryError::Conflict { name, requested, installed }) && name@
                        == pname@ && requested@ == pversion@ && Some(installed@) == query_spec(
                        m,
                        pname@,
                    )
                } else {
                    r is Ok
                },
            },
    {
        match &self.registry {
            None => Err(RegistryError::NotLoaded),
            Some(RegistryData::ModulesRegistry(map)) => {
                match map.get(pname) {
                    Some(v) => {
                        let requested = pversion.to_owned();
                        if *v != requested {
                            Err(
                                RegistryError::Conflict {
                                    name: pname.to_owned(),
                                    requested,
                                    installed: v.clone(),
                                },
                            )
                        } else {
                            Ok(())
                        }
                    },
                    None => Ok(()),
                }
            },
            Some(RegistryData::CacheRegistry(_)) => Ok(()),
        }
    }
}

/// The position of `name` in a well formed map that holds it.
proof fn before_index(m: &StrMap<StrSet>, name: Seq<char>) -> (i: int)
    requires
        m.wf(),
        m@.contains_key(name),
    ensures
        0 <= i < m.pairs().len(),
        m.pairs()[i].0@ == name,
        m@[name] == m.pairs()[i].1@,
{
    m.lemma_pairs_in_map();
    m.index_of(name)
}

/// The cache index made of entries with distinct keys.
fn cache_map_from_pairs(v: Vec<(String, Vec<String>)>) -> (r: StrMap<StrSet>)
    requires
        distinct_keys(v@),
    ensures
        RegistryData::CacheRegistry(r).wf(),
        r@ == pairs_set_map(v@),
{
    let mut out: Vec<(String, StrSet)> = Vec::new();
    let mut i: usize = 0;
    while i < v.len()
        invariant
            distinct_keys(v@),
            i <= v@.len(),
            out@.len() == i,
            forall|j: int|
                0 <= j < i ==> (#[trigger] out@[j]).0@ == v@[j].0@ && out@[j].1.wf()
                    && out@[j].1@ == prefix_set(v@[j].1@, v@[j].1@.len() as int),
        decreases v.len() - i,
    {
        let set = StrSet::from_vec(v[i].1.clone());
        out.push((v[i].0.clone(), set));
        i = i + 1;
    }
    assert(distinct_keys(out@)) by {
        assert forall|a: int, b: int| 0 <= a < b < out@.len() implies #[trigger] out@[a].0@
            != #[trigger] out@[b].0@ by {
            assert(v@[a].0@ != v@[b].0@);
        }
    }
    let r = StrMap::from_pairs(out);
    assert(r@ =~= pairs_set_map(v@)) by {
        let o = r.pairs();
        assert forall|k: Seq<char>| #[trigger] r@.contains_key(k) <==> pairs_set_map(
            v@,
        ).contains_key(k) by {
            if r@.contains_key(k) {
                let j = choose|j: int| 0 <= j < o.len() && #[trigger] o[j].0@ == k;
                assert(v@[j].0@ == k);
            }
            if pairs_set_map(v@).contains_key(k) {
                let j = choose|j: int| 0 <= j < v@.len() && #[trigger] v@[j].0@ == k;
                assert(o[j].0@ == k);
            }
        }
        assert forall|k: Seq<char>| #[trigger] r@.contains_key(k) implies r@[k] == pairs_set_map(
            v@,
        )[k] by {
            let a = choose|j: int| 0 <= j < o.len() && #[trigger] o[j].0@ == k;
            let b = choose|j: int| 0 <= j < v@.len() && #[trigger] v@[j].0@ == k;
            assert(v@[a].0@ == k);
            if a != b {
                if a < b {
                    assert(v@[a].0@ != v@[b].0@);
                } else {
                    assert(v@[b].0@ != v@[a].0@);
                }
            }
        }
    }
    r
}

/// The cache index as entries of names and version lists.
fn cache_pairs(m: &StrMap<StrSet>) -> (r: Vec<(String, Vec<String>)>)
    requires
        RegistryData::CacheRegistry(*m).wf(),
    ensures
        distinct_keys(r@),
        pairs_set_map(r@) == m@,
{
    let entries = m.pairs_vec();
    let mut out: Vec<(String, Vec<String>)> = Vec::new();
    let mut i: usize = 0;
    while i < entries.len()
        invariant
            entries@ == m.pairs(),
            m.wf(),
            i <= entries@.len(),
            out@.len() == i,
            forall|j: int|
                0 <= j < i ==> (#[trigger] out@[j]).0@ == entries@[j].0@ && prefix_set(
                    out@[j].1@,
                    out@[j].1@.len() as int,
                ) == entries@[j].1@,
        decreases entries.len() - i,
    {
        let items = entries[i].1.items_vec();
        let mut copy: Vec<String> = Vec::new();
        let mut k: usize = 0;
        while k < items.len()
            invariant
                items@ == entries@[i as int].1.elems(),
                k <= items@.len(),
                copy@.len() == k,
                forall|j: int| 0 <= j < k ==> #[trigger] copy@[j] == items@[j],
            decreases items.len() - k,
        {
            copy.push(items[k].clone());
            k = k + 1;
        }
        assert(prefix_set(copy@, copy@.len() as int) =~= entries@[i as int].1@) by {
            assert(copy@ =~= items@);
        }
        out.push((entries[i].0.clone(), copy));
        i = i + 1;
    }
    assert(distinct_keys(out@)) by {
        assert forall|a: int, b: int| 0 <= a < b < out@.len() implies #[trigger] out@[a].0@
            != #[trigger] out@[b].0@ by {
            assert(entries@[a].0@ != entries@[b].0@);
        }
    }
    assert(pairs_set_map(out@) =~= m@) by {
        let o = out@;
        let e = entries@;
        assert forall|k: Seq<char>| #[trigger] m@.contains_key(k) <==> pairs_set_map(
            o,
        ).contains_key(k) by {
            if m@.contains_key(k) {
                let j = choose|j: int| 0 <= j < e.len() && #[trigger] e[j].0@ == k;
                assert(o[j].0@ == k);
            }
            if pairs_set_map(o).contains_key(k) {
                let j = choose|j: int| 0 <= j < o.len() && #[trigger] o[j].0@ == k;
                assert(e[j].0@ == k);
            }
        }
        assert forall|k: Seq<char>| #[trigger] m@.contains_key(k) implies m@[k] == pairs_set_map(
            o,
        )[k] by {
            let a = choose|j: int| 0 <= j < e.len() && #[trigger] e[j].0@ == k;
            let b = choose|j: int| 0 <= j < o.len() && #[trigger] o[j].0@ == k;
            assert(o[a].0@ == k);
            if a != b {
                if a < b {
                    assert(e[a].0@ != e[b].0@);
                } else {
                    assert(e[b].0@ != e[a].0@);
                }
            }
        }
    }
    out
}

/// After recording `version` of `name`, the registry answers that version for `name`.
pub proof fn law_query_after_add(md: Map<Seq<char>, Seq<char>>, name: Seq<char>, version: Seq<char>)
    ensures
        query_spec(add_spec(RegistryModel::Modules(md), name, version), name) == Some(version),
{
}

/// Recording a version of a module and then asking for that same version
/// raises no conflict.
pub proof fn law_no_conflict_after_add(m: RegistryModel, name: Seq<char>, version: Seq<char>)
    ensures
        !conflicts_spec(add_spec(m, name, version), name, version),
{
}

/// Recording the same entry twice is the same as recording it once.
pub proof fn law_add_idempotent(m: RegistryModel, name: Seq<char>, version: Seq<char>)
    ensures
        add_spec(add_spec(m, name, version), name, version) == add_spec(m, name, version),
{
    match m {
        RegistryModel::Cache(c) => {
            let once = add_spec(m, name, version)->Cache_0;
            assert(once[name].insert(version) =~= once[name]);
            assert(once.insert(name, once[name].insert(version)) =~= once);
        },
        RegistryModel::Modules(md) => {
            assert(md.insert(name, version).insert(name, version) =~= md.insert(name, version));
        },
    }
}

/// The list of installed modules holds `name@version` once that version is recorded.
pub proof fn law_list_after_add(md: Map<Seq<char>, Seq<char>>, name: Seq<char>, version: Seq<char>)
    ensures
        list_spec(add_spec(RegistryModel::Modules(md), name, version)).contains(
            full_name_spec(name, version),
        ),
{
    let m2 = md.insert(name, version);
    assert(m2.contains_key(name));
}

/// Removing the entry `name@version` right after recording it leaves the
/// module uninstalled, when neither part holds an `@`.
pub proof fn law_remove_after_add_modules(
    md: Map<Seq<char>, Seq<char>>,
    name: Seq<char>,
    version: Seq<char>,
)
    requires
        !name.contains('@'),
        !version.contains('@'),
    ensures
        query_spec(
            remove_spec(add_spec(RegistryModel::Modules(md), name, version), full_name_spec(name, version)),
            name,
        ) is None,
{
    crate::names::law_parse_full_name(name, version);
}

/// Removing a bare module name uninstalls the module whatever its version,
/// when the name holds no `@`.
pub proof fn law_remove_bare_name_modules(md: Map<Seq<char>, Seq<char>>, name: Seq<char>)
    requires
        !name.contains('@'),
    ensures
        query_spec(remove_spec(RegistryModel::Modules(md), name), name) is None,
{
    crate::text::lemma_split_no_sep(name, '@');
}

/// Removing the entry `name@version` from the cache right after recording it
/// leaves that version out of the cache, when neither part holds an `@`.
pub proof fn law_remove_after_add_cache(
    c: Map<Seq<char>, Set<Seq<char>>>,
    name: Seq<char>,
    version: Seq<char>,
)
    requires
        !name.contains('@'),
        !version.contains('@'),
    ensures
        ({
            let after = remove_spec(
                add_spec(RegistryModel::Cache(c), name, version),
                full_name_spec(name, version),
            )->Cache_0;
            !(after.contains_key(name) && after[name].contains(version))
        }),
{
    crate::names::law_parse_full_name(name, version);
}

/// Reading back the text that `write_internal_registry` wrote gives the
/// index that was written: what `read_internal_registry` loads from a text
/// is what the JSON reader finds in it, and the written text is one in which
/// it finds the written index.
pub proof fn law_read_after_write(m: RegistryModel, text: Seq<char>)
    requires
        match m {
            RegistryModel::Cache(c) => json_string_set_object(text) == Some(c),
            RegistryModel::Modules(md) => json_string_object(text) == Some(md),
        },
    ensures
        read_model_spec(mode_of(m), text) == Some(m),
{
}

/// Removing the entry `name@version` from the cache takes out that version
/// only: every other version cached under `name` stays, `version` is no
/// longer cached under `name`, and the other names are untouched (when
/// neither part holds an `@`).
pub proof fn law_cache_remove_keeps_other_versions(
    c: Map<Seq<char>, Set<Seq<char>>>,
    name: Seq<char>,
    version: Seq<char>,
)
    requires
        !name.contains('@'),
        !version.contains('@'),
    ensures
        ({
            let after = remove_spec(RegistryModel::Cache(c), full_name_spec(name, version));
            &&& after is Cache
            &&& forall|w: Seq<char>|
                w != version && c.contains_key(name) && #[trigger] c[name].contains(w) ==> after->Cache_0.contains_key(name)
                    && after->Cache_0[name].contains(w)
            &&& !(after->Cache_0.contains_key(name) && after->Cache_0[name].contains(version))
            &&& forall|n: Seq<char>|
                n != name ==> (#[trigger] after->Cache_0.contains_key(n) == c.contains_key(n)) && (
                c.contains_key(n) ==> after->Cache_0[n] == c[n])
        }),
{
    crate::names::law_parse_full_name(name, version);
    if c.contains_key(name) {
        let rest = c[name].remove(version);
        assert forall|w: Seq<char>| w != version && #[trigger] c[name].contains(w) implies rest.contains(w) by {}
        if rest == Set::<Seq<char>>::empty() {
            assert forall|w: Seq<char>| w != version && #[trigger] c[name].contains(w) implies false by {
                assert(rest.contains(w));
            }
        }
    }
}

/// Removing an entry of another version than the installed one leaves the
/// modules index as it was (when neither part holds an `@`).
pub proof fn law_modules_remove_other_version_kept(
    md: Map<Seq<char>, Seq<char>>,
    name: Seq<char>,
    version: Seq<char>,
)
    requires
        !name.contains('@'),
        !version.contains('@'),
        version.len() > 0,
        md.contains_key(name) ==> md[name] != version,
    ensures
        remove_spec(RegistryModel::Modules(md), full_name_spec(name, version)) == RegistryModel::Modules(md),
{
    crate::names::law_parse_full_name(name, version);
}

/// Asking for a version of a module that the modules index holds at
/// another version is a conflict, and the version reported as installed is
/// the one the index holds; asking for the installed version, or for a
/// module not installed, is none.
pub proof fn law_conflict_on_other_version(md: Map<Seq<char>, Seq<char>>, name: Seq<char>, version: Seq<char>)
    ensures
        md.contains_key(name) && md[name] != version ==> conflicts_spec(RegistryModel::Modules(md), name, version)
            && query_spec(RegistryModel::Modules(md), name) == Some(md[name]),
        md.contains_key(name) && md[name] == version ==> !conflicts_spec(RegistryModel::Modules(md), name, version),
        !md.contains_key(name) ==> !conflicts_spec(RegistryModel::Modules(md), name, version),
{
}

/// Once `version` of `name` is recorded in the modules index, asking for
/// any other version of `name` is a conflict that reports `version` as
/// installed.
pub proof fn law_conflict_after_add(md: Map<Seq<char>, Seq<char>>, name: Seq<char>, version: Seq<char>, other: Seq<char>)
    requires
        other != version,
    ensures
        conflicts_spec(add_spec(RegistryModel::Modules(md), name, version), name, other),
        query_spec(add_spec(RegistryModel::Modules(md), name, version), name) == Some(version),
{
}

} // verus!
