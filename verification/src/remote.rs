//! The remote registry: its index entries, the addresses of module
//! resources, and the choice of a module version among those it offers.

use vstd::prelude::*;
use crate::text::{joined, join_with, views};
use crate::names::ModuleTools;

verus! {

/// What the remote index says of one module.
pub struct RemoteRegistryIndex {
    pub versions: Vec<String>,
    pub authors: Vec<String>,
    pub description: String,
}

impl View for RemoteRegistryIndex {
    /// The versions, the authors and the description.
    type V = (Seq<Seq<char>>, Seq<Seq<char>>, Seq<char>);

    open spec fn view(&self) -> (Seq<Seq<char>>, Seq<Seq<char>>, Seq<char>) {
        (views(self.versions@), views(self.authors@), self.description@)
    }
}

/// A remote registry: where its index is and where module files are.
pub struct RemoteRegistry {
    pub index_url: String,
    pub resources_url: String,
}

/// An entry of a remote folder listing.
pub struct GitHubItem {
    pub name: String,
    /// `file` or `dir`.
    pub item_type: String,
    pub download_url: Option<String>,
}

/// What to do with an entry of a remote folder listing.
pub enum ItemAction {
    /// Fetch the file at `url` and store it under `name`.
    Download { url: String, name: String },
    /// List the folder at `url` and store its files under `name`.
    Descend { url: String, name: String },
    /// Nothing to fetch.
    Skip,
}

/// Why no version could be chosen.
#[derive(Debug)]
pub enum ResolveError {
    /// The registry offers `name` but not at `version`.
    VersionNotFound { name: String, version: String },
    /// The registry does not offer `name`, or offers no version of it.
    ModuleNotFound { name: String },
}

/// `url/name`.
pub open spec fn child_url_spec(url: Seq<char>, name: Seq<char>) -> Seq<char> {
    joined(url, '/', name)
}

/// The version chosen among those the registry offers: the one asked for
/// when it is offered, else the last one listed when none was asked for.
pub open spec fn resolve_spec(
    requested: Option<Seq<char>>,
    index: Option<Seq<Seq<char>>>,
) -> Option<Seq<char>> {
    match index {
        None => None,
        Some(versions) => match requested {
            Some(v) => if versions.contains(v) {
                Some(v)
            } else {
                None
            },
            None => if versions.len() > 0 {
                Some(versions.last())
            } else {
                None
            },
        },
    }
}

/// `url/name`.
pub fn child_url(url: &str, name: &str) -> (r: String)
    ensures
        r@ == child_url_spec(url@, name@),
{
    join_with(url, '/', name)
}

impl RemoteRegistry {
    /// A registry with its index at `index_url` and its files under `resources_url`.
    pub fn new(index_url: &str, resources_url: &str) -> (r: Self)
        ensures
            r.index_url@ == index_url@,
            r.resources_url@ == resources_url@,
    {
        RemoteRegistry { index_url: index_url.to_owned(), resources_url: resources_url.to_owned() }
    }

    /// Where the files of `version` of `name` are: `resources/name/version`.
    pub fn package_url(&self, name: &str, version: &str) -> (r: String)
        ensures
            r@ == child_url_spec(child_url_spec(self.resources_url@, name@), version@),
    {
        let base = child_url(self.resources_url.as_str(), name);
        child_url(base.as_str(), version)
    }
}

/// What to do with `item` of the listing of the folder at `url`: a file with
/// a download address is fetched, a folder is listed in turn at `url/name`,
/// anything else is skipped.
pub fn classify_item(url: &str, item: &GitHubItem) -> (r: ItemAction)
    ensures
        item.item_type@ == "file"@ ==> match item.download_url {
            Some(u) => r matches ItemAction::Download { url: du, name } && du@ == u@ && name@
                == item.name@,
            None => r is Skip,
        },
        item.item_type@ == "dir"@ ==> (r matches ItemAction::Descend { url: su, name } && su@
            == child_url_spec(url@, item.name@) && name@ == item.name@),
        item.item_type@ != "file"@ && item.item_type@ != "dir"@ ==> r is Skip,
{
    let file = String::from_str("file");
    let dir = String::from_str("dir");
    proof {
        reveal_strlit("file");
        reveal_strlit("dir");
        assert("file"@.len() == 4 && "dir"@.len() == 3);
        assert("file"@ != "dir"@);
    }
    if item.item_type == file {
        match &item.download_url {
            Some(u) => ItemAction::Download { url: u.clone(), name: item.name.clone() },
            None => ItemAction::Skip,
        }
    } else if item.item_type == dir {
        ItemAction::Descend { url: child_url(url, item.name.as_str()), name: item.name.clone() }
    } else {
        ItemAction::Skip
    }
}

/// Whether `v` is among `list`.
pub fn contains_string(list: &Vec<String>, v: &str) -> (r: bool)
    ensures
        r == views(list@).contains(v@),
{
    let key = v.to_owned();
    let mut i: usize = 0;
    while i < list.len()
        invariant
            key@ == v@,
            i <= list@.len(),
            forall|j: int| 0 <= j < i ==> #[trigger] list@[j]@ != v@,
        decreases list.len() - i,
    {
        if list[i] == key {
            assert(views(list@)[i as int] == v@);
            return true;
        }
        i = i + 1;
    }
    assert(!views(list@).contains(v@)) by {
        if views(list@).contains(v@) {
            let j = choose|j: int| 0 <= j < views(list@).len() && views(list@)[j] == v@;
            assert(list@[j]@ == v@);
        }
    }
    false
}

impl ModuleTools {
    /// Chooses the version of `pname` to install, given what the remote
    /// index says of it (`None` when the index has no entry for it): the
    /// requested version must be offered; with no request the last version
    /// listed is taken.
    pub fn resolve_module_version(
        pname: &str,
        version: Option<String>,
        index: Option<&RemoteRegistryIndex>,
    ) -> (r: Result<String, ResolveError>)
        ensures
            ({
                let idx = match index {
                    Some(i) => Some(views(i.versions@)),
                    None => None,
                };
                let req = match version {
                    Some(v) => Some(v@),
                    None => None,
                };
                match resolve_spec(req, idx) {
                    Some(v) => r matches Ok(s) && s@ == v,
                    None => match r {
                        Ok(_) => false,
                        Err(ResolveError::VersionNotFound { name, version: bad }) => name@ == pname@
                            && index is Some && (version matches Some(vv) && bad@ == vv@),
                        Err(ResolveError::ModuleNotFound { name }) => name@ == pname@ && (
                        index is None || version is None),
                    },
                }
            }),
    {
        match index {
            Some(ix) => {
                match version {
                    Some(passed_version) => {
                        if contains_string(&ix.versions, passed_version.as_str()) {
                            Ok(passed_version)
                        } else {
                            Err(
                                ResolveError::VersionNotFound {
                                    name: pname.to_owned(),
                                    version: passed_version,
                                },
                            )
                        }
                    },
                    None => {
                        let n = ix.versions.len();
                        if n > 0 {
                            assert(views(ix.versions@).last() == ix.versions@[n - 1]@);
                            Ok(ix.versions[n - 1].clone())
                        } else {
                            Err(ResolveError::ModuleNotFound { name: pname.to_owned() })
                        }
                    },
                }
            },
            None => Err(ResolveError::ModuleNotFound { name: pname.to_owned() }),
        }
    }
}

} // verus!
