//! The lock file (`Cspm.lock`): the exact modules a project was built
//! with, where they came from, their checksums and their dependencies.

use vstd::prelude::*;
use crate::collections::{StrMap, StrSet};
use crate::names::{full_name, full_name_spec};
use crate::text::views;

verus! {

/// The format version written into new lock files.
pub const LOCK_VERSION: u32 = 1;

/// A locked module (or the project itself).
pub struct LockChild {
    pub name: String,
    pub version: String,
    pub source: String,
    pub checksum: String,
    /// Each dependency as `name@version`.
    pub dependencies: Vec<String>,
}

/// A lock file.
pub struct LockFile {
    pub version: u32,
    pub package: Vec<LockChild>,
    pub plugins: StrSet,
}

/// The entries of `s` for which `drop` is false, in their order.
pub open spec fn keep(s: Seq<LockChild>, drop: spec_fn(LockChild) -> bool) -> Seq<LockChild>
    decreases s.len(),
{
    if s.len() == 0 {
        s
    } else {
        let rest = keep(s.drop_last(), drop);
        if drop(s.last()) {
            rest
        } else {
            rest.push(s.last())
        }
    }
}

/// The entry is `name` at `version`.
pub open spec fn is_module(name: Seq<char>, version: Seq<char>) -> spec_fn(LockChild) -> bool {
    |p: LockChild| p.name@ == name && p.version@ == version
}

/// The entry is named `name`.
pub open spec fn is_named(name: Seq<char>) -> spec_fn(LockChild) -> bool {
    |p: LockChild| p.name@ == name
}

/// The dependencies of a manifest as `name@version`, in the order they are held.
pub open spec fn dependency_names(deps: Seq<(String, String)>) -> Seq<Seq<char>> {
    deps.map_values(|e: (String, String)| full_name_spec(e.0@, e.1@))
}

/// What `keep` keeps: exactly the entries of `s` that `drop` spares.
pub proof fn lemma_keep(s: Seq<LockChild>, drop: spec_fn(LockChild) -> bool)
    ensures
        forall|x: LockChild| #[trigger] keep(s, drop).contains(x) <==> s.contains(x) && !drop(x),
        keep(s, drop).len() <= s.len(),
    decreases s.len(),
{
    if s.len() > 0 {
        lemma_keep(s.drop_last(), drop);
        let rest = keep(s.drop_last(), drop);
        assert forall|x: LockChild| #[trigger] keep(s, drop).contains(x) <==> s.contains(x)
            && !drop(x) by {
            if s.contains(x) && !drop(x) {
                let i = choose|i: int| 0 <= i < s.len() && s[i] == x;
                if i < s.len() - 1 {
                    assert(s.drop_last()[i] == x);
                    assert(rest.contains(x));
                    let j = choose|j: int| 0 <= j < rest.len() && rest[j] == x;
                    assert(keep(s, drop)[j] == x);
                } else {
                    assert(keep(s, drop) == rest.push(s.last()));
                    assert(keep(s, drop)[rest.len() as int] == x);
                }
            }
            if keep(s, drop).contains(x) {
                let j = choose|j: int| 0 <= j < keep(s, drop).len() && keep(s, drop)[j] == x;
                if j < rest.len() {
                    assert(rest[j] == x);
                    assert(rest.contains(x));
                    let i = choose|i: int| 0 <= i < s.drop_last().len() && s.drop_last()[i] == x;
                    assert(s[i] == x);
                } else {
                    assert(x == s.last());
                    assert(s[s.len() - 1] == x);
                }
            }
        }
    }
}

/// Removes from `v` the entries for which `drop` holds; `matches_entry`
/// decides it on the executable side.
fn retain_entries(v: &mut Vec<LockChild>, name: &str, version: Option<&str>)
    ensures
        final(v)@ == keep(
            old(v)@,
            match version {
                Some(ver) => is_module(name@, ver@),
                None => is_named(name@),
            },
        ),
{
    let ghost drop = match version {
        Some(ver) => is_module(name@, ver@),
        None => is_named(name@),
    };
    let ghost orig = v@;
    let n_name = name.to_owned();
    let n_version: Option<String> = match version {
        Some(ver) => Some(ver.to_owned()),
        None => None,
    };
    let mut i: usize = 0;
    let ghost mut k: int = 0;
    assert(orig.take(0) =~= Seq::<LockChild>::empty());
    assert(orig.skip(0) =~= orig);
    while i < v.len()
        invariant
            0 <= k <= orig.len(),
            v@ == keep(orig.take(k), drop) + orig.skip(k),
            i == keep(orig.take(k), drop).len(),
            n_name@ == name@,
            drop == match version {
                Some(ver) => is_module(name@, ver@),
                None => is_named(name@),
            },
            match (n_version, version) {
                (Some(a), Some(b)) => a@ == b@,
                (None, None) => true,
                _ => false,
            },
        decreases v@.len() - i,
    {
        assert(k < orig.len());
        assert(v@[i as int] == orig[k]) by {
            assert(orig.skip(k)[0] == orig[k]);
        }
        assert(orig.take(k + 1).drop_last() =~= orig.take(k));
        assert(orig.take(k + 1).last() == orig[k]);
        let hit = v[i].name == n_name && match &n_version {
            Some(ver) => v[i].version == *ver,
            None => true,
        };
        assert(hit == drop(orig[k]));
        let ghost before = v@;
        if hit {
            v.remove(i);
            proof {
                k = k + 1;
            }
            assert(v@ =~= keep(orig.take(k), drop) + orig.skip(k)) by {
                assert(keep(orig.take(k), drop) == keep(orig.take(k - 1), drop));
                assert(orig.skip(k - 1).drop_first() =~= orig.skip(k));
            }
        } else {
            i = i + 1;
            proof {
                k = k + 1;
            }
            assert(v@ =~= keep(orig.take(k), drop) + orig.skip(k)) by {
                assert(keep(orig.take(k), drop) == keep(orig.take(k - 1), drop).push(orig[k - 1]));
                assert(orig.skip(k - 1).drop_first() =~= orig.skip(k));
            }
        }
    }
    assert(k == orig.len()) by {
        if k < orig.len() {
            assert(orig.skip(k).len() > 0);
        }
    }
    assert(orig.take(k) =~= orig);
    assert(orig.skip(k) =~= Seq::<LockChild>::empty());
    assert(v@ =~= keep(orig, drop));
}

/// The dependencies of a manifest written `name@version`, in the order they are held.
pub fn dependency_list(deps: &StrMap<String>) -> (r: Vec<String>)
    ensures
        views(r@) == dependency_names(deps.pairs()),
{
    let entries = deps.pairs_vec();
    let mut out: Vec<String> = Vec::new();
    let mut i: usize = 0;
    while i < entries.len()
        invariant
            entries@ == deps.pairs(),
            i <= entries@.len(),
            out@.len() == i,
            views(out@) == dependency_names(entries@.take(i as int)),
        decreases entries.len() - i,
    {
        let ghost prev = out@;
        let f = full_name(entries[i].0.as_str(), entries[i].1.as_str());
        let ghost fv = f@;
        let ghost fs = f;
        out.push(f);
        assert(out@ == prev.push(fs));
        i = i + 1;
        assert(views(out@) =~= dependency_names(entries@.take(i as int))) by {
            assert forall|j: int| 0 <= j < i implies #[trigger] views(out@)[j]
                == dependency_names(entries@.take(i as int))[j] by {
                assert(views(out@)[j] == out@[j]@);
                assert(dependency_names(entries@.take(i as int))[j] == full_name_spec(
                    entries@[j].0@,
                    entries@[j].1@,
                ));
                if j < i - 1 {
                    assert(out@[j] == prev[j]);
                    assert(views(prev)[j] == prev[j]@);
                    assert(dependency_names(entries@.take(i - 1))[j] == full_name_spec(
                        entries@[j].0@,
                        entries@[j].1@,
                    ));
                } else {
                    assert(out@[j]@ == fv);
                }
            }
        }
    }
    assert(entries@.take(i as int) =~= entries@);
    out
}

impl LockFile {
    /// The plugin set is held without repetition.
    pub open spec fn wf(&self) -> bool {
        self.plugins.wf()
    }

    /// A new lock file: the current format version, no module, no plugin.
    pub fn new_default() -> (r: Self)
        ensures
            r.wf(),
            r.version == LOCK_VERSION,
            r.package@.len() == 0,
            r.plugins@ == Set::<Seq<char>>::empty(),
    {
        LockFile { version: LOCK_VERSION, package: Vec::new(), plugins: StrSet::new() }
    }

    /// Locks a module: any entry of the same name and version is replaced by
    /// `child`, which goes last.
    pub fn record_module(&mut self, child: LockChild)
        ensures
            final(self).package@ == keep(
                old(self).package@,
                is_module(child.name@, child.version@),
            ).push(child),
            final(self).version == old(self).version,
            final(self).plugins == old(self).plugins,
    {
        let ghost c = child;
        retain_entries(&mut self.package, child.name.as_str(), Some(child.version.as_str()));
        self.package.push(child);
    }

    /// Locks the project itself: any entry of its name is replaced by one of
    /// `version` listing `deps` as `name@version`, with no source or checksum,
    /// which goes last.
    pub fn set_project_entry(&mut self, name: &str, version: &str, deps: &StrMap<String>)
        ensures
            final(self).package@.len() == keep(old(self).package@, is_named(name@)).len() + 1,
            final(self).package@.drop_last() == keep(old(self).package@, is_named(name@)),
            final(self).package@.last().name@ == name@,
            final(self).package@.last().version@ == version@,
            final(self).package@.last().source@ == Seq::<char>::empty(),
            final(self).package@.last().checksum@ == Seq::<char>::empty(),
            views(final(self).package@.last().dependencies@)
                == dependency_names(deps.pairs()),
            final(self).version == old(self).version,
            final(self).plugins == old(self).plugins,
    {
        retain_entries(&mut self.package, name, None);
        let ghost kept = self.package@;
        let entry = LockChild {
            name: name.to_owned(),
            version: version.to_owned(),
            source: String::new(),
            checksum: String::new(),
            dependencies: dependency_list(deps),
        };
        self.package.push(entry);
        assert(self.package@.drop_last() =~= kept);
    }

    /// Drops every entry of `name` at `version`.
    pub fn remove_module(&mut self, name: &str, version: &str)
        ensures
            final(self).package@ == keep(old(self).package@, is_module(name@, version@)),
            final(self).version == old(self).version,
            final(self).plugins == old(self).plugins,
    {
        retain_entries(&mut self.package, name, Some(version));
    }

    /// The positions of the locked modules to restore: every entry but those
    /// of the project itself (named `project_name`), in order.
    pub fn modules_to_restore(&self, project_name: &str) -> (r: Vec<usize>)
        ensures
            forall|j: int|
                0 <= j < r@.len() ==> #[trigger] r@[j] < self.package@.len()
                    && self.package@[r@[j] as int].name@ != project_name@,
            forall|j: int, k: int| 0 <= j < k < r@.len() ==> #[trigger] r@[j] < #[trigger] r@[k],
            forall|i: int|
                0 <= i < self.package@.len() && #[trigger] self.package@[i].name@ != project_name@
                    ==> r@.contains(i as usize),
    {
        let project = project_name.to_owned();
        let mut r: Vec<usize> = Vec::new();
        let mut i: usize = 0;
        while i < self.package.len()
            invariant
                project@ == project_name@,
                i <= self.package@.len(),
                forall|j: int|
                    0 <= j < r@.len() ==> #[trigger] r@[j] < i && self.package@[r@[j] as int].name@
                        != project_name@,
                forall|j: int, k: int| 0 <= j < k < r@.len() ==> #[trigger] r@[j] < #[trigger] r@[k],
                forall|m: int|
                    0 <= m < i && #[trigger] self.package@[m].name@ != project_name@
                        ==> r@.contains(m as usize),
            decreases self.package.len() - i,
        {
            let ghost prev = r@;
            if self.package[i].name != project {
                r.push(i);
                assert forall|m: int|
                    0 <= m < i + 1 && #[trigger] self.package@[m].name@ != project_name@
                        implies r@.contains(m as usize) by {
                    if m < i {
                        let j = choose|j: int| 0 <= j < prev.len() && prev[j] == m as usize;
                        assert(r@[j] == m as usize);
                    } else {
                        assert(r@[prev.len() as int] == i);
                    }
                }
            }
            i = i + 1;
        }
        r
    }

    /// Takes the plugins that a manifest declares.
    pub fn set_plugins(&mut self, plugins: &StrSet)
        ensures
            final(self).plugins@ == plugins@,
            plugins.wf() ==> final(self).wf(),
            final(self).package == old(self).package,
            final(self).version == old(self).version,
    {
        self.plugins = plugins.duplicate();
    }
}

/// After a module is locked, it is held once, as the last entry, and every
/// other entry is one held before.
pub proof fn law_record_module_once(before: Seq<LockChild>, child: LockChild)
    ensures
        ({
            let after = keep(before, is_module(child.name@, child.version@)).push(child);
            &&& after.last() == child
            &&& forall|i: int|
                0 <= i < after.len() - 1 ==> !(after[i].name@ == child.name@ && after[i].version@
                    == child.version@) && before.contains(#[trigger] after[i])
        }),
{
    let drop = is_module(child.name@, child.version@);
    lemma_keep(before, drop);
    let kept = keep(before, drop);
    let after = kept.push(child);
    assert forall|i: int| 0 <= i < after.len() - 1 implies !(after[i].name@ == child.name@
        && after[i].version@ == child.version@) && before.contains(#[trigger] after[i]) by {
        assert(after[i] == kept[i]);
        assert(kept.contains(kept[i]));
    }
}

/// After a module is dropped, no entry of that name and version is left, and
/// every entry of another module is kept.
pub proof fn law_remove_module(before: Seq<LockChild>, name: Seq<char>, version: Seq<char>)
    ensures
        forall|x: LockChild| #[trigger] keep(before, is_module(name, version)).contains(x) <==> (
        before.contains(x) && !(x.name@ == name && x.version@ == version)),
{
    lemma_keep(before, is_module(name, version));
}

/// After the project entry is written, the project is held once, as the
/// last entry, and every other entry is one held before.
pub proof fn law_project_entry_once(before: Seq<LockChild>, name: Seq<char>, entry: LockChild)
    requires
        entry.name@ == name,
    ensures
        ({
            let after = keep(before, is_named(name)).push(entry);
            &&& after.last() == entry
            &&& forall|i: int|
                0 <= i < after.len() - 1 ==> (#[trigger] after[i]).name@ != name && before.contains(
                    after[i],
                )
        }),
{
    let drop = is_named(name);
    lemma_keep(before, drop);
    let kept = keep(before, drop);
    let after = kept.push(entry);
    assert forall|i: int| 0 <= i < after.len() - 1 implies (#[trigger] after[i]).name@ != name
        && before.contains(after[i]) by {
        assert(after[i] == kept[i]);
        assert(kept.contains(kept[i]));
    }
}

} // verus!
