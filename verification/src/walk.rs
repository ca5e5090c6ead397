//! The order in which the modules of a dependency tree are visited: depth
//! first when they are installed (each module, then each of its
//! dependencies in turn), breadth first when they are removed. Each module
//! is handed out once; the caller fetches, copies or deletes it and hands
//! back its dependencies.

use vstd::prelude::*;
use crate::collections::{StrMap, StrSet};
use crate::names::{full_name, full_name_spec};
use crate::text::views;

verus! {

/// The views of pairs of strings.
pub open spec fn pair_views(s: Seq<(String, String)>) -> Seq<(Seq<char>, Seq<char>)> {
    s.map_values(|p: (String, String)| (p.0@, p.1@))
}

/// The views of the entries of a dependency map, last first.
pub open spec fn reversed_entries(s: Seq<(String, String)>) -> Seq<(Seq<char>, Seq<char>)> {
    Seq::new(s.len(), |i: int| (s[s.len() - 1 - i].0@, s[s.len() - 1 - i].1@))
}

/// The walk over the modules to install: a stack of modules still to visit
/// (the top is last) and the set of `name@version` already visited.
pub struct DependencyWalk {
    visited: StrSet,
    stack: Vec<(String, String)>,
}

impl DependencyWalk {
    /// The modules still to visit, the next one last.
    pub closed spec fn pending(&self) -> Seq<(Seq<char>, Seq<char>)> {
        pair_views(self.stack@)
    }

    /// The modules visited, as `name@version`.
    pub closed spec fn visited(&self) -> Set<Seq<char>> {
        self.visited@
    }

    /// The visited set holds each module once.
    pub closed spec fn wf(&self) -> bool {
        self.visited.wf()
    }

    /// A walk that starts at `version` of `name`.
    pub fn new(name: &str, version: &str) -> (r: Self)
        ensures
            r.wf(),
            r.pending() == seq![(name@, version@)],
            r.visited() == Set::<Seq<char>>::empty(),
    {
        let mut stack: Vec<(String, String)> = Vec::new();
        stack.push((name.to_owned(), version.to_owned()));
        let r = DependencyWalk { visited: StrSet::new(), stack };
        assert(r.pending() =~= seq![(name@, version@)]);
        r
    }

    /// The next module to visit: the top of the stack, once the modules
    /// already visited are dropped from it. It is marked visited, so that no
    /// module is handed out twice.
    pub fn next(&mut self) -> (r: Option<(String, String)>)
        requires
            old(self).wf(),
        ensures
            final(self).wf(),
            match r {
                None => {
                    &&& final(self).pending().len() == 0
                    &&& final(self).visited() == old(self).visited()
                    &&& forall|i: int|
                        0 <= i < old(self).pending().len() ==> old(self).visited().contains(
                            full_name_spec(
                                (#[trigger] old(self).pending()[i]).0,
                                old(self).pending()[i].1,
                            ),
                        )
                },
                Some((n, v)) => {
                    let k = final(self).pending().len();
                    &&& k < old(self).pending().len()
                    &&& final(self).pending() == old(self).pending().take(k as int)
                    &&& old(self).pending()[k as int] == (n@, v@)
                    &&& !old(self).visited().contains(full_name_spec(n@, v@))
                    &&& final(self).visited() == old(self).visited().insert(full_name_spec(n@, v@))
                    &&& forall|i: int|
                        k < i < old(self).pending().len() ==> old(self).visited().contains(
                            full_name_spec(
                                (#[trigger] old(self).pending()[i]).0,
                                old(self).pending()[i].1,
                            ),
                        )
                },
            },
            install_step(old(self).pending(), old(self).visited()) == (
                final(self).pending(),
                final(self).visited(),
                match r {
                    Some((n, v)) => Some((n@, v@)),
                    None => None,
                },
            ),
    {
        let ghost start = self.pending();
        let ghost seen = self.visited();
        loop
            invariant
                start == old(self).pending(),
                seen == old(self).visited(),
                self.visited.wf(),
                self.visited@ == seen,
                self.stack@.len() <= start.len(),
                pair_views(self.stack@) == start.take(self.stack@.len() as int),
                forall|i: int|
                    self.stack@.len() <= i < start.len() ==> seen.contains(
                        full_name_spec((#[trigger] start[i]).0, start[i].1),
                    ),
            decreases self.stack@.len(),
        {
            let ghost len = self.stack@.len();
            let ghost prev = self.stack@;
            match self.stack.pop() {
                None => {
                    assert(self.pending() =~= Seq::<(Seq<char>, Seq<char>)>::empty());
                    proof {
                        lemma_install_step_none(start, seen);
                    }
                    return None;
                },
                Some((n, v)) => {
                    assert(prev == self.stack@.push((n, v)));
                    assert(pair_views(prev)[len - 1] == (n@, v@));
                    assert(start.take(len as int)[len - 1] == start[len - 1]);
                    assert(pair_views(self.stack@) =~= start.take(self.stack@.len() as int));
                    let f = full_name(n.as_str(), v.as_str());
                    if self.visited.insert(f) {
                        assert(self.pending() =~= start.take((len - 1) as int));
                        proof {
                            lemma_install_step_at(start, seen, len - 1);
                        }
                        return Some((n, v));
                    }
                },
            }
        }
    }

    /// Puts the dependencies of the module just visited on the stack, so that
    /// they are visited in the order in which they are held, before the
    /// modules that were waiting.
    pub fn push_dependencies(&mut self, deps: &StrMap<String>)
        requires
            old(self).wf(),
        ensures
            final(self).wf(),
            final(self).visited() == old(self).visited(),
            final(self).pending() == old(self).pending() + reversed_entries(deps.pairs()),
            final(self).pending() == old(self).pending() + reversed(pair_views(deps.pairs())),
    {
        let entries = deps.pairs_vec();
        let ghost start = self.pending();
        let n = entries.len();
        let mut i: usize = n;
        while i > 0
            invariant
                entries@ == deps.pairs(),
                n == entries@.len(),
                i <= n,
                self.visited.wf(),
                self.visited@ == old(self).visited(),
                pair_views(self.stack@) == start + reversed_entries(entries@).take((n - i) as int),
            decreases i,
        {
            i = i - 1;
            let ghost prev = self.stack@;
            self.stack.push((entries[i].0.clone(), entries[i].1.clone()));
            assert(pair_views(self.stack@) =~= start + reversed_entries(entries@).take(
                (n - i) as int,
            )) by {
                assert(pair_views(self.stack@) =~= pair_views(prev).push(
                    (entries@[i as int].0@, entries@[i as int].1@),
                ));
                assert(reversed_entries(entries@)[(n - 1 - i) as int] == (
                entries@[i as int].0@, entries@[i as int].1@));
            }
        }
        assert(reversed_entries(entries@).take(n as int) =~= reversed_entries(entries@));
        assert(reversed_entries(entries@) =~= reversed(pair_views(entries@)));
    }
}

/// The walk over the modules to remove: a queue of `name@version` entries,
/// the position of the next one, and the entries already visited.
pub struct RemovalWalk {
    visited: StrSet,
    queue: Vec<String>,
    head: usize,
}

impl RemovalWalk {
    /// The entries still to visit, the next one first.
    pub closed spec fn pending(&self) -> Seq<Seq<char>> {
        views(self.queue@).skip(self.head as int)
    }

    /// The entries visited.
    pub closed spec fn visited(&self) -> Set<Seq<char>> {
        self.visited@
    }

    /// The visited set holds each entry once and the head is in the queue.
    pub closed spec fn wf(&self) -> bool {
        self.visited.wf() && self.head <= self.queue@.len()
    }

    /// A walk that starts at `first`.
    pub fn new(first: &str) -> (r: Self)
        ensures
            r.wf(),
            r.pending() == seq![first@],
            r.visited() == Set::<Seq<char>>::empty(),
    {
        let mut queue: Vec<String> = Vec::new();
        queue.push(first.to_owned());
        let r = RemovalWalk { visited: StrSet::new(), queue, head: 0 };
        assert(r.pending() =~= seq![first@]);
        r
    }

    /// The next entry to visit: the first of the queue once the entries
    /// already visited are dropped. It is marked visited.
    pub fn next(&mut self) -> (r: Option<String>)
        requires
            old(self).wf(),
        ensures
            final(self).wf(),
            match r {
                None => {
                    &&& final(self).pending().len() == 0
                    &&& final(self).visited() == old(self).visited()
                    &&& forall|i: int|
                        0 <= i < old(self).pending().len() ==> old(self).visited().contains(
                            #[trigger] old(self).pending()[i],
                        )
                },
                Some(c) => {
                    let k = old(self).pending().len() - final(self).pending().len() - 1;
                    &&& 0 <= k < old(self).pending().len()
                    &&& final(self).pending() == old(self).pending().skip(k + 1)
                    &&& old(self).pending()[k] == c@
                    &&& !old(self).visited().contains(c@)
                    &&& final(self).visited() == old(self).visited().insert(c@)
                    &&& forall|i: int|
                        0 <= i < k ==> old(self).visited().contains(
                            #[trigger] old(self).pending()[i],
                        )
                },
            },
            removal_step(old(self).pending(), old(self).visited()) == (
                final(self).pending(),
                final(self).visited(),
                match r {
                    Some(c) => Some(c@),
                    None => None,
                },
            ),
    {
        let ghost start = self.pending();
        let ghost h0 = self.head as int;
        while self.head < self.queue.len()
            invariant
                start == old(self).pending(),
                h0 == old(self).head,
                views(self.queue@).len() == self.queue@.len(),
                self.visited.wf(),
                self.visited@ == old(self).visited(),
                self.queue@ == old(self).queue@,
                h0 <= self.head <= self.queue@.len(),
                start == views(self.queue@).skip(h0),
                forall|i: int| 0 <= i < self.head - h0 ==> self.visited@.contains(#[trigger] start[i]),
            decreases self.queue@.len() - self.head,
        {
            let c = self.queue[self.head].clone();
            assert(views(self.queue@)[self.head as int] == self.queue@[self.head as int]@);
            assert(views(self.queue@).skip(h0)[self.head - h0] == views(self.queue@)[self.head as int]);
            assert(start[self.head - h0] == c@);
            self.head = self.head + 1;
            let ghost cv = c@;
            if self.visited.insert(c.clone()) {
                assert(self.pending() =~= start.skip(self.head - h0));
                proof {
                    lemma_removal_step_at(start, old(self).visited(), self.head - h0 - 1);
                }
                return Some(c);
            }
        }
        assert(self.pending() =~= Seq::<Seq<char>>::empty());
        proof {
            lemma_removal_step_none(start, old(self).visited());
        }
        None
    }

    /// Appends the dependencies of the entry just visited to the queue, as
    /// `name@version`, in the order in which they are held.
    pub fn enqueue_dependencies(&mut self, deps: &StrMap<String>)
        requires
            old(self).wf(),
        ensures
            final(self).wf(),
            final(self).visited() == old(self).visited(),
            final(self).pending() == old(self).pending() + deps.pairs().map_values(
                |e: (String, String)| full_name_spec(e.0@, e.1@),
            ),
    {
        let entries = deps.pairs_vec();
        let ghost start = self.pending();
        let ghost names = deps.pairs().map_values(|e: (String, String)| full_name_spec(e.0@, e.1@));
        let mut i: usize = 0;
        while i < entries.len()
            invariant
                entries@ == deps.pairs(),
                names == entries@.map_values(|e: (String, String)| full_name_spec(e.0@, e.1@)),
                i <= entries@.len(),
                self.visited.wf(),
                self.visited@ == old(self).visited(),
                self.head <= self.queue@.len(),
                self.head == old(self).head,
                views(self.queue@).skip(self.head as int) == start + names.take(i as int),
            decreases entries.len() - i,
        {
            let ghost prev = self.queue@;
            let f = full_name(entries[i].0.as_str(), entries[i].1.as_str());
            let ghost fc = f;
            self.queue.push(f);
            proof {
                crate::text::lemma_views_push(prev, fc);
            }
            i = i + 1;
            assert(views(self.queue@).skip(self.head as int) =~= start + names.take(i as int)) by {
                assert(names.take(i as int) =~= names.take(i - 1).push(names[i - 1]));
                assert(views(self.queue@).skip(self.head as int) =~= views(prev).skip(
                    self.head as int,
                ).push(fc@));
            }
        }
        assert(names.take(i as int) =~= names);
    }
}

/// The module that keeps `current` from being removed: the first installed
/// module whose dependencies name it, unless the removal is forced.
/// `installed` holds, for each installed module, its name and the names of
/// its dependencies. `current` is compared as given: an entry written
/// `name@version` matches no dependency name.
pub fn blocking_dependent(current: &str, installed: &Vec<(String, StrSet)>, force: bool) -> (r:
    Option<String>)
    ensures
        force ==> r is None,
        !force ==> match r {
            Some(m) => exists|i: int|
                0 <= i < installed@.len() && #[trigger] installed@[i].0@ == m@
                    && installed@[i].1@.contains(current@) && forall|j: int|
                    0 <= j < i ==> !(#[trigger] installed@[j]).1@.contains(current@),
            None => forall|i: int|
                0 <= i < installed@.len() ==> !(#[trigger] installed@[i]).1@.contains(current@),
        },
{
    if force {
        return None;
    }
    let mut i: usize = 0;
    while i < installed.len()
        invariant
            !force,
            i <= installed@.len(),
            forall|j: int| 0 <= j < i ==> !(#[trigger] installed@[j]).1@.contains(current@),
        decreases installed.len() - i,
    {
        if installed[i].1.contains(current) {
            let m = installed[i].0.clone();
            assert(installed@[i as int].0@ == m@ && installed@[i as int].1@.contains(current@));
            return Some(m);
        }
        i = i + 1;
    }
    None
}

/// `s` last first.
pub open spec fn reversed<A>(s: Seq<A>) -> Seq<A> {
    Seq::new(s.len(), |i: int| s[s.len() - 1 - i])
}

/// The key under which an installed module is marked visited: `name@version`.
pub open spec fn entry_key(e: (Seq<char>, Seq<char>)) -> Seq<char> {
    full_name_spec(e.0, e.1)
}

/// One step of the walk over the modules to install, on its stack `p` (the
/// top last) and its visited keys `vis`: the entries on top already visited
/// are dropped, and the next one, if any, is handed out and marked visited.
pub open spec fn install_step(p: Seq<(Seq<char>, Seq<char>)>, vis: Set<Seq<char>>) -> (
    Seq<(Seq<char>, Seq<char>)>,
    Set<Seq<char>>,
    Option<(Seq<char>, Seq<char>)>,
)
    decreases p.len(),
{
    if p.len() == 0 {
        (p, vis, None)
    } else if vis.contains(entry_key(p.last())) {
        install_step(p.drop_last(), vis)
    } else {
        (p.drop_last(), vis.insert(entry_key(p.last())), Some(p.last()))
    }
}

/// The modules a whole install walk hands out, from the stack `p` and the
/// visited keys `vis`, when each module `x` handed out has the dependencies
/// `deps(x)` pushed: `None` when the walk is not over within `fuel` steps.
pub open spec fn install_run(
    deps: spec_fn((Seq<char>, Seq<char>)) -> Seq<(Seq<char>, Seq<char>)>,
    p: Seq<(Seq<char>, Seq<char>)>,
    vis: Set<Seq<char>>,
    fuel: nat,
) -> Option<Seq<(Seq<char>, Seq<char>)>>
    decreases fuel,
{
    if fuel == 0 {
        None
    } else {
        let (p2, v2, r) = install_step(p, vis);
        match r {
            None => Some(Seq::empty()),
            Some(x) => match install_run(deps, p2 + reversed(deps(x)), v2, (fuel - 1) as nat) {
                Some(rest) => Some(seq![x] + rest),
                None => None,
            },
        }
    }
}

/// `path` goes from each module to one of its dependencies.
pub open spec fn is_dep_path<A>(deps: spec_fn(A) -> Seq<A>, path: Seq<A>) -> bool {
    forall|i: int| 0 <= i < path.len() - 1 ==> #[trigger] deps(path[i]).contains(path[i + 1])
}

/// `x` is in the dependency tree of `start`: `start` itself or, in turn, a
/// dependency of a module in it.
pub open spec fn reachable<A>(deps: spec_fn(A) -> Seq<A>, start: A, x: A) -> bool {
    exists|path: Seq<A>|
        path.len() > 0 && path[0] == start && path.last() == x && #[trigger] is_dep_path(deps, path)
}

/// No entry of `s` is there twice.
pub open spec fn no_repeats<A>(s: Seq<A>) -> bool {
    forall|i: int, j: int| 0 <= i < j < s.len() ==> s[i] != s[j]
}

/// No module name of the tree holds an `@`.
pub open spec fn plain_names(
    deps: spec_fn((Seq<char>, Seq<char>)) -> Seq<(Seq<char>, Seq<char>)>,
    start: (Seq<char>, Seq<char>),
) -> bool {
    &&& !start.0.contains('@')
    &&& forall|x: (Seq<char>, Seq<char>), i: int|
        0 <= i < deps(x).len() ==> !(#[trigger] deps(x)[i]).0.contains('@')
}

/// The keys of the modules in `s`.
pub open spec fn entry_keys(s: Seq<(Seq<char>, Seq<char>)>) -> Set<Seq<char>> {
    Set::new(|k: Seq<char>| exists|i: int| 0 <= i < s.len() && entry_key(s[i]) == k)
}

/// The install step characterized: either every entry is visited and the
/// stack empties, or the entry at some position `k` is handed out, the
/// entries above it being visited and those below it kept.
proof fn lemma_install_step(p: Seq<(Seq<char>, Seq<char>)>, vis: Set<Seq<char>>)
    ensures
        match install_step(p, vis) {
            (p2, v2, None) => p2.len() == 0 && v2 == vis && forall|i: int|
                0 <= i < p.len() ==> vis.contains(entry_key(#[trigger] p[i])),
            (p2, v2, Some(x)) => exists|k: int|
                0 <= k < p.len() && p[k] == x && p2 == p.take(k) && !vis.contains(entry_key(x))
                    && v2 == vis.insert(entry_key(x)) && forall|i: int|
                    k < i < p.len() ==> vis.contains(entry_key(#[trigger] p[i])),
        },
    decreases p.len(),
{
    if p.len() > 0 {
        let t = p.drop_last();
        lemma_install_step(t, vis);
        if vis.contains(entry_key(p.last())) {
            match install_step(t, vis) {
                (p2, v2, None) => {
                    assert forall|i: int| 0 <= i < p.len() implies vis.contains(
                        entry_key(#[trigger] p[i]),
                    ) by {
                        if i < t.len() {
                            assert(p[i] == t[i]);
                        }
                    }
                },
                (p2, v2, Some(x)) => {
                    let k = choose|k: int|
                        0 <= k < t.len() && t[k] == x && p2 == t.take(k) && !vis.contains(
                            entry_key(x),
                        ) && v2 == vis.insert(entry_key(x)) && forall|i: int|
                            k < i < t.len() ==> vis.contains(entry_key(#[trigger] t[i]));
                    assert(t.take(k) =~= p.take(k));
                    assert(p[k] == t[k]);
                    assert forall|i: int| k < i < p.len() implies vis.contains(
                        entry_key(#[trigger] p[i]),
                    ) by {
                        if i < t.len() {
                            assert(p[i] == t[i]);
                        }
                    }
                },
            }
        } else {
            let k = p.len() - 1;
            assert(p.drop_last() =~= p.take(k));
            assert(p[k] == p.last());
        }
    }
}

/// When every entry above position `k` is visited and the one at `k` is
/// not, the step hands out the entry at `k`.
proof fn lemma_install_step_at(p: Seq<(Seq<char>, Seq<char>)>, vis: Set<Seq<char>>, k: int)
    requires
        0 <= k < p.len(),
        !vis.contains(entry_key(p[k])),
        forall|i: int| k < i < p.len() ==> vis.contains(entry_key(#[trigger] p[i])),
    ensures
        install_step(p, vis) == (p.take(k), vis.insert(entry_key(p[k])), Some(p[k])),
    decreases p.len(),
{
    if k == p.len() - 1 {
        assert(p.drop_last() =~= p.take(k));
    } else {
        let t = p.drop_last();
        assert(p.last() == p[p.len() - 1]);
        assert forall|i: int| k < i < t.len() implies vis.contains(entry_key(#[trigger] t[i])) by {
            assert(t[i] == p[i]);
        }
        lemma_install_step_at(t, vis, k);
        assert(t.take(k) =~= p.take(k));
    }
}

/// When every entry is visited, the step empties the stack.
proof fn lemma_install_step_none(p: Seq<(Seq<char>, Seq<char>)>, vis: Set<Seq<char>>)
    requires
        forall|i: int| 0 <= i < p.len() ==> vis.contains(entry_key(#[trigger] p[i])),
    ensures
        install_step(p, vis) == (Seq::<(Seq<char>, Seq<char>)>::empty(), vis, Option::<(Seq<char>, Seq<char>)>::None),
    decreases p.len(),
{
    if p.len() == 0 {
        assert(p =~= Seq::<(Seq<char>, Seq<char>)>::empty());
    } else {
        let t = p.drop_last();
        assert(p.last() == p[p.len() - 1]);
        assert forall|i: int| 0 <= i < t.len() implies vis.contains(entry_key(#[trigger] t[i])) by {
            assert(t[i] == p[i]);
        }
        lemma_install_step_none(t, vis);
    }
}

/// Two entries whose names hold no `@` and that have the same key are equal.
proof fn lemma_entry_key_injective(a: (Seq<char>, Seq<char>), b: (Seq<char>, Seq<char>))
    requires
        !a.0.contains('@'),
        !b.0.contains('@'),
        entry_key(a) == entry_key(b),
    ensures
        a == b,
{
    let (ka, kb) = (entry_key(a), entry_key(b));
    if a.0.len() < b.0.len() {
        assert(ka[a.0.len() as int] == '@');
        assert(kb[a.0.len() as int] == b.0[a.0.len() as int]);
        assert(b.0.contains(b.0[a.0.len() as int]));
    } else if b.0.len() < a.0.len() {
        assert(kb[b.0.len() as int] == '@');
        assert(ka[b.0.len() as int] == a.0[b.0.len() as int]);
        assert(a.0.contains(a.0[b.0.len() as int]));
    } else {
        let n = a.0.len() as int;
        assert(ka.subrange(0, n) =~= a.0);
        assert(kb.subrange(0, n) =~= b.0);
        assert(ka.subrange(n + 1, ka.len() as int) =~= a.1);
        assert(kb.subrange(n + 1, kb.len() as int) =~= b.1);
    }
}

/// A dependency of a module of the tree is in the tree.
proof fn lemma_reach_step<A>(deps: spec_fn(A) -> Seq<A>, start: A, x: A, y: A)
    requires
        reachable(deps, start, x),
        deps(x).contains(y),
    ensures
        reachable(deps, start, y),
{
    let path = choose|path: Seq<A>|
        path.len() > 0 && path[0] == start && path.last() == x && #[trigger] is_dep_path(deps, path);
    let q = path.push(y);
    assert forall|i: int| 0 <= i < q.len() - 1 implies #[trigger] deps(q[i]).contains(q[i + 1]) by {
        if i < path.len() - 1 {
            assert(q[i] == path[i] && q[i + 1] == path[i + 1]);
            assert(deps(path[i]).contains(path[i + 1]));
        } else {
            assert(q[i] == x && q[i + 1] == y);
        }
    }
    assert(is_dep_path(deps, q));
}

/// The start is in its own tree.
proof fn lemma_reach_start<A>(deps: spec_fn(A) -> Seq<A>, start: A)
    ensures
        reachable(deps, start, start),
{
    let q = seq![start];
    assert(is_dep_path(deps, q));
}

/// Every module of the tree has a plain name.
proof fn lemma_reach_plain(
    deps: spec_fn((Seq<char>, Seq<char>)) -> Seq<(Seq<char>, Seq<char>)>,
    start: (Seq<char>, Seq<char>),
    x: (Seq<char>, Seq<char>),
)
    requires
        plain_names(deps, start),
        reachable(deps, start, x),
    ensures
        !x.0.contains('@'),
{
    let path = choose|path: Seq<(Seq<char>, Seq<char>)>|
        path.len() > 0 && path[0] == start && path.last() == x && #[trigger] is_dep_path(deps, path);
    if path.len() > 1 {
        let i = path.len() - 2;
        let a = path[i];
        let b = path[i + 1];
        assert(deps(a).contains(b));
        let j = choose|j: int| 0 <= j < deps(a).len() && #[trigger] deps(a)[j] == b;
        assert(!deps(a)[j].0.contains('@'));
    }
}

/// Once the walk is over with every dependency of the modules handed out
/// visited, every module of the tree has been handed out.
proof fn lemma_install_closed(
    deps: spec_fn((Seq<char>, Seq<char>)) -> Seq<(Seq<char>, Seq<char>)>,
    start: (Seq<char>, Seq<char>),
    done: Seq<(Seq<char>, Seq<char>)>,
    path: Seq<(Seq<char>, Seq<char>)>,
)
    requires
        plain_names(deps, start),
        forall|i: int| 0 <= i < done.len() ==> reachable(deps, start, #[trigger] done[i]),
        entry_keys(done).contains(entry_key(start)),
        forall|i: int, j: int|
            0 <= i < done.len() && 0 <= j < deps(done[i]).len() ==> entry_keys(done).contains(
                entry_key(#[trigger] deps(done[i])[j]),
            ),
        path.len() > 0,
        path[0] == start,
        is_dep_path(deps, path),
    ensures
        done.contains(path.last()),
    decreases path.len(),
{
    assert(reachable(deps, start, path.last()));
    lemma_reach_plain(deps, start, path.last());
    if path.len() == 1 {
        let i = choose|i: int| 0 <= i < done.len() && entry_key(done[i]) == entry_key(start);
        lemma_reach_plain(deps, start, done[i]);
        lemma_entry_key_injective(done[i], start);
    } else {
        let q = path.drop_last();
        assert forall|i: int| 0 <= i < q.len() - 1 implies #[trigger] deps(q[i]).contains(q[i + 1]) by {
            assert(q[i] == path[i] && q[i + 1] == path[i + 1]);
            assert(deps(path[i]).contains(path[i + 1]));
        }
        lemma_install_closed(deps, start, done, q);
        let l = choose|l: int| 0 <= l < done.len() && done[l] == q.last();
        let m = path.len() - 2;
        assert(q.last() == path[m]);
        assert(deps(path[m]).contains(path[m + 1]));
        let dl = done[l];
        let j = choose|j: int| 0 <= j < deps(dl).len() && #[trigger] deps(dl)[j] == path.last();
        assert(entry_keys(done).contains(entry_key(deps(dl)[j])));
        let i = choose|i: int| 0 <= i < done.len() && entry_key(done[i]) == entry_key(path.last());
        lemma_reach_plain(deps, start, done[i]);
        lemma_entry_key_injective(done[i], path.last());
    }
}

/// The install walk, from any state that keeps its invariants, hands out
/// the rest of the tree, each module once.
proof fn lemma_install_run(
    deps: spec_fn((Seq<char>, Seq<char>)) -> Seq<(Seq<char>, Seq<char>)>,
    start: (Seq<char>, Seq<char>),
    done: Seq<(Seq<char>, Seq<char>)>,
    p: Seq<(Seq<char>, Seq<char>)>,
    vis: Set<Seq<char>>,
    fuel: nat,
    outs: Seq<(Seq<char>, Seq<char>)>,
)
    requires
        install_run(deps, p, vis, fuel) == Some(outs),
        plain_names(deps, start),
        vis == entry_keys(done),
        no_repeats(done),
        forall|i: int| 0 <= i < done.len() ==> reachable(deps, start, #[trigger] done[i]),
        forall|i: int| 0 <= i < p.len() ==> reachable(deps, start, #[trigger] p[i]),
        forall|i: int, j: int|
            0 <= i < done.len() && 0 <= j < deps(done[i]).len() ==> vis.contains(
                entry_key(#[trigger] deps(done[i])[j]),
            ) || p.contains(deps(done[i])[j]),
        vis.contains(entry_key(start)) || p.contains(start),
    ensures
        no_repeats(done + outs),
        forall|x: (Seq<char>, Seq<char>)| #[trigger] (done + outs).contains(x) <==> reachable(deps, start, x),
    decreases fuel,
{
    lemma_install_step(p, vis);
    let (p2, v2, r) = install_step(p, vis);
    match r {
        None => {
            assert(outs =~= Seq::<(Seq<char>, Seq<char>)>::empty());
            assert(done + outs =~= done);
            assert forall|i: int, j: int|
                0 <= i < done.len() && 0 <= j < deps(done[i]).len() implies entry_keys(done).contains(
                entry_key(#[trigger] deps(done[i])[j]),
            ) by {
                if p.contains(deps(done[i])[j]) {
                    let m = choose|m: int| 0 <= m < p.len() && p[m] == deps(done[i])[j];
                    assert(vis.contains(entry_key(p[m])));
                }
            }
            if p.contains(start) {
                let m = choose|m: int| 0 <= m < p.len() && p[m] == start;
                assert(vis.contains(entry_key(p[m])));
            }
            assert forall|x: (Seq<char>, Seq<char>)| #[trigger] (done + outs).contains(x) <==> reachable(
                deps,
                start,
                x,
            ) by {
                if done.contains(x) {
                    let i = choose|i: int| 0 <= i < done.len() && done[i] == x;
                    assert(reachable(deps, start, done[i]));
                }
                if reachable(deps, start, x) {
                    let path = choose|path: Seq<(Seq<char>, Seq<char>)>|
                        path.len() > 0 && path[0] == start && path.last() == x && #[trigger] is_dep_path(
                            deps,
                            path,
                        );
                    lemma_install_closed(deps, start, done, path);
                }
            }
        },
        Some(x) => {
            let k = choose|k: int|
                0 <= k < p.len() && p[k] == x && p2 == p.take(k) && !vis.contains(entry_key(x))
                    && v2 == vis.insert(entry_key(x)) && forall|i: int|
                    k < i < p.len() ==> vis.contains(entry_key(#[trigger] p[i]));
            let rest = install_run(deps, p2 + reversed(deps(x)), v2, (fuel - 1) as nat)->Some_0;
            assert(outs == seq![x] + rest);
            let done2 = done.push(x);
            let p3 = p2 + reversed(deps(x));
            assert(reachable(deps, start, p[k]));
            assert(v2 =~= entry_keys(done2)) by {
                assert forall|s: Seq<char>| #[trigger] v2.contains(s) <==> entry_keys(done2).contains(s) by {
                    if entry_keys(done).contains(s) {
                        let i = choose|i: int| 0 <= i < done.len() && entry_key(done[i]) == s;
                        assert(done2[i] == done[i]);
                    }
                    if entry_keys(done2).contains(s) {
                        let i = choose|i: int| 0 <= i < done2.len() && entry_key(done2[i]) == s;
                        if i < done.len() {
                            assert(done2[i] == done[i]);
                        }
                    }
                    if s == entry_key(x) {
                        assert(done2[done.len() as int] == x);
                    }
                }
            }
            assert(no_repeats(done2)) by {
                assert forall|i: int, j: int| 0 <= i < j < done2.len() implies done2[i] != done2[j] by {
                    if j == done.len() {
                        assert(done2[i] == done[i]);
                        assert(entry_keys(done).contains(entry_key(done[i])));
                    } else {
                        assert(done2[i] == done[i] && done2[j] == done[j]);
                    }
                }
            }
            assert forall|i: int| 0 <= i < done2.len() implies reachable(deps, start, #[trigger] done2[i]) by {
                if i < done.len() {
                    assert(done2[i] == done[i]);
                }
            }
            assert forall|i: int| 0 <= i < p3.len() implies reachable(deps, start, #[trigger] p3[i]) by {
                if i < k {
                    assert(p3[i] == p[i]);
                } else {
                    let j = deps(x).len() - 1 - (i - k);
                    assert(p3[i] == deps(x)[j]);
                    assert(deps(x).contains(deps(x)[j]));
                    lemma_reach_step(deps, start, x, deps(x)[j]);
                }
            }
            assert forall|i: int, j: int|
                0 <= i < done2.len() && 0 <= j < deps(done2[i]).len() implies v2.contains(
                entry_key(#[trigger] deps(done2[i])[j]),
            ) || p3.contains(deps(done2[i])[j]) by {
                let d = deps(done2[i])[j];
                if i < done.len() {
                    assert(done2[i] == done[i]);
                    if !vis.contains(entry_key(d)) {
                        assert(p.contains(d));
                        let m = choose|m: int| 0 <= m < p.len() && p[m] == d;
                        if m < k {
                            assert(p3[m] == d);
                        } else if m > k {
                            assert(vis.contains(entry_key(p[m])));
                        }
                    }
                } else {
                    assert(done2[i] == x);
                    let m = k + (deps(x).len() - 1 - j);
                    assert(p3[m] == d);
                }
            }
            if !vis.contains(entry_key(start)) {
                let m = choose|m: int| 0 <= m < p.len() && p[m] == start;
                if m < k {
                    assert(p3[m] == start);
                } else if m > k {
                    assert(vis.contains(entry_key(p[m])));
                }
            }
            lemma_install_run(deps, start, done2, p3, v2, (fuel - 1) as nat, rest);
            assert(done + outs =~= done2 + rest);
        },
    }
}

/// The install walk resolves the whole dependency tree: started at
/// `start`, with the dependencies `deps(x)` pushed after each module `x` it
/// hands out, a walk that is over hands out exactly the modules of the
/// tree of `start`, each once. (`install_step` is what
/// `DependencyWalk::next` does, and pushing `reversed(deps(x))` is what
/// `push_dependencies` does with a map whose entries are `deps(x)`.) Names
/// holding an `@` are left out: `a@b` at `c` and `a` at `b@c` share the
/// key `a@b@c`, and the walk hands out only one of them.
pub proof fn law_install_walk_complete(
    deps: spec_fn((Seq<char>, Seq<char>)) -> Seq<(Seq<char>, Seq<char>)>,
    start: (Seq<char>, Seq<char>),
    fuel: nat,
    outs: Seq<(Seq<char>, Seq<char>)>,
)
    requires
        plain_names(deps, start),
        install_run(deps, seq![start], Set::empty(), fuel) == Some(outs),
    ensures
        no_repeats(outs),
        forall|x: (Seq<char>, Seq<char>)| #[trigger] outs.contains(x) <==> reachable(deps, start, x),
{
    let done = Seq::<(Seq<char>, Seq<char>)>::empty();
    assert(entry_keys(done) =~= Set::<Seq<char>>::empty());
    lemma_reach_start(deps, start);
    assert(seq![start].contains(start)) by {
        assert(seq![start][0] == start);
    }
    lemma_install_run(deps, start, done, seq![start], Set::empty(), fuel, outs);
    assert(done + outs =~= outs);
}

/// One step of the walk over the modules to remove, on its queue `p` (the
/// next one first) and its visited entries `vis`: the entries in front
/// already visited are dropped, and the next one, if any, is handed out and
/// marked visited.
pub open spec fn removal_step(p: Seq<Seq<char>>, vis: Set<Seq<char>>) -> (
    Seq<Seq<char>>,
    Set<Seq<char>>,
    Option<Seq<char>>,
)
    decreases p.len(),
{
    if p.len() == 0 {
        (p, vis, None)
    } else if vis.contains(p[0]) {
        removal_step(p.drop_first(), vis)
    } else {
        (p.drop_first(), vis.insert(p[0]), Some(p[0]))
    }
}

/// The entries a whole removal walk hands out, from the queue `p` and the
/// visited entries `vis`, when each entry `x` handed out has the entries of
/// its dependencies `deps(x)` appended: `None` when the walk is not over
/// within `fuel` steps.
pub open spec fn removal_run(
    deps: spec_fn(Seq<char>) -> Seq<Seq<char>>,
    p: Seq<Seq<char>>,
    vis: Set<Seq<char>>,
    fuel: nat,
) -> Option<Seq<Seq<char>>>
    decreases fuel,
{
    if fuel == 0 {
        None
    } else {
        let (p2, v2, r) = removal_step(p, vis);
        match r {
            None => Some(Seq::empty()),
            Some(x) => match removal_run(deps, p2 + deps(x), v2, (fuel - 1) as nat) {
                Some(rest) => Some(seq![x] + rest),
                None => None,
            },
        }
    }
}

/// The entries of `s`, as a set.
pub open spec fn seq_set(s: Seq<Seq<char>>) -> Set<Seq<char>> {
    Set::new(|k: Seq<char>| s.contains(k))
}

/// The removal step characterized: either every entry is visited and the
/// queue empties, or the entry at some position `k` is handed out, the
/// entries before it being visited and those after it kept.
proof fn lemma_removal_step(p: Seq<Seq<char>>, vis: Set<Seq<char>>)
    ensures
        match removal_step(p, vis) {
            (p2, v2, None) => p2.len() == 0 && v2 == vis && forall|i: int|
                0 <= i < p.len() ==> vis.contains(#[trigger] p[i]),
            (p2, v2, Some(x)) => exists|k: int|
                0 <= k < p.len() && p[k] == x && p2 == p.skip(k + 1) && !vis.contains(x) && v2
                    == vis.insert(x) && forall|i: int| 0 <= i < k ==> vis.contains(#[trigger] p[i]),
        },
    decreases p.len(),
{
    if p.len() > 0 {
        let t = p.drop_first();
        lemma_removal_step(t, vis);
        if vis.contains(p[0]) {
            match removal_step(t, vis) {
                (p2, v2, None) => {
                    assert forall|i: int| 0 <= i < p.len() implies vis.contains(#[trigger] p[i]) by {
                        if i > 0 {
                            assert(p[i] == t[i - 1]);
                        }
                    }
                },
                (p2, v2, Some(x)) => {
                    let k = choose|k: int|
                        0 <= k < t.len() && t[k] == x && p2 == t.skip(k + 1) && !vis.contains(x)
                            && v2 == vis.insert(x) && forall|i: int|
                            0 <= i < k ==> vis.contains(#[trigger] t[i]);
                    assert(t.skip(k + 1) =~= p.skip(k + 2));
                    assert(p[k + 1] == t[k]);
                    assert forall|i: int| 0 <= i < k + 1 implies vis.contains(#[trigger] p[i]) by {
                        if i > 0 {
                            assert(p[i] == t[i - 1]);
                        }
                    }
                },
            }
        } else {
            assert(p.drop_first() =~= p.skip(1));
        }
    }
}

/// When every entry before position `k` is visited and the one at `k` is
/// not, the step hands out the entry at `k`.
proof fn lemma_removal_step_at(p: Seq<Seq<char>>, vis: Set<Seq<char>>, k: int)
    requires
        0 <= k < p.len(),
        !vis.contains(p[k]),
        forall|i: int| 0 <= i < k ==> vis.contains(#[trigger] p[i]),
    ensures
        removal_step(p, vis) == (p.skip(k + 1), vis.insert(p[k]), Some(p[k])),
    decreases k,
{
    if k == 0 {
        assert(p.drop_first() =~= p.skip(1));
    } else {
        let t = p.drop_first();
        assert(vis.contains(p[0]));
        assert forall|i: int| 0 <= i < k - 1 implies vis.contains(#[trigger] t[i]) by {
            assert(t[i] == p[i + 1]);
        }
        assert(t[k - 1] == p[k]);
        lemma_removal_step_at(t, vis, k - 1);
        assert(t.skip(k) =~= p.skip(k + 1));
    }
}

/// When every entry is visited, the step empties the queue.
proof fn lemma_removal_step_none(p: Seq<Seq<char>>, vis: Set<Seq<char>>)
    requires
        forall|i: int| 0 <= i < p.len() ==> vis.contains(#[trigger] p[i]),
    ensures
        removal_step(p, vis) == (Seq::<Seq<char>>::empty(), vis, Option::<Seq<char>>::None),
    decreases p.len(),
{
    if p.len() == 0 {
        assert(p =~= Seq::<Seq<char>>::empty());
    } else {
        let t = p.drop_first();
        assert(vis.contains(p[0]));
        assert forall|i: int| 0 <= i < t.len() implies vis.contains(#[trigger] t[i]) by {
            assert(t[i] == p[i + 1]);
        }
        lemma_removal_step_none(t, vis);
    }
}

/// Once the walk is over with every dependency of the entries handed out
/// visited, every entry of the tree has been handed out.
proof fn lemma_removal_closed(
    deps: spec_fn(Seq<char>) -> Seq<Seq<char>>,
    start: Seq<char>,
    done: Seq<Seq<char>>,
    path: Seq<Seq<char>>,
)
    requires
        done.contains(start),
        forall|i: int, j: int|
            0 <= i < done.len() && 0 <= j < deps(done[i]).len() ==> done.contains(
                #[trigger] deps(done[i])[j],
            ),
        path.len() > 0,
        path[0] == start,
        is_dep_path(deps, path),
    ensures
        done.contains(path.last()),
    decreases path.len(),
{
    if path.len() > 1 {
        let q = path.drop_last();
        assert forall|i: int| 0 <= i < q.len() - 1 implies #[trigger] deps(q[i]).contains(q[i + 1]) by {
            assert(q[i] == path[i] && q[i + 1] == path[i + 1]);
            assert(deps(path[i]).contains(path[i + 1]));
        }
        lemma_removal_closed(deps, start, done, q);
        let l = choose|l: int| 0 <= l < done.len() && done[l] == q.last();
        let m = path.len() - 2;
        assert(q.last() == path[m]);
        assert(deps(path[m]).contains(path[m + 1]));
        let dl = done[l];
        let j = choose|j: int| 0 <= j < deps(dl).len() && #[trigger] deps(dl)[j] == path.last();
        assert(done.contains(deps(dl)[j]));
    }
}

/// The removal walk, from any state that keeps its invariants, hands out
/// the rest of the tree, each entry once.
proof fn lemma_removal_run(
    deps: spec_fn(Seq<char>) -> Seq<Seq<char>>,
    start: Seq<char>,
    done: Seq<Seq<char>>,
    p: Seq<Seq<char>>,
    vis: Set<Seq<char>>,
    fuel: nat,
    outs: Seq<Seq<char>>,
)
    requires
        removal_run(deps, p, vis, fuel) == Some(outs),
        vis == seq_set(done),
        no_repeats(done),
        forall|i: int| 0 <= i < done.len() ==> reachable(deps, start, #[trigger] done[i]),
        forall|i: int| 0 <= i < p.len() ==> reachable(deps, start, #[trigger] p[i]),
        forall|i: int, j: int|
            0 <= i < done.len() && 0 <= j < deps(done[i]).len() ==> vis.contains(
                #[trigger] deps(done[i])[j],
            ) || p.contains(deps(done[i])[j]),
        vis.contains(start) || p.contains(start),
    ensures
        no_repeats(done + outs),
        forall|x: Seq<char>| #[trigger] (done + outs).contains(x) <==> reachable(deps, start, x),
    decreases fuel,
{
    lemma_removal_step(p, vis);
    let (p2, v2, r) = removal_step(p, vis);
    match r {
        None => {
            assert(outs =~= Seq::<Seq<char>>::empty());
            assert(done + outs =~= done);
            assert forall|i: int, j: int|
                0 <= i < done.len() && 0 <= j < deps(done[i]).len() implies done.contains(
                #[trigger] deps(done[i])[j],
            ) by {
                if p.contains(deps(done[i])[j]) {
                    let m = choose|m: int| 0 <= m < p.len() && p[m] == deps(done[i])[j];
                    assert(vis.contains(p[m]));
                }
                assert(vis.contains(deps(done[i])[j]));
            }
            if p.contains(start) {
                let m = choose|m: int| 0 <= m < p.len() && p[m] == start;
                assert(vis.contains(p[m]));
            }
            assert(vis.contains(start));
            assert forall|x: Seq<char>| #[trigger] (done + outs).contains(x) <==> reachable(
                deps,
                start,
                x,
            ) by {
                if done.contains(x) {
                    let i = choose|i: int| 0 <= i < done.len() && done[i] == x;
                    assert(reachable(deps, start, done[i]));
                }
                if reachable(deps, start, x) {
                    let path = choose|path: Seq<Seq<char>>|
                        path.len() > 0 && path[0] == start && path.last() == x && #[trigger] is_dep_path(
                            deps,
                            path,
                        );
                    lemma_removal_closed(deps, start, done, path);
                }
            }
        },
        Some(x) => {
            let k = choose|k: int|
                0 <= k < p.len() && p[k] == x && p2 == p.skip(k + 1) && !vis.contains(x) && v2
                    == vis.insert(x) && forall|i: int| 0 <= i < k ==> vis.contains(#[trigger] p[i]);
            let rest = removal_run(deps, p2 + deps(x), v2, (fuel - 1) as nat)->Some_0;
            assert(outs == seq![x] + rest);
            let done2 = done.push(x);
            let p3 = p2 + deps(x);
            assert(reachable(deps, start, p[k]));
            assert(v2 =~= seq_set(done2)) by {
                assert forall|s: Seq<char>| #[trigger] v2.contains(s) <==> seq_set(done2).contains(s) by {
                    if done.contains(s) {
                        let i = choose|i: int| 0 <= i < done.len() && done[i] == s;
                        assert(done2[i] == done[i]);
                    }
                    if done2.contains(s) {
                        let i = choose|i: int| 0 <= i < done2.len() && done2[i] == s;
                        if i < done.len() {
                            assert(done2[i] == done[i]);
                        }
                    }
                    if s == x {
                        assert(done2[done.len() as int] == x);
                    }
                }
            }
            assert(no_repeats(done2)) by {
                assert forall|i: int, j: int| 0 <= i < j < done2.len() implies done2[i] != done2[j] by {
                    if j == done.len() {
                        assert(done2[i] == done[i]);
                        assert(done.contains(done[i]));
                    } else {
                        assert(done2[i] == done[i] && done2[j] == done[j]);
                    }
                }
            }
            assert forall|i: int| 0 <= i < done2.len() implies reachable(deps, start, #[trigger] done2[i]) by {
                if i < done.len() {
                    assert(done2[i] == done[i]);
                }
            }
            let n2 = p2.len() as int;
            assert forall|i: int| 0 <= i < p3.len() implies reachable(deps, start, #[trigger] p3[i]) by {
                if i < n2 {
                    assert(p3[i] == p[i + k + 1]);
                } else {
                    assert(p3[i] == deps(x)[i - n2]);
                    assert(deps(x).contains(deps(x)[i - n2]));
                    lemma_reach_step(deps, start, x, deps(x)[i - n2]);
                }
            }
            assert forall|i: int, j: int|
                0 <= i < done2.len() && 0 <= j < deps(done2[i]).len() implies v2.contains(
                #[trigger] deps(done2[i])[j],
            ) || p3.contains(deps(done2[i])[j]) by {
                let d = deps(done2[i])[j];
                if i < done.len() {
                    assert(done2[i] == done[i]);
                    if !vis.contains(d) {
                        assert(p.contains(d));
                        let m = choose|m: int| 0 <= m < p.len() && p[m] == d;
                        if m > k {
                            assert(p3[m - k - 1] == d);
                        } else if m < k {
                            assert(vis.contains(p[m]));
                        }
                    }
                } else {
                    assert(done2[i] == x);
                    assert(p3[n2 + j] == d);
                }
            }
            if !vis.contains(start) {
                let m = choose|m: int| 0 <= m < p.len() && p[m] == start;
                if m > k {
                    assert(p3[m - k - 1] == start);
                } else if m < k {
                    assert(vis.contains(p[m]));
                }
            }
            lemma_removal_run(deps, start, done2, p3, v2, (fuel - 1) as nat, rest);
            assert(done + outs =~= done2 + rest);
        },
    }
}

/// The removal walk reaches the whole dependency tree: started at the
/// entry `start`, with the entries `deps(x)` of the dependencies of each
/// entry `x` it hands out appended, a walk that is over hands out exactly
/// the entries of the tree of `start`, each once. (`removal_step` is what
/// `RemovalWalk::next` does, and appending `deps(x)` is what
/// `enqueue_dependencies` does with a map whose entries, written
/// `name@version`, are `deps(x)`.) In a forced removal every entry handed
/// out is deleted, so the whole tree goes.
pub proof fn law_removal_walk_complete(
    deps: spec_fn(Seq<char>) -> Seq<Seq<char>>,
    start: Seq<char>,
    fuel: nat,
    outs: Seq<Seq<char>>,
)
    requires
        removal_run(deps, seq![start], Set::empty(), fuel) == Some(outs),
    ensures
        no_repeats(outs),
        forall|x: Seq<char>| #[trigger] outs.contains(x) <==> reachable(deps, start, x),
{
    let done = Seq::<Seq<char>>::empty();
    assert(seq_set(done) =~= Set::<Seq<char>>::empty());
    lemma_reach_start(deps, start);
    assert(seq![start].contains(start)) by {
        assert(seq![start][0] == start);
    }
    lemma_removal_run(deps, start, done, seq![start], Set::empty(), fuel, outs);
    assert(done + outs =~= outs);
}

} // verus!
