use cspm::collections::{StrMap, StrSet};
use cspm::walk::{blocking_dependent, DependencyWalk, RemovalWalk};

fn deps(entries: &[(&str, &str)]) -> StrMap<String> {
    let mut m: StrMap<String> = StrMap::new();
    for (k, v) in entries {
        m.insert(k.to_string(), v.to_string());
    }
    m
}

fn pair(n: &str, v: &str) -> (String, String) {
    (n.to_string(), v.to_string())
}

#[test]
fn dependency_walk_is_depth_first() {
    // a depends on b and c; b depends on d.
    let mut w = DependencyWalk::new("a", "1.0.0");
    assert_eq!(w.next(), Some(pair("a", "1.0.0")));
    w.push_dependencies(&deps(&[("b", "1.0.0"), ("c", "2.0.0")]));
    assert_eq!(w.next(), Some(pair("b", "1.0.0")));
    w.push_dependencies(&deps(&[("d", "0.1.0")]));
    assert_eq!(w.next(), Some(pair("d", "0.1.0")));
    w.push_dependencies(&StrMap::new());
    assert_eq!(w.next(), Some(pair("c", "2.0.0")));
    w.push_dependencies(&StrMap::new());
    assert_eq!(w.next(), None);
}

#[test]
fn dependency_walk_visits_once() {
    // a depends on b and c, both depend on d.
    let mut w = DependencyWalk::new("a", "1.0.0");
    assert_eq!(w.next(), Some(pair("a", "1.0.0")));
    w.push_dependencies(&deps(&[("b", "1.0.0"), ("c", "1.0.0")]));
    assert_eq!(w.next(), Some(pair("b", "1.0.0")));
    w.push_dependencies(&deps(&[("d", "1.0.0")]));
    assert_eq!(w.next(), Some(pair("d", "1.0.0")));
    assert_eq!(w.next(), Some(pair("c", "1.0.0")));
    w.push_dependencies(&deps(&[("d", "1.0.0"), ("a", "1.0.0")]));
    assert_eq!(w.next(), None);
}

#[test]
fn dependency_walk_distinguishes_versions() {
    let mut w = DependencyWalk::new("a", "1.0.0");
    assert_eq!(w.next(), Some(pair("a", "1.0.0")));
    w.push_dependencies(&deps(&[("a", "2.0.0")]));
    assert_eq!(w.next(), Some(pair("a", "2.0.0")));
    assert_eq!(w.next(), None);
}

#[test]
fn removal_walk_is_breadth_first() {
    let mut w = RemovalWalk::new("a@1.0.0");
    assert_eq!(w.next(), Some("a@1.0.0".to_string()));
    w.enqueue_dependencies(&deps(&[("b", "1.0.0"), ("c", "2.0.0")]));
    assert_eq!(w.next(), Some("b@1.0.0".to_string()));
    w.enqueue_dependencies(&deps(&[("d", "0.1.0"), ("c", "2.0.0")]));
    assert_eq!(w.next(), Some("c@2.0.0".to_string()));
    assert_eq!(w.next(), Some("d@0.1.0".to_string()));
    assert_eq!(w.next(), None);
}

#[test]
fn blocking_module() {
    let installed = vec![
        ("osc".to_string(), StrSet::from_vec(vec!["env".to_string()])),
        ("rev".to_string(), StrSet::from_vec(vec!["lfo".to_string(), "env".to_string()])),
        ("lfo".to_string(), StrSet::new()),
    ];
    assert_eq!(blocking_dependent("env", &installed, false), Some("osc".to_string()));
    assert_eq!(blocking_dependent("lfo", &installed, false), Some("rev".to_string()));
    assert_eq!(blocking_dependent("rev", &installed, false), None);
    assert_eq!(blocking_dependent("env", &installed, true), None);
    assert_eq!(blocking_dependent("env@1.0.0", &installed, false), None);
}

#[test]
fn forced_removal_reaches_whole_tree() {
    // a -> b, c; b -> d; c -> d, a
    let mut w = RemovalWalk::new("a@1");
    let mut out = Vec::new();
    while let Some(c) = w.next() {
        out.push(c.clone());
        match c.as_str() {
            "a@1" => w.enqueue_dependencies(&deps(&[("b", "1"), ("c", "1")])),
            "b@1" => w.enqueue_dependencies(&deps(&[("d", "1")])),
            "c@1" => w.enqueue_dependencies(&deps(&[("d", "1"), ("a", "1")])),
            _ => {},
        }
    }
    assert_eq!(out, vec!["a@1", "b@1", "c@1", "d@1"]);
}

#[test]
fn install_walk_reaches_whole_tree() {
    let mut w = DependencyWalk::new("a", "1");
    let mut out = Vec::new();
    while let Some((n, v)) = w.next() {
        out.push(format!("{}@{}", n, v));
        match n.as_str() {
            "a" => w.push_dependencies(&deps(&[("b", "1"), ("c", "1")])),
            "b" => w.push_dependencies(&deps(&[("d", "1")])),
            "c" => w.push_dependencies(&deps(&[("d", "1"), ("a", "1")])),
            _ => {},
        }
    }
    assert_eq!(out, vec!["a@1", "b@1", "d@1", "c@1"]);
}
