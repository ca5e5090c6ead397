//! Names of modules: the `name@version` form used by registries, lock
//! files and the command line.

use vstd::prelude::*;
use crate::text::{joined, join_with, split_chars, split_on, views, lemma_split_joined};

verus! {

/// `name@version`.
pub open spec fn full_name_spec(name: Seq<char>, version: Seq<char>) -> Seq<char> {
    joined(name, '@', version)
}

/// What `ModuleTools::parse_module_name` gives: the text before the first `@`
/// and the text between the first and the second `@` (empty when there is
/// no `@`).
pub open spec fn parse_module_name_spec(s: Seq<char>) -> (Seq<char>, Seq<char>) {
    let p = split_on(s, '@');
    (p[0], if p.len() > 1 {
        p[1]
    } else {
        Seq::<char>::empty()
    })
}

/// A module request on the command line with more than one `@`.
#[derive(Debug, Clone, Copy, PartialEq, Eq, Structural)]
pub enum AddRequestError {
    BadSyntax,
}

/// What `parse_add_request` gives: `name` or `name@version`; more than one
/// `@` is an error.
pub open spec fn add_request_spec(s: Seq<char>) -> Result<(Seq<char>, Option<Seq<char>>), AddRequestError> {
    let p = split_on(s, '@');
    if p.len() > 2 {
        Err(AddRequestError::BadSyntax)
    } else if p.len() == 2 {
        Ok((p[0], Some(p[1])))
    } else {
        Ok((p[0], None))
    }
}

/// `name@version`.
pub fn full_name(name: &str, version: &str) -> (r: String)
    ensures
        r@ == full_name_spec(name@, version@),
{
    join_with(name, '@', version)
}

/// The name of the metadata file kept in a cached module:
/// `.name@version_meta.json`.
pub open spec fn meta_file_name_spec(name: Seq<char>, version: Seq<char>) -> Seq<char> {
    seq!['.'] + full_name_spec(name, version) + seq!['_'] + "meta.json"@
}

/// The name of the metadata file kept in a cached module.
pub fn meta_file_name(name: &str, version: &str) -> (r: String)
    ensures
        r@ == meta_file_name_spec(name@, version@),
{
    let mut r = String::new();
    crate::text::push_char(&mut r, '.');
    let f = full_name(name, version);
    r.append(f.as_str());
    crate::text::push_char(&mut r, '_');
    r.append("meta.json");
    assert(r@ =~= meta_file_name_spec(name@, version@));
    r
}

/// Module names: reading `name@version`, resolving a version, checksums.
pub struct ModuleTools {}

impl ModuleTools {
    /// Splits `package_name` at `@` into the name and the version (empty when
    /// no version is given); what follows a second `@` is dropped.
    pub fn parse_module_name(package_name: &str) -> (r: (String, String))
        ensures
            (r.0@, r.1@) == parse_module_name_spec(package_name@),
    {
        let pieces = split_chars(package_name, '@');
        proof {
            crate::text::lemma_split_nonempty(package_name@, '@');
        }
        assert(pieces@[0]@ == views(pieces@)[0]);
        let name = pieces[0].clone();
        let version = if pieces.len() > 1 {
            assert(pieces@[1]@ == views(pieces@)[1]);
            pieces[1].clone()
        } else {
            String::new()
        };
        (name, version)
    }
}

/// A module request as a name and, when one is given, a version: the
/// parts of `parse_module_name`, an empty version standing for none.
pub fn parse_module_request(module: &str) -> (r: (String, Option<String>))
    ensures
        r.0@ == parse_module_name_spec(module@).0,
        match r.1 {
            Some(v) => v@ == parse_module_name_spec(module@).1 && v@.len() > 0,
            None => parse_module_name_spec(module@).1.len() == 0,
        },
{
    let (name, version) = ModuleTools::parse_module_name(module);
    if version.as_str().is_empty() {
        (name, None)
    } else {
        (name, Some(version))
    }
}

/// Reads a module request of the command line: `name` or `name@version`.
pub fn parse_add_request(module: &str) -> (r: Result<(String, Option<String>), AddRequestError>)
    ensures
        match (r, add_request_spec(module@)) {
            (Ok((n, v)), Ok((sn, sv))) => n@ == sn && match (v, sv) {
                (Some(a), Some(b)) => a@ == b,
                (None, None) => true,
                _ => false,
            },
            (Err(e), Err(se)) => e == se,
            _ => false,
        },
{
    let pieces = split_chars(module, '@');
    proof {
        crate::text::lemma_split_nonempty(module@, '@');
    }
    if pieces.len() > 2 {
        return Err(AddRequestError::BadSyntax);
    }
    assert(pieces@[0]@ == views(pieces@)[0]);
    let name = pieces[0].clone();
    if pieces.len() == 2 {
        assert(pieces@[1]@ == views(pieces@)[1]);
        Ok((name, Some(pieces[1].clone())))
    } else {
        Ok((name, None))
    }
}

/// Reading back a full name gives the name and the version it was made of,
/// when neither holds an `@`.
pub proof fn law_parse_full_name(name: Seq<char>, version: Seq<char>)
    requires
        !name.contains('@'),
        !version.contains('@'),
    ensures
        parse_module_name_spec(full_name_spec(name, version)) == (name, version),
{
    lemma_split_joined(name, '@', version);
}

/// A request `name@version` is read back as that name and that version,
/// when neither holds an `@`.
pub proof fn law_add_request_full_name(name: Seq<char>, version: Seq<char>)
    requires
        !name.contains('@'),
        !version.contains('@'),
    ensures
        add_request_spec(full_name_spec(name, version)) == Ok::<
            (Seq<char>, Option<Seq<char>>),
            AddRequestError,
        >((name, Some(version))),
{
    lemma_split_joined(name, '@', version);
}

} // verus!
