//! What a project's `.gitignore` must hold: the `cs_modules` folder and the
//! `.config.toml` file are never to be committed.

use vstd::prelude::*;
use crate::text::{
    split_chars, split_on, trim, trim_text, views, lemma_split_append, lemma_split_no_sep,
    lemma_split_nonempty, lemma_split_concat, push_char,
};

verus! {

/// Some line of `text` reads `target` once surrounding whitespace is
/// trimmed. (A line of `str::lines` is a `\n`-separated piece without its
/// trailing `\r`, which trimming removes anyway; lines starting with `#` are
/// comments, and no target here starts with `#`.)
pub open spec fn has_line(text: Seq<char>, target: Seq<char>) -> bool {
    exists|i: int|
        0 <= i < split_on(text, '\n').len() && trim(#[trigger] split_on(text, '\n')[i]) == target
}

/// Which entries the `.gitignore` holds.
#[derive(Debug, Clone, Copy, PartialEq, Eq, Structural)]
pub struct GitignoreStatus {
    /// `cs_modules` or `/cs_modules` is listed.
    pub has_modules: bool,
    /// `.config.toml` is listed.
    pub has_config: bool,
}

/// What is wrong with a project's `.gitignore`.
#[derive(Debug, Clone, Copy, PartialEq, Eq, Structural)]
pub struct GitignoreError {
    /// There is no `.gitignore`.
    pub missing_file: bool,
    /// The `cs_modules` folder exists and is not listed.
    pub modules_not_ignored: bool,
    /// The `.config.toml` file exists and is not listed.
    pub config_not_ignored: bool,
}

/// The status that a `.gitignore` text has.
pub open spec fn status_spec(text: Seq<char>) -> GitignoreStatus {
    GitignoreStatus {
        has_modules: has_line(text, "cs_modules"@) || has_line(text, "/cs_modules"@),
        has_config: has_line(text, ".config.toml"@),
    }
}

/// Whether some line of `text` reads `target` once trimmed.
pub fn text_has_line(text: &str, target: &str) -> (r: bool)
    ensures
        r == has_line(text@, target@),
{
    let lines = split_chars(text, '\n');
    let t = target.to_owned();
    let mut i: usize = 0;
    while i < lines.len()
        invariant
            views(lines@) == split_on(text@, '\n'),
            t@ == target@,
            i <= lines@.len(),
            forall|j: int| 0 <= j < i ==> trim(#[trigger] split_on(text@, '\n')[j]) != target@,
        decreases lines.len() - i,
    {
        let trimmed = trim_text(lines[i].as_str());
        assert(split_on(text@, '\n')[i as int] == lines@[i as int]@);
        if trimmed == t {
            return true;
        }
        i = i + 1;
    }
    false
}

/// Which of the required entries the `.gitignore` text lists.
pub fn gitignore_status(text: &str) -> (r: GitignoreStatus)
    ensures
        r == status_spec(text@),
{
    let a = text_has_line(text, "cs_modules");
    let b = text_has_line(text, "/cs_modules");
    let c = text_has_line(text, ".config.toml");
    GitignoreStatus { has_modules: a || b, has_config: c }
}

/// Checks a project's `.gitignore` (`None` when there is none) against the
/// folders and files that exist in the project.
pub fn check_gitignore(gitignore: Option<&str>, modules_exists: bool, config_exists: bool) -> (r:
    Result<(), GitignoreError>)
    ensures
        match gitignore {
            None => r == Err::<(), GitignoreError>(
                GitignoreError {
                    missing_file: true,
                    modules_not_ignored: false,
                    config_not_ignored: false,
                },
            ),
            Some(text) => {
                let s = status_spec(text@);
                let e = GitignoreError {
                    missing_file: false,
                    modules_not_ignored: !s.has_modules && modules_exists,
                    config_not_ignored: !s.has_config && config_exists,
                };
                if e.modules_not_ignored || e.config_not_ignored {
                    r == Err::<(), GitignoreError>(e)
                } else {
                    r is Ok
                }
            },
        },
{
    match gitignore {
        None => Err(
            GitignoreError { missing_file: true, modules_not_ignored: false, config_not_ignored: false },
        ),
        Some(text) => {
            let s = gitignore_status(text);
            let e = GitignoreError {
                missing_file: false,
                modules_not_ignored: !s.has_modules && modules_exists,
                config_not_ignored: !s.has_config && config_exists,
            };
            if e.modules_not_ignored || e.config_not_ignored {
                Err(e)
            } else {
                Ok(())
            }
        },
    }
}

/// The lines to append to an existing `.gitignore` so that it lists what
/// exists in the project: `cs_modules`, then `.config.toml`, each when missing.
pub fn gitignore_additions(status: GitignoreStatus, modules_exists: bool, config_exists: bool) -> (r:
    Vec<String>)
    ensures
        views(r@) == (if !status.has_modules && modules_exists {
            seq!["cs_modules"@]
        } else {
            Seq::<Seq<char>>::empty()
        }) + (if !status.has_config && config_exists {
            seq![".config.toml"@]
        } else {
            Seq::<Seq<char>>::empty()
        }),
{
    let mut r: Vec<String> = Vec::new();
    if !status.has_modules && modules_exists {
        r.push(String::from_str("cs_modules"));
    }
    if !status.has_config && config_exists {
        r.push(String::from_str(".config.toml"));
    }
    assert(views(r@) =~= (if !status.has_modules && modules_exists {
        seq!["cs_modules"@]
    } else {
        Seq::<Seq<char>>::empty()
    }) + (if !status.has_config && config_exists {
        seq![".config.toml"@]
    } else {
        Seq::<Seq<char>>::empty()
    }));
    r
}

/// The text is empty or its last line is closed by a newline.
pub open spec fn ends_line(t: Seq<char>) -> bool {
    t.len() == 0 || t.last() == '\n'
}

/// Each line followed by a newline, in order.
pub open spec fn appended_lines(lines: Seq<Seq<char>>) -> Seq<char>
    decreases lines.len(),
{
    if lines.len() == 0 {
        Seq::empty()
    } else {
        appended_lines(lines.drop_last()) + lines.last() + seq!['\n']
    }
}

/// What `gitignore_with_additions` writes: nothing new without additions;
/// else a newline when the last line is not closed, then each addition on a
/// line of its own.
pub open spec fn with_additions_spec(text: Seq<char>, lines: Seq<Seq<char>>) -> Seq<char> {
    if lines.len() == 0 {
        text
    } else {
        (if ends_line(text) {
            text
        } else {
            text.push('\n')
        }) + appended_lines(lines)
    }
}

/// A trimmed line without a newline.
pub open spec fn plain_line(l: Seq<char>) -> bool {
    !l.contains('\n') && trim(l) == l
}

/// Closing the last line keeps every line listed.
proof fn lemma_newline_keeps_lines(t: Seq<char>, l: Seq<char>)
    requires
        has_line(t, l),
    ensures
        has_line(t.push('\n'), l),
{
    lemma_split_append(t, '\n', Seq::<char>::empty());
    assert(t + seq!['\n'] + Seq::<char>::empty() =~= t.push('\n'));
    let i = choose|i: int|
        0 <= i < split_on(t, '\n').len() && trim(#[trigger] split_on(t, '\n')[i]) == l;
    assert(split_on(t.push('\n'), '\n')[i] == split_on(t, '\n')[i]);
}

/// Appending a line and its newline to a text whose last line is closed
/// keeps every line listed.
proof fn lemma_append_keeps_lines(t: Seq<char>, line: Seq<char>, l: Seq<char>)
    requires
        ends_line(t),
        has_line(t, l),
    ensures
        has_line(t + line + seq!['\n'], l),
{
    let x = t + line + seq!['\n'];
    let y = line + seq!['\n'];
    let py = split_on(y, '\n');
    assert(y.drop_last() =~= line);
    lemma_split_nonempty(line, '\n');
    assert(py.last() == Seq::<char>::empty());
    let i = choose|i: int|
        0 <= i < split_on(t, '\n').len() && trim(#[trigger] split_on(t, '\n')[i]) == l;
    if t.len() == 0 {
        assert(x =~= y);
        assert(trim(Seq::<char>::empty()) == l);
        assert(trim(split_on(x, '\n')[py.len() - 1]) == l);
    } else {
        let t0 = t.drop_last();
        lemma_split_concat(t, '\n', line + seq!['\n']);
        assert(t + y =~= x);
        lemma_split_nonempty(t0, '\n');
        let p0 = split_on(t0, '\n');
        assert(split_on(t, '\n') == p0.push(Seq::<char>::empty()));
        if i < p0.len() {
            assert(split_on(x, '\n')[i] == p0[i]);
        } else {
            assert(split_on(t, '\n')[i] == Seq::<char>::empty());
            let k = p0.len() + py.len() - 1;
            assert(split_on(x, '\n')[k] == py.last());
        }
    }
}

/// The `.gitignore` text once `additions` are appended, each on a line of
/// its own; when the last line of `text` has no newline, one is written
/// first so that the first addition does not join it. Every line listed
/// before stays listed, and every addition that is a trimmed line without a
/// newline is listed afterwards.
pub fn gitignore_with_additions(text: &str, additions: &Vec<String>) -> (r: String)
    ensures
        r@ == with_additions_spec(text@, views(additions@)),
        forall|l: Seq<char>| has_line(text@, l) ==> #[trigger] has_line(r@, l),
        forall|i: int|
            0 <= i < additions@.len() && plain_line(#[trigger] additions@[i]@) ==> has_line(
                r@,
                additions@[i]@,
            ),
{
    let mut r = text.to_owned();
    if additions.len() == 0 {
        return r;
    }
    let ghost lines = views(additions@);
    if !r.as_str().is_empty() {
        let n = r.as_str().unicode_len();
        let last = r.as_str().get_char(n - 1);
        if last != '\n' {
            push_char(&mut r, '\n');
            proof {
                assert forall|l: Seq<char>| has_line(text@, l) implies #[trigger] has_line(r@, l) by {
                    lemma_newline_keeps_lines(text@, l);
                }
            }
        }
    }
    let ghost base = r@;
    assert(base == if ends_line(text@) {
        text@
    } else {
        text@.push('\n')
    });
    let mut i: usize = 0;
    while i < additions.len()
        invariant
            lines == views(additions@),
            base == if ends_line(text@) {
                text@
            } else {
                text@.push('\n')
            },
            ends_line(base),
            0 <= i <= additions@.len(),
            r@ == base + appended_lines(lines.take(i as int)),
            ends_line(r@),
            forall|l: Seq<char>| has_line(text@, l) ==> #[trigger] has_line(r@, l),
            forall|j: int|
                0 <= j < i && plain_line(#[trigger] additions@[j]@) ==> has_line(r@, additions@[j]@),
        decreases additions.len() - i,
    {
        let ghost prev = r@;
        let ghost line = additions@[i as int]@;
        r.append(additions[i].as_str());
        push_char(&mut r, '\n');
        assert(r@ =~= prev + line + seq!['\n']);
        proof {
            assert forall|l: Seq<char>| has_line(text@, l) implies #[trigger] has_line(r@, l) by {
                lemma_append_keeps_lines(prev, line, l);
            }
            assert forall|j: int|
                0 <= j < i + 1 && plain_line(#[trigger] additions@[j]@) implies has_line(
                r@,
                additions@[j]@,
            ) by {
                if j < i {
                    lemma_append_keeps_lines(prev, line, additions@[j]@);
                } else {
                    law_appended_line_listed(prev, line);
                }
            }
            assert(lines.take(i + 1).drop_last() =~= lines.take(i as int));
            assert(lines.take(i + 1).last() == line);
        }
        i = i + 1;
    }
    assert(lines.take(i as int) =~= lines);
    r
}

/// Appending a line (and its newline) to a `.gitignore` that is empty or
/// ends with a newline makes it list that line. On a text that does not end
/// with a newline the appended line joins the last one, and this fails.
pub proof fn law_appended_line_listed(text: Seq<char>, line: Seq<char>)
    requires
        text.len() == 0 || text.last() == '\n',
        !line.contains('\n'),
        trim(line) == line,
    ensures
        has_line(text + line + seq!['\n'], line),
{
    let x = text + line + seq!['\n'];
    lemma_split_append(text + line, '\n', Seq::<char>::empty());
    assert(text + line + seq!['\n'] + Seq::<char>::empty() =~= x);
    if text.len() == 0 {
        lemma_split_no_sep(line, '\n');
        assert(text + line =~= line);
        assert(split_on(x, '\n')[0] == line);
    } else {
        let t = text.drop_last();
        assert(text + line =~= t + seq!['\n'] + line);
        lemma_split_append(t, '\n', line);
        lemma_split_nonempty(t, '\n');
        let k = split_on(t, '\n').len() as int;
        assert(split_on(x, '\n')[k] == line);
    }
}

} // verus!
