//! What a repository's ignore rules leave out.

use vstd::prelude::*;

use crate::text::{lines, lines_of, texts, to_chars, to_text};

verus! {

/// Whether ignore rules, read in their order under a root, leave a path out.
pub uninterp spec fn rules_ignore(
    root: Seq<char>,
    rules: Seq<Seq<char>>,
    rel: Seq<char>,
) -> bool;

/// A path that starts neither at the root of the file system nor with `./`.
pub open spec fn plainly_relative(rel: Seq<char>) -> bool {
    !"/"@.is_prefix_of(rel) && !"./"@.is_prefix_of(rel)
}

/// `ignore::gitignore`: a matcher made of the rules, asked with `matched_path_or_any_parents`
/// about a file. A rule that does not parse is passed over, rules that do not compile to a
/// matcher ignore nothing, and neither does a matcher without rules. The call panics on a
/// path that is absolute once a leading `./` and the root are taken off.
#[verifier::external_body]
fn ignored_by_rules(root: &str, rules: &[String], rel: &str) -> (r: bool)
    requires
        "/"@.is_prefix_of(root@),
        plainly_relative(rel@),
    ensures
        r == rules_ignore(root@, texts(rules@), rel@),
        rules@.len() == 0 ==> !r,
{
    let mut builder = ignore::gitignore::GitignoreBuilder::new(root);
    for rule in rules {
        builder.add_line(None, rule).ok();
    }
    match builder.build() {
        Ok(matcher) => matcher.matched_path_or_any_parents(rel, false).is_ignore(),
        Err(_) => false,
    }
}

/// A line without the byte-order marks it begins with.
pub open spec fn without_marks(line: Seq<char>) -> Seq<char>
    decreases line.len(),
{
    if line.len() > 0 && line[0] == '\u{feff}' {
        without_marks(line.skip(1))
    } else {
        line
    }
}

/// The rules of an ignore file: its lines, the first without a byte-order mark.
pub open spec fn rules_of(content: Option<Seq<char>>) -> Seq<Seq<char>> {
    match content {
        None => Seq::empty(),
        Some(text) => {
            let all = lines_of(text);
            if all.len() == 0 {
                all
            } else {
                all.update(0, without_marks(all[0]))
            }
        },
    }
}

fn drop_marks(line: &str) -> (r: String)
    ensures
        r@ == without_marks(line@),
{
    let all = to_chars(line);
    let mut rest: Vec<char> = Vec::new();
    let mut i: usize = 0;
    proof {
        assert(line@.skip(0) =~= line@);
    }
    while i < all.len() && all[i] == '\u{feff}'
        invariant
            all@ == line@,
            i <= all@.len(),
            without_marks(line@) == without_marks(line@.skip(i as int)),
        decreases all@.len() - i,
    {
        proof {
            assert(line@.skip(i as int)[0] == line@[i as int]);
            assert(line@.skip(i as int).skip(1) =~= line@.skip(i + 1));
        }
        i = i + 1;
    }
    let ghost cut = i as int;
    proof {
        if cut < line@.len() {
            assert(line@.skip(cut)[0] == line@[cut]);
        }
    }
    while i < all.len()
        invariant
            all@ == line@,
            0 <= cut <= i <= all@.len(),
            rest@ == line@.subrange(cut, i as int),
        decreases all@.len() - i,
    {
        rest.push(all[i]);
        proof {
            assert(rest@ =~= line@.subrange(cut, i + 1));
        }
        i = i + 1;
    }
    proof {
        assert(rest@ =~= line@.skip(cut));
    }
    to_text(rest.as_slice())
}

fn read_rules(content: Option<&str>) -> (r: Vec<String>)
    ensures
        texts(r@) == rules_of(
            match content {
                None => None,
                Some(c) => Some(c@),
            },
        ),
{
    match content {
        None => {
            let out: Vec<String> = Vec::new();
            proof {
                assert(texts(out@) =~= Seq::<Seq<char>>::empty());
            }
            out
        },
        Some(text) => {
            let mut out = lines(text);
            if out.len() > 0 {
                let ghost all = texts(out@);
                let first = drop_marks(out[0].as_str());
                proof {
                    assert(all[0] == out@[0]@);
                }
                out.set(0, first);
                proof {
                    assert(texts(out@) =~= all.update(0, without_marks(all[0])));
                }
            }
            out
        },
    }
}

/// Tells whether git leaves a file of a repository out: `gitignore` is what the ignore file at
/// its root says, `exclude` what its own exclude file adds.
pub fn git_ignored(
    root: &str,
    gitignore: Option<&str>,
    exclude: Option<&str>,
    rel: &str,
) -> (r: bool)
    requires
        "/"@.is_prefix_of(root@),
        plainly_relative(rel@),
    ensures
        ({
            let shared = rules_of(
                match gitignore {
                    None => None,
                    Some(c) => Some(c@),
                },
            );
            let own = rules_of(
                match exclude {
                    None => None,
                    Some(c) => Some(c@),
                },
            );
            &&& r == rules_ignore(root@, shared + own, rel@)
            &&& shared.len() + own.len() == 0 ==> !r
        }),
{
    let mut rules = read_rules(gitignore);
    let mut own = read_rules(exclude);
    let ghost first = texts(rules@);
    let ghost second = texts(own@);
    rules.append(&mut own);
    proof {
        assert(texts(rules@) =~= first + second);
    }
    ignored_by_rules(root, rules.as_slice(), rel)
}

} // verus!
