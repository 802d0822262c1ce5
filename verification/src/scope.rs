//! Scope rules: which files of a repository a filter names.

use vstd::prelude::*;

use crate::paths::{file_name, file_name_spec};
use crate::text::{
    contains, contains_text, ends_with, same_text, starts_with, texts, to_chars, to_text,
    trim_chars, trim_class, trim_end_chars, trim_end_class,
};

verus! {

/// Whether a glob pattern is well formed.
pub uninterp spec fn glob_valid(pattern: Seq<char>) -> bool;

/// `glob::Pattern::new`: whether the pattern compiles.
#[verifier::external_body]
pub(crate) fn glob_compiles(pattern: &str) -> (r: bool)
    ensures
        r == glob_valid(pattern@),
{
    glob::Pattern::new(pattern).is_ok()
}

/// Whether a glob pattern matches a text.
pub uninterp spec fn glob_matches(pattern: Seq<char>, text: Seq<char>) -> bool;

/// `glob::Pattern::matches` with the default options; a malformed pattern matches nothing.
#[verifier::external_body]
pub(crate) fn glob_match(pattern: &str, text: &str) -> (r: bool)
    ensures
        r == glob_matches(pattern@, text@),
        !glob_valid(pattern@) ==> !r,
{
    match glob::Pattern::new(pattern) {
        Ok(compiled) => compiled.matches(text),
        Err(_) => false,
    }
}

/// A rule of a scope: a path with all that lies below it, or a glob pattern.
#[derive(Debug)]
pub enum ScopeRule {
    Prefix(String),
    Glob(String),
}

/// A scope rule by its text.
pub enum RuleText {
    Prefix(Seq<char>),
    Glob(Seq<char>),
}

pub open spec fn rule_text(rule: ScopeRule) -> RuleText {
    match rule {
        ScopeRule::Prefix(p) => RuleText::Prefix(p@),
        ScopeRule::Glob(p) => RuleText::Glob(p@),
    }
}

pub open spec fn rule_texts(rules: Seq<ScopeRule>) -> Seq<RuleText> {
    rules.map_values(|r: ScopeRule| rule_text(r))
}

/// `path` is `prefix` or lies below it, by their texts.
pub open spec fn is_below(path: Seq<char>, prefix: Seq<char>) -> bool {
    path == prefix || (prefix + "/"@).is_prefix_of(path)
}

/// A rule names a file if it names its repo-relative or its absolute path.
pub open spec fn rule_names(rule: RuleText, rel: Seq<char>, abs: Seq<char>) -> bool {
    match rule {
        RuleText::Prefix(prefix) => is_below(rel, prefix) || is_below(abs, prefix),
        RuleText::Glob(pattern) => glob_matches(pattern, rel) || glob_matches(pattern, abs),
    }
}

/// Some rule names the file.
pub open spec fn scope_names(rules: Seq<RuleText>, rel: Seq<char>, abs: Seq<char>) -> bool {
    exists|i: int| 0 <= i < rules.len() && rule_names(#[trigger] rules[i], rel, abs)
}

fn below(path: &str, prefix: &str) -> (r: bool)
    ensures
        r == is_below(path@, prefix@),
{
    let mut dir = prefix.to_owned();
    dir.append("/");
    same_text(path, prefix) || starts_with(path, dir.as_str())
}

/// Whether a file is under any of the rules. No rules name no file: callers treat an
/// empty scope as "no scoping".
pub fn scope_matches(rules: &[ScopeRule], rel: &str, abs: &str) -> (r: bool)
    ensures
        r == scope_names(rule_texts(rules@), rel@, abs@),
{
    let ghost all = rule_texts(rules@);
    let mut i: usize = 0;
    while i < rules.len()
        invariant
            i <= rules@.len(),
            all == rule_texts(rules@),
            forall|j: int| 0 <= j < i ==> !rule_names(#[trigger] all[j], rel@, abs@),
        decreases rules@.len() - i,
    {
        let hit = match &rules[i] {
            ScopeRule::Prefix(prefix) => below(rel, prefix.as_str()) || below(
                abs,
                prefix.as_str(),
            ),
            ScopeRule::Glob(pattern) => glob_match(pattern.as_str(), rel) || glob_match(
                pattern.as_str(),
                abs,
            ),
        };
        proof {
            assert(all[i as int] == rule_text(rules@[i as int]));
        }
        if hit {
            return true;
        }
        i = i + 1;
    }
    false
}

/// The entry without surrounding white space and trailing slashes.
pub open spec fn scope_entry(entry: Seq<char>) -> Seq<char> {
    trim_end_class(trim_class(entry, Seq::empty(), true), seq!['/'], false)
}

pub open spec fn has_glob_char(s: Seq<char>) -> bool {
    exists|i: int| 0 <= i < s.len() && (#[trigger] s[i] == '*' || s[i] == '?' || s[i] == '[')
}

/// The rule of an entry: nothing for a blank one, a glob where it holds a glob character
/// and is well formed, and a path otherwise.
pub open spec fn entry_rule(entry: Seq<char>) -> Option<RuleText> {
    let text = scope_entry(entry);
    if text.len() == 0 {
        None
    } else if has_glob_char(text) && glob_valid(text) {
        Some(RuleText::Glob(text))
    } else {
        Some(RuleText::Prefix(text))
    }
}

/// The rules of the entries, in order.
pub open spec fn scope_rules(entries: Seq<Seq<char>>) -> Seq<RuleText>
    decreases entries.len(),
{
    if entries.len() == 0 {
        Seq::empty()
    } else {
        let front = scope_rules(entries.drop_last());
        match entry_rule(entries.last()) {
            Some(rule) => front.push(rule),
            None => front,
        }
    }
}

fn holds_glob_char(s: &[char]) -> (r: bool)
    ensures
        r == has_glob_char(s@),
{
    let mut i: usize = 0;
    while i < s.len()
        invariant
            i <= s@.len(),
            forall|j: int|
                0 <= j < i ==> #[trigger] s@[j] != '*' && s@[j] != '?' && s@[j] != '[',
        decreases s@.len() - i,
    {
        if s[i] == '*' || s[i] == '?' || s[i] == '[' {
            return true;
        }
        i = i + 1;
    }
    false
}

/// The rule of one trimmed, non-empty entry, given whether it is a well-formed glob.
pub fn rule_of(text: String, valid: bool) -> (r: ScopeRule)
    ensures
        rule_text(r) == (if has_glob_char(text@) && valid {
            RuleText::Glob(text@)
        } else {
            RuleText::Prefix(text@)
        }),
{
    let chars = to_chars(text.as_str());
    if holds_glob_char(chars.as_slice()) && valid {
        ScopeRule::Glob(text)
    } else {
        ScopeRule::Prefix(text)
    }
}

/// Compiles scope entries, paths or globs, into rules. A malformed glob counts as a
/// literal path.
pub fn compile_scope(entries: &[String]) -> (r: Vec<ScopeRule>)
    ensures
        rule_texts(r@) == scope_rules(texts(entries@)),
{
    let ghost all = texts(entries@);
    let mut out: Vec<ScopeRule> = Vec::new();
    let mut slash: Vec<char> = Vec::new();
    slash.push('/');
    let none: Vec<char> = Vec::new();
    let mut i: usize = 0;
    proof {
        assert(slash@ =~= seq!['/']);
        assert(all.take(0) =~= Seq::<Seq<char>>::empty());
        assert(rule_texts(out@) =~= Seq::<RuleText>::empty());
    }
    while i < entries.len()
        invariant
            i <= entries@.len(),
            all == texts(entries@),
            slash@ == seq!['/'],
            none@ == Seq::<char>::empty(),
            rule_texts(out@) == scope_rules(all.take(i as int)),
        decreases entries@.len() - i,
    {
        proof {
            assert(all.take(i + 1).drop_last() =~= all.take(i as int));
            assert(all.take(i + 1).last() == entries@[i as int]@);
        }
        let chars = to_chars(entries[i].as_str());
        let trimmed = trim_chars(chars.as_slice(), none.as_slice(), true);
        let entry = trim_end_chars(trimmed.as_slice(), slash.as_slice(), false);
        if entry.len() > 0 {
            let text = to_text(entry.as_slice());
            let valid = glob_compiles(text.as_str());
            let rule = rule_of(text, valid);
            proof {
                assert(rule_texts(out@.push(rule)) =~= rule_texts(out@).push(rule_text(rule)));
            }
            out.push(rule);
        }
        i = i + 1;
    }
    proof {
        assert(all.take(all.len() as int) =~= all);
    }
    out
}

/// The well-formed patterns of a list, in order.
pub open spec fn valid_patterns(patterns: Seq<Seq<char>>) -> Seq<Seq<char>> {
    patterns.filter(|p: Seq<char>| glob_valid(p))
}

/// Keeps the well-formed include patterns.
pub fn compile_include_patterns(patterns: &[String]) -> (r: Vec<String>)
    ensures
        texts(r@) == valid_patterns(texts(patterns@)),
{
    let ghost keep = |p: Seq<char>| glob_valid(p);
    let ghost all = texts(patterns@);
    let mut out: Vec<String> = Vec::new();
    let mut i: usize = 0;
    proof {
        reveal(Seq::filter);
        assert(all.take(0) =~= Seq::<Seq<char>>::empty());
        assert(texts(out@) =~= all.take(0).filter(keep));
    }
    while i < patterns.len()
        invariant
            i <= patterns@.len(),
            all == texts(patterns@),
            keep == (|p: Seq<char>| glob_valid(p)),
            texts(out@) == all.take(i as int).filter(keep),
        decreases patterns@.len() - i,
    {
        proof {
            reveal(Seq::filter);
            assert(all.take(i + 1).drop_last() =~= all.take(i as int));
            assert(all.take(i + 1).last() == patterns@[i as int]@);
        }
        if glob_compiles(patterns[i].as_str()) {
            let kept = patterns[i].clone();
            proof {
                assert(texts(out@.push(kept)) =~= texts(out@).push(kept@));
            }
            out.push(kept);
        }
        i = i + 1;
    }
    proof {
        assert(all.take(all.len() as int) =~= all);
    }
    out
}

/// Some pattern matches the path.
pub open spec fn some_pattern_matches(patterns: Seq<Seq<char>>, path: Seq<char>) -> bool {
    exists|i: int| 0 <= i < patterns.len() && glob_matches(#[trigger] patterns[i], path)
}

pub fn any_pattern_matches(patterns: &[String], path: &str) -> (r: bool)
    ensures
        r == some_pattern_matches(texts(patterns@), path@),
{
    let ghost all = texts(patterns@);
    let mut i: usize = 0;
    while i < patterns.len()
        invariant
            i <= patterns@.len(),
            all == texts(patterns@),
            forall|j: int| 0 <= j < i ==> !glob_matches(#[trigger] all[j], path@),
        decreases patterns@.len() - i,
    {
        proof {
            assert(all[i as int] == patterns@[i as int]@);
        }
        if glob_match(patterns[i].as_str(), path) {
            return true;
        }
        i = i + 1;
    }
    false
}

/// A leftover of a merge: `foo_BACKUP_1.c`, `foo.orig`, `foo.rej` and the like.
pub open spec fn is_merge_leftover(path: Seq<char>) -> bool {
    match file_name_spec(path) {
        None => false,
        Some(name) => {
            ||| ".orig"@.is_suffix_of(name)
            ||| ".rej"@.is_suffix_of(name)
            ||| contains_text(name, "_BACKUP_"@)
            ||| contains_text(name, "_BASE_"@)
            ||| contains_text(name, "_LOCAL_"@)
            ||| contains_text(name, "_REMOTE_"@)
        },
    }
}

/// Whether a file is a leftover that a merge tool wrote next to the real source.
pub fn is_merge_conflict_artifact(path: &str) -> (r: bool)
    ensures
        r == is_merge_leftover(path@),
{
    match file_name(path) {
        None => false,
        Some(name) => {
            let n = name.as_str();
            ends_with(n, ".orig") || ends_with(n, ".rej") || contains(n, "_BACKUP_") || contains(
                n,
                "_BASE_",
            ) || contains(n, "_LOCAL_") || contains(n, "_REMOTE_")
        },
    }
}

/// An empty scope names no file.
pub proof fn law_empty_scope_names_nothing(rel: Seq<char>, abs: Seq<char>)
    ensures
        !scope_names(Seq::empty(), rel, abs),
{
}

/// A path rule names the path itself and what lies below it, and never a neighbour whose
/// name merely begins with the same text.
pub proof fn law_path_rule_ends_at_a_component(path: Seq<char>, rest: Seq<char>)
    requires
        rest.len() > 0,
        rest[0] != '/',
    ensures
        is_below(path, path),
        is_below(path + "/"@ + rest, path),
        !is_below(path + rest, path),
{
    reveal_strlit("/");
    let slashed = path + "/"@;
    assert((slashed + rest).subrange(0, slashed.len() as int) =~= slashed);
    assert((path + rest).len() > path.len());
    if slashed.is_prefix_of(path + rest) {
        assert((path + rest).subrange(0, slashed.len() as int)[path.len() as int] == rest[0]);
        assert(slashed[path.len() as int] == '/');
    }
}

/// Adding rules never takes a file out of scope.
pub proof fn law_more_rules_name_more(
    rules: Seq<RuleText>,
    more: Seq<RuleText>,
    rel: Seq<char>,
    abs: Seq<char>,
)
    requires
        scope_names(rules, rel, abs),
    ensures
        scope_names(rules + more, rel, abs),
{
    let i = choose|i: int| 0 <= i < rules.len() && rule_names(#[trigger] rules[i], rel, abs);
    assert((rules + more)[i] == rules[i]);
}

} // verus!
