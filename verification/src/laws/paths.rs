//! Paths, scopes and what lies below what.

use vstd::prelude::*;

use crate::laws::texts::{law_a_held_text_can_be_cut_out, law_a_split_is_at_each_separator};
use crate::paths::{
    components_of, extension_spec, file_name_spec, file_stem_spec, is_absolute_spec, is_plain_path,
    is_under, join_path_spec, keeps_piece, kept_pieces, path_text, relative_spec, strip_base,
    validate_path_spec, validate_pathspec_spec,
};
use crate::scope::{
    entry_rule, glob_matches, glob_valid, is_merge_leftover, scope_entry, scope_names, scope_rules,
    RuleText,
};
use crate::text::{find_from, lemma_find_from, lemma_rfind_from, occurs_at, rfind_text, split_on};

verus! {

/// A path lies below another exactly where its components go on from the other's, and what is
/// left is its relative path.
pub proof fn law_a_path_goes_on_from_its_base(
    path: Seq<char>,
    base: Seq<char>,
    rest: Seq<Seq<char>>,
)
    requires
        components_of(path) == components_of(base) + rest,
    ensures
        is_under(path, base),
        strip_base(path, base) == Some(path_text(rest)),
        relative_spec(path, base) == path_text(rest),
{
    let b = components_of(base);
    assert(components_of(path).subrange(0, b.len() as int) =~= b);
    assert(components_of(path).skip(b.len() as int) =~= rest);
}

/// A path that lies elsewhere has no relative path and stands as it is.
pub proof fn law_a_path_elsewhere_stays(path: Seq<char>, base: Seq<char>, i: int)
    requires
        0 <= i < components_of(base).len(),
        i >= components_of(path).len() || components_of(path)[i] != components_of(base)[i],
    ensures
        !is_under(path, base),
        strip_base(path, base) is None,
        relative_spec(path, base) == path,
{
    if is_under(path, base) {
        let b = components_of(base);
        let p = components_of(path);
        assert(p.subrange(0, b.len() as int)[i] == b[i]);
    }
}

proof fn lemma_split_concat(a: Seq<char>, b: Seq<char>, sep: char)
    ensures
        split_on(a + seq![sep] + b, sep) == split_on(a, sep) + split_on(b, sep),
        split_on(a, sep).len() > 0,
    decreases a.len(),
{
    let mark = seq![sep];
    lemma_find_from(a, mark, 0);
    match find_from(a, mark, 0) {
        None => {
            assert(!a.contains(sep)) by {
                if a.contains(sep) {
                    let k = choose|k: int| 0 <= k < a.len() && a[k] == sep;
                    assert(a.subrange(k, k + 1) =~= mark);
                    assert(occurs_at(a, mark, k));
                }
            }
            law_a_split_is_at_each_separator(a, b, sep);
        },
        Some(i) => {
            let first = a.take(i);
            let rest = a.skip(i + 1);
            assert(!first.contains(sep)) by {
                if first.contains(sep) {
                    let k = choose|k: int| 0 <= k < first.len() && first[k] == sep;
                    assert(a.subrange(k, k + 1) =~= mark);
                    assert(occurs_at(a, mark, k));
                }
            }
            assert(a.subrange(i, i + 1)[0] == sep);
            assert(a =~= first + mark + rest);
            lemma_split_concat(rest, b, sep);
            law_a_split_is_at_each_separator(first, rest, sep);
            law_a_split_is_at_each_separator(first, rest + mark + b, sep);
            assert(a + mark + b =~= first + mark + (rest + mark + b));
            assert(seq![first] + (split_on(rest, sep) + split_on(b, sep)) =~= (seq![first]
                + split_on(rest, sep)) + split_on(b, sep));
        },
    }
}

proof fn lemma_kept_concat(a: Seq<Seq<char>>, b: Seq<Seq<char>>)
    requires
        a.len() > 0,
        b.len() > 0 ==> b[0] != "."@,
    ensures
        kept_pieces(a + b) == kept_pieces(a) + kept_pieces(b),
    decreases b.len(),
{
    if b.len() == 0 {
        assert(a + b =~= a);
        assert(kept_pieces(a) + kept_pieces(b) =~= kept_pieces(a));
    } else {
        let front = b.drop_last();
        lemma_kept_concat(a, front);
        assert((a + b).drop_last() =~= a + front);
        assert((a + b).last() == b.last());
        assert(keeps_piece(b.len() - 1, b.last()) == keeps_piece((a + b).len() - 1, b.last()));
        let x = b.last();
        assert((kept_pieces(a) + kept_pieces(front)).push(x) =~= kept_pieces(a) + kept_pieces(
            front,
        ).push(x));
    }
}

/// What is joined below a root has the root's components and then its own.
pub proof fn law_a_joined_path_goes_on_from_its_root(root: Seq<char>, rel: Seq<char>)
    requires
        root.len() > 0,
        rel.len() > 0,
        rel[0] != '/',
        rel[0] != '.',
    ensures
        components_of(root + "/"@ + rel) == components_of(root) + components_of(rel),
        is_under(root + "/"@ + rel, root),
        is_plain_path(rel) ==> strip_base(root + "/"@ + rel, root) == Some(rel),
        root.last() != '/' ==> join_path_spec(root, rel) == root + "/"@ + rel,
{
    reveal_strlit("/");
    reveal_strlit(".");
    let whole = root + "/"@ + rel;
    let mark = seq!['/'];
    assert("/"@ =~= mark);
    lemma_split_concat(root, rel, '/');
    lemma_split_concat(rel, rel, '/');
    let a = split_on(root, '/');
    let b = split_on(rel, '/');
    lemma_first_piece(rel, '/');
    assert(b[0] != "."@) by {
        if b[0] == "."@ {
            assert(b[0][0] == '.');
        }
    }
    lemma_kept_concat(a, b);
    assert(whole[0] == root[0]);
    let top = seq!["/"@];
    if is_absolute_spec(root) {
        assert(top + (kept_pieces(a) + kept_pieces(b)) =~= (top + kept_pieces(a)) + kept_pieces(b));
    }
    law_a_path_goes_on_from_its_base(whole, root, components_of(rel));
}

proof fn lemma_first_piece(s: Seq<char>, sep: char)
    requires
        s.len() > 0,
        s[0] != sep,
    ensures
        split_on(s, sep).len() > 0,
        split_on(s, sep)[0].len() > 0,
        split_on(s, sep)[0][0] == s[0],
{
    let mark = seq![sep];
    lemma_find_from(s, mark, 0);
    match find_from(s, mark, 0) {
        None => {},
        Some(i) => {
            assert(s.subrange(i, i + 1)[0] == sep);
            assert(i > 0);
        },
    }
}

/// A file's extension is what stands behind the last dot of its name, which has none inside;
/// its stem is what stands before. A name that begins with its only dot has no extension.
pub proof fn law_a_name_is_its_stem_and_extension(path: Seq<char>, ext: Seq<char>)
    requires
        extension_spec(path) == Some(ext),
    ensures
        file_name_spec(path) matches Some(name) && file_stem_spec(path) matches Some(stem) && name
            == stem + seq!['.'] + ext && stem.len() > 0 && !ext.contains('.'),
{
    let name = file_name_spec(path)->0;
    let dot = seq!['.'];
    lemma_rfind_from(name, dot, name.len() - dot.len());
    let i = rfind_text(name, dot)->0;
    assert(name.subrange(i, i + 1)[0] == '.');
    assert(name =~= name.take(i) + dot + ext);
    if ext.contains('.') {
        let k = choose|k: int| 0 <= k < ext.len() && ext[k] == '.';
        assert(name.subrange(i + 1 + k, i + 2 + k) =~= dot);
        assert(occurs_at(name, dot, i + 1 + k));
    }
}

/// A name with a dot inside has an extension.
pub proof fn law_a_dotted_name_has_an_extension(path: Seq<char>, stem: Seq<char>, ext: Seq<char>)
    requires
        file_name_spec(path) == Some(stem + seq!['.'] + ext),
        stem.len() > 0,
        !ext.contains('.'),
    ensures
        extension_spec(path) == Some(ext),
        file_stem_spec(path) == Some(stem),
{
    let name = stem + seq!['.'] + ext;
    let dot = seq!['.'];
    lemma_rfind_from(name, dot, name.len() - dot.len());
    let at = stem.len() as int;
    assert(name.subrange(at, at + 1) =~= dot);
    assert(occurs_at(name, dot, at));
    let i = rfind_text(name, dot)->0;
    if i > at {
        assert(name.subrange(i, i + 1)[0] == '.');
        assert(ext[i - at - 1] == '.');
    }
    assert(name.skip(i + 1) =~= ext);
    assert(name.take(i) =~= stem);
}

/// A request is accepted only for a relative path whose place on disk goes on from the root's
/// components, and for every such one.
pub proof fn law_only_paths_inside_are_accepted(
    requested: Seq<char>,
    root: Seq<char>,
    place: Seq<char>,
)
    ensures
        validate_path_spec(requested, root, place) is Ok <==> (requested.len() == 0 || requested[0]
            != '/') && exists|rest: Seq<Seq<char>>|
            components_of(place) == #[trigger] (components_of(root) + rest),
{
    let r = components_of(root);
    let p = components_of(place);
    if is_under(place, root) {
        assert(p =~= r + p.skip(r.len() as int));
    }
    if exists|rest: Seq<Seq<char>>| p == #[trigger] (r + rest) {
        let rest = choose|rest: Seq<Seq<char>>| p == #[trigger] (r + rest);
        law_a_path_goes_on_from_its_base(place, root, rest);
    }
}

/// A pathspec is accepted exactly where it is relative and goes nowhere up.
pub proof fn law_only_pathspecs_inside_are_accepted(requested: Seq<char>)
    ensures
        validate_pathspec_spec(requested) is Ok <==> (requested.len() == 0 || requested[0] != '/')
            && forall|i: int|
            0 <= i < components_of(requested).len() ==> #[trigger] components_of(requested)[i]
                != ".."@,
{
    let parts = components_of(requested);
    if parts.contains(".."@) {
        let i = choose|i: int| 0 <= i < parts.len() && parts[i] == ".."@;
        assert(parts[i] == ".."@);
    }
}

// ---- scopes ----

/// A scope names a file where one of its rules does: a path rule the path itself and what lies
/// below it, a pattern what it matches, seen from the repository or from the root.
pub proof fn law_a_scope_names_what_a_rule_names(
    rules: Seq<RuleText>,
    i: int,
    rel: Seq<char>,
    abs: Seq<char>,
    tail: Seq<char>,
)
    requires
        0 <= i < rules.len(),
        match rules[i] {
            RuleText::Prefix(p) => rel == p || abs == p || rel == p + "/"@ + tail || abs == p + "/"@
                + tail,
            RuleText::Glob(p) => glob_matches(p, rel) || glob_matches(p, abs),
        },
    ensures
        scope_names(rules, rel, abs),
{
    match rules[i] {
        RuleText::Prefix(p) => {
            let slashed = p + "/"@;
            if rel == p + "/"@ + tail {
                assert(rel.subrange(0, slashed.len() as int) =~= slashed);
            }
            if abs == p + "/"@ + tail {
                assert(abs.subrange(0, slashed.len() as int) =~= slashed);
            }
        },
        RuleText::Glob(_) => {},
    }
    assert(crate::scope::rule_names(rules[i], rel, abs));
}

/// Nothing else is named.
pub proof fn law_a_scope_names_nothing_else(rules: Seq<RuleText>, rel: Seq<char>, abs: Seq<char>)
    requires
        scope_names(rules, rel, abs),
    ensures
        exists|i: int|
            0 <= i < rules.len() && match #[trigger] rules[i] {
                RuleText::Prefix(p) => rel == p || abs == p || (exists|tail: Seq<char>|
                    rel == #[trigger] (p + "/"@ + tail)) || (exists|tail: Seq<char>|
                    abs == #[trigger] (p + "/"@ + tail)),
                RuleText::Glob(p) => glob_matches(p, rel) || glob_matches(p, abs),
            },
{
    let i = choose|i: int|
        0 <= i < rules.len() && crate::scope::rule_names(#[trigger] rules[i], rel, abs);
    match rules[i] {
        RuleText::Prefix(p) => {
            let slashed = p + "/"@;
            if slashed.is_prefix_of(rel) {
                assert(rel =~= slashed + rel.skip(slashed.len() as int));
            }
            if slashed.is_prefix_of(abs) {
                assert(abs =~= slashed + abs.skip(slashed.len() as int));
            }
        },
        RuleText::Glob(_) => {},
    }
}

/// An entry with a wildcard that compiles is a pattern, any other that is not blank a path.
pub proof fn law_what_a_scope_entry_means(entry: Seq<char>)
    requires
        scope_entry(entry) == entry,
        entry.len() > 0,
    ensures
        (entry.contains('*') || entry.contains('?') || entry.contains('[')) && glob_valid(entry)
            ==> entry_rule(entry) == Some(RuleText::Glob(entry)),
        !(entry.contains('*') || entry.contains('?') || entry.contains('[')) ==> entry_rule(entry)
            == Some(RuleText::Prefix(entry)),
        !glob_valid(entry) ==> entry_rule(entry) == Some(RuleText::Prefix(entry)),
{
    if entry.contains('*') {
        let i = choose|i: int| 0 <= i < entry.len() && entry[i] == '*';
        assert(entry[i] == '*');
    }
    if entry.contains('?') {
        let i = choose|i: int| 0 <= i < entry.len() && entry[i] == '?';
        assert(entry[i] == '?');
    }
    if entry.contains('[') {
        let i = choose|i: int| 0 <= i < entry.len() && entry[i] == '[';
        assert(entry[i] == '[');
    }
}

/// Every entry that is not blank makes a rule.
pub proof fn law_every_scope_entry_counts(entries: Seq<Seq<char>>, i: int)
    requires
        0 <= i < entries.len(),
        scope_entry(entries[i]).len() > 0,
    ensures
        entry_rule(entries[i]) is Some,
        scope_rules(entries).contains(entry_rule(entries[i])->0),
    decreases entries.len(),
{
    let front = scope_rules(entries.drop_last());
    let all = scope_rules(entries);
    let rule = entry_rule(entries[i])->0;
    if i == entries.len() - 1 {
        assert(all[all.len() - 1] == rule);
    } else {
        assert(entries.drop_last()[i] == entries[i]);
        law_every_scope_entry_counts(entries.drop_last(), i);
        let k = choose|k: int| 0 <= k < front.len() && front[k] == rule;
        assert(all[k] == rule);
    }
}

/// A leftover of a merge is a file named so: by its ending or by the mark inside its name.
pub proof fn law_what_a_merge_leftover_is(path: Seq<char>, name: Seq<char>)
    requires
        file_name_spec(path) == Some(name),
    ensures
        is_merge_leftover(path) <==> (exists|a: Seq<char>| name == #[trigger] (a + ".orig"@)) || (
        exists|a: Seq<char>| name == #[trigger] (a + ".rej"@)) || (exists|a: Seq<char>, b: Seq<char>|
            name == #[trigger] (a + "_BACKUP_"@ + b)) || (exists|a: Seq<char>, b: Seq<char>|
            name == #[trigger] (a + "_BASE_"@ + b)) || (exists|a: Seq<char>, b: Seq<char>|
            name == #[trigger] (a + "_LOCAL_"@ + b)) || (exists|a: Seq<char>, b: Seq<char>|
            name == #[trigger] (a + "_REMOTE_"@ + b)),
{
    law_a_held_text_can_be_cut_out(name, "_BACKUP_"@);
    law_a_held_text_can_be_cut_out(name, "_BASE_"@);
    law_a_held_text_can_be_cut_out(name, "_LOCAL_"@);
    law_a_held_text_can_be_cut_out(name, "_REMOTE_"@);
    lemma_suffix(name, ".orig"@);
    lemma_suffix(name, ".rej"@);
}

/// A text ends with another exactly where something stands before it.
pub proof fn lemma_suffix(s: Seq<char>, p: Seq<char>)
    ensures
        p.is_suffix_of(s) <==> exists|a: Seq<char>| s == #[trigger] (a + p),
{
    if p.is_suffix_of(s) {
        assert(s =~= s.take(s.len() - p.len()) + p);
    }
    if exists|a: Seq<char>| s == #[trigger] (a + p) {
        let a = choose|a: Seq<char>| s == #[trigger] (a + p);
        assert(s.subrange(s.len() - p.len(), s.len() as int) =~= p);
    }
}

} // verus!
