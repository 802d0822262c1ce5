//! What a file imports.

use vstd::prelude::*;

use crate::imports::{
    binding_spec, bindings_of, imports_of, statement_spec, with_place, ImportType, StatementText,
};
use crate::text::{
    contains_text, find_from, in_class, is_space_spec, lemma_find_from, lines_of, occurs_at,
    trim_class, trim_end_class, trim_spec, trim_start_class,
};

verus! {

proof fn lemma_statement_is_listed(
    all: Seq<Seq<char>>,
    file: Seq<char>,
    k: int,
    s: StatementText,
)
    requires
        0 <= k < all.len(),
        statement_spec(trim_spec(all[k]), file) == Some(s),
    ensures
        imports_of(all, file).contains(with_place(s, file, (k + 1) as nat)),
    decreases all.len(),
{
    let front = imports_of(all.drop_last(), file);
    let whole = imports_of(all, file);
    let item = with_place(s, file, (k + 1) as nat);
    if k == all.len() - 1 {
        assert(whole[whole.len() - 1] == item);
    } else {
        assert(all.drop_last()[k] == all[k]);
        lemma_statement_is_listed(all.drop_last(), file, k, s);
        let j = choose|j: int| 0 <= j < front.len() && front[j] == item;
        assert(whole[j] == item);
    }
}

/// Every line that is an import statement is listed, with its path, what it brings in and the
/// line it stands on.
pub proof fn law_every_import_is_listed(
    content: Seq<char>,
    file: Seq<char>,
    k: int,
    s: StatementText,
)
    requires
        0 <= k < lines_of(content).len(),
        statement_spec(trim_spec(lines_of(content)[k]), file) == Some(s),
    ensures
        exists|j: int|
            0 <= j < imports_of(lines_of(content), file).len() && (#[trigger] imports_of(
                lines_of(content),
                file,
            )[j]).import_path == s.import_path && imports_of(lines_of(content), file)[j].line == k
                + 1 && imports_of(lines_of(content), file)[j].import_type == s.import_type
                && imports_of(lines_of(content), file)[j].source_file == file && imports_of(
                lines_of(content),
                file,
            )[j].imported_symbols == s.imported_symbols,
{
    let all = imports_of(lines_of(content), file);
    let item = with_place(s, file, (k + 1) as nat);
    lemma_statement_is_listed(lines_of(content), file, k, s);
    let j = choose|j: int| 0 <= j < all.len() && all[j] == item;
    assert(all[j].line == k + 1);
}

/// Nothing is trimmed off a text that neither begins nor ends with the class.
proof fn lemma_trim_leaves(s: Seq<char>, set: Seq<char>, space: bool)
    requires
        s.len() > 0,
        !in_class(s[0], set, space),
        !in_class(s.last(), set, space),
    ensures
        trim_class(s, set, space) == s,
        trim_start_class(s, set, space) == s,
        trim_end_class(s, set, space) == s,
{
}

/// What stands between characters of the class is what trimming leaves.
proof fn lemma_trim_between(open: char, s: Seq<char>, close: char, set: Seq<char>)
    requires
        s.len() > 0,
        set.contains(open),
        set.contains(close),
        !set.contains(s[0]),
        !set.contains(s.last()),
    ensures
        trim_class(seq![open] + s + seq![close], set, false) == s,
{
    let whole = seq![open] + s + seq![close];
    let rest = s + seq![close];
    assert(whole.skip(1) =~= rest);
    assert(rest[0] == s[0]);
    reveal_with_fuel(trim_start_class, 3);
    assert(trim_start_class(rest, set, false) == rest);
    assert(trim_start_class(whole, set, false) == rest);
    assert(rest.drop_last() =~= s);
    reveal_with_fuel(trim_end_class, 3);
    assert(trim_end_class(rest, set, false) == s);
}

/// A C line that names a header in quotes or angle brackets imports that header.
pub proof fn law_a_header_line_imports_the_header(header: Seq<char>, file: Seq<char>)
    requires
        header.len() > 0,
        header[0] != '"' && header[0] != '<' && header[0] != '>',
        header.last() != '"' && header.last() != '<' && header.last() != '>',
        !contains_text("#include"@ + seq![' ', '"'] + header + seq!['"'], "require("@),
        !contains_text("#include"@ + seq![' ', '<'] + header + seq!['>'], "require("@),
    ensures
        statement_spec("#include"@ + seq![' ', '"'] + header + seq!['"'], file) matches Some(s)
            && s.import_path == header && s.import_type == ImportType::CppInclude,
        statement_spec("#include"@ + seq![' ', '<'] + header + seq!['>'], file) matches Some(s)
            && s.import_path == header && s.import_type == ImportType::CppInclude,
{
    lemma_header_line(header, file, '"', '"');
    lemma_header_line(header, file, '<', '>');
}

proof fn lemma_header_line(header: Seq<char>, file: Seq<char>, open: char, close: char)
    requires
        header.len() > 0,
        header[0] != '"' && header[0] != '<' && header[0] != '>',
        header.last() != '"' && header.last() != '<' && header.last() != '>',
        (open == '"' && close == '"') || (open == '<' && close == '>'),
        !contains_text("#include"@ + seq![' ', open] + header + seq![close], "require("@),
    ensures
        statement_spec("#include"@ + seq![' ', open] + header + seq![close], file) matches Some(s)
            && s.import_path == header && s.import_type == ImportType::CppInclude,
{
    reveal_strlit("#include");
    reveal_strlit("import ");
    reveal_strlit("from ");
    reveal_strlit("use ");
    let word = "#include"@;
    let t = word + seq![' ', open] + header + seq![close];
    assert(t[0] == '#');
    assert(!"import "@.is_prefix_of(t)) by {
        if "import "@.is_prefix_of(t) {
            assert(t.subrange(0, "import "@.len() as int)[0] == 'i');
        }
    }
    assert(!"from "@.is_prefix_of(t)) by {
        if "from "@.is_prefix_of(t) {
            assert(t.subrange(0, "from "@.len() as int)[0] == 'f');
        }
    }
    assert(!"use "@.is_prefix_of(t)) by {
        if "use "@.is_prefix_of(t) {
            assert(t.subrange(0, "use "@.len() as int)[0] == 'u');
        }
    }
    assert(t.subrange(0, word.len() as int) =~= word);
    let named = seq![open] + header + seq![close];
    let rest = t.skip(word.len() as int);
    assert(rest =~= seq![' '] + named);
    assert(rest.skip(1) =~= named);
    assert(!is_space_spec(open) && !is_space_spec(close));
    assert(trim_spec(rest) == named) by {
        let none = Seq::<char>::empty();
        reveal_with_fuel(trim_start_class, 3);
        assert(in_class(' ', none, true));
        assert(!in_class(named[0], none, true));
        assert(trim_start_class(rest, none, true) == named);
        assert(!in_class(named.last(), none, true));
    }
    let set = seq!['"', '<', '>'];
    assert(set[0] == '"' && set[1] == '<' && set[2] == '>');
    assert(set.contains(open) && set.contains(close));
    lemma_trim_between(open, header, close, set);
}

/// A Rust line that uses a path, without braces, imports it.
pub proof fn law_a_use_line_imports_the_path(path: Seq<char>, file: Seq<char>)
    requires
        path.len() > 0,
        !path.contains('{'),
        !is_space_spec(path[0]),
        !is_space_spec(path.last()),
        path.last() != ';',
        !contains_text("use "@ + path + seq![';'], "require("@),
    ensures
        statement_spec("use "@ + path + seq![';'], file) matches Some(s) && s.import_path == path
            && s.import_type == ImportType::Rust,
{
    reveal_strlit("use ");
    reveal_strlit("import ");
    reveal_strlit("from ");
    let word = "use "@;
    let t = word + path + seq![';'];
    assert(t[0] == 'u');
    assert(!"import "@.is_prefix_of(t)) by {
        if "import "@.is_prefix_of(t) {
            assert(t.subrange(0, "import "@.len() as int)[0] == 'i');
        }
    }
    assert(!"from "@.is_prefix_of(t)) by {
        if "from "@.is_prefix_of(t) {
            assert(t.subrange(0, "from "@.len() as int)[0] == 'f');
        }
    }
    assert(t.subrange(0, word.len() as int) =~= word);
    let rest = t.skip(word.len() as int);
    assert(rest =~= path.push(';'));
    assert(rest.drop_last() =~= path);
    let semi = seq![';'];
    assert(semi[0] == ';');
    assert(trim_end_class(rest, semi, false) == path) by {
        reveal_with_fuel(trim_end_class, 3);
        assert(in_class(';', semi, false));
        assert(!in_class(path.last(), semi, false));
    }
    let none = Seq::<char>::empty();
    assert(!in_class(path[0], none, true) && !in_class(path.last(), none, true));
    lemma_trim_leaves(path, none, true);
    let brace = seq!['{'];
    lemma_find_from(path, brace, 0);
    if find_from(path, brace, 0) is Some {
        let k = find_from(path, brace, 0)->0;
        assert(path.subrange(k, k + 1)[0] == '{');
        assert(path[k] == '{');
    }
}

/// A Python line that takes names from a module imports that module.
pub proof fn law_a_from_line_imports_the_module(
    module: Seq<char>,
    names: Seq<char>,
    file: Seq<char>,
)
    requires
        module.len() > 0,
        !module.contains(' '),
        !contains_text("from "@ + module + " import "@ + names, "require("@),
    ensures
        statement_spec("from "@ + module + " import "@ + names, file) matches Some(s)
            && s.import_path == module && s.import_type == ImportType::Python,
{
    reveal_strlit("from ");
    reveal_strlit("import ");
    reveal_strlit(" import ");
    let word = "from "@;
    let sep = " import "@;
    let t = word + module + sep + names;
    assert(t[0] == 'f');
    assert(!"import "@.is_prefix_of(t)) by {
        if "import "@.is_prefix_of(t) {
            assert(t.subrange(0, "import "@.len() as int)[0] == 'i');
        }
    }
    assert(t.subrange(0, word.len() as int) =~= word);
    let rest = t.skip(word.len() as int);
    assert(rest =~= module + sep + names);
    lemma_find_from(rest, sep, 0);
    let at = module.len() as int;
    assert(rest.subrange(at, at + sep.len()) =~= sep);
    assert(occurs_at(rest, sep, at));
    let k = find_from(rest, sep, 0)->0;
    if k < at {
        assert(rest.subrange(k, k + sep.len())[0] == ' ');
        assert(module[k] == ' ');
    }
    assert(rest.take(k) =~= module);
}

/// A line that is none of the statements imports nothing.
pub proof fn law_other_lines_import_nothing(t: Seq<char>, file: Seq<char>)
    requires
        !"import "@.is_prefix_of(t),
        !"from "@.is_prefix_of(t),
        !"use "@.is_prefix_of(t),
        !"#include"@.is_prefix_of(t),
        !contains_text(t, "require("@),
    ensures
        statement_spec(t, file) is None,
{
}

/// A name taken under another is bound to both.
pub proof fn law_a_renamed_import_has_both_names(name: Seq<char>, alias: Seq<char>)
    requires
        name.len() > 0,
        alias.len() > 0,
        !name.contains(' '),
        !is_space_spec(name[0]) && !is_space_spec(name.last()),
        !is_space_spec(alias[0]) && !is_space_spec(alias.last()),
    ensures
        binding_spec(name + " as "@ + alias) == Some((name, Some(alias))),
{
    reveal_strlit(" as ");
    reveal_strlit("*");
    let sep = " as "@;
    let b = name + sep + alias;
    let none = Seq::<char>::empty();
    assert(b[0] == name[0] && b.last() == alias.last());
    assert(!in_class(b[0], none, true) && !in_class(b.last(), none, true));
    lemma_trim_leaves(b, none, true);
    assert(!in_class(name[0], none, true) && !in_class(name.last(), none, true));
    assert(!in_class(alias[0], none, true) && !in_class(alias.last(), none, true));
    lemma_trim_leaves(name, none, true);
    lemma_trim_leaves(alias, none, true);
    lemma_find_from(b, sep, 0);
    let at = name.len() as int;
    assert(b.subrange(at, at + sep.len()) =~= sep);
    assert(occurs_at(b, sep, at));
    let k = find_from(b, sep, 0)->0;
    if k < at {
        assert(b.subrange(k, k + sep.len())[0] == ' ');
        assert(name[k] == ' ');
    }
    assert(b.take(k) =~= name);
    assert(b.skip(k + sep.len()) =~= alias);
    assert(b.len() > 1);
}

/// What stands before characters of the class is what trimming leaves.
proof fn lemma_trim_before(s: Seq<char>, a: char, b: char, set: Seq<char>)
    requires
        s.len() > 0,
        set.contains(a),
        set.contains(b),
        !set.contains(s[0]),
        !set.contains(s.last()),
    ensures
        trim_class(s + seq![a] + seq![b], set, false) == s,
{
    let whole = s + seq![a] + seq![b];
    assert(whole[0] == s[0]);
    assert(trim_start_class(whole, set, false) == whole);
    assert(whole.drop_last() =~= s + seq![a]);
    assert((s + seq![a]).drop_last() =~= s);
    reveal_with_fuel(trim_end_class, 4);
    assert(trim_end_class(whole, set, false) == s);
}

/// A module line of JavaScript imports the path it names.
pub proof fn law_a_module_line_imports_the_path(
    names: Seq<char>,
    quote: char,
    path: Seq<char>,
    file: Seq<char>,
)
    requires
        quote == '"' || quote == '\'',
        path.len() > 0,
        path[0] != '"' && path[0] != '\'' && path[0] != ';',
        path.last() != '"' && path.last() != '\'' && path.last() != ';',
        forall|j: int|
            0 <= j < 7 + names.len() ==> !occurs_at(
                "import "@ + names + " from "@ + seq![quote] + (path + seq![quote] + seq![';']),
                " from "@,
                j,
            ),
    ensures
        statement_spec(
            "import "@ + names + " from "@ + seq![quote] + (path + seq![quote] + seq![';']),
            file,
        ) matches Some(s) && s.import_path == path && s.import_type == ImportType::EsModule,
{
    reveal_strlit("import ");
    reveal_strlit(" from ");
    let word = "import "@;
    let from = " from "@;
    let end = path + seq![quote] + seq![';'];
    let t = word + names + from + seq![quote] + end;
    assert(t.subrange(0, word.len() as int) =~= word);
    let at: int = 7 + names.len() as int;
    assert(t.subrange(at, at + from.len()) =~= from);
    assert(occurs_at(t, from, at));
    lemma_find_from(t, from, 0);
    assert(find_from(t, from, 0) == Some(at));
    assert(t.skip(at + 7) =~= end);
    let set = seq!['\'', '"', ';'];
    assert(set[0] == '\'' && set[1] == '"' && set[2] == ';');
    assert(set.contains(quote) && set.contains(';'));
    lemma_trim_before(path, quote, ';', set);
}

proof fn lemma_given_path(quote: char, path: Seq<char>, after: Seq<char>)
    requires
        quote != ')',
        !path.contains(')'),
    ensures
        find_from(seq![quote] + path + seq![quote] + seq![')'] + after, seq![')'], 0) == Some(
            path.len() as int + 2,
        ),
        (seq![quote] + path + seq![quote] + seq![')'] + after).take(path.len() as int + 2)
            == seq![quote] + path + seq![quote],
{
    let given = seq![quote] + path + seq![quote];
    let rest = given + seq![')'] + after;
    let close = seq![')'];
    let n: int = path.len() as int + 2;
    assert(rest.subrange(n, n + 1) =~= close);
    assert(occurs_at(rest, close, n));
    lemma_find_from(rest, close, 0);
    let k = find_from(rest, close, 0)->0;
    if k < n {
        assert(rest.subrange(k, k + 1)[0] == ')');
        assert(given[k] == ')');
        if 0 < k < n - 1 {
            assert(path[k - 1] == ')');
        }
    }
    assert(rest.take(n) =~= given);
}

proof fn lemma_call_is_first(before: Seq<char>, rest: Seq<char>)
    requires
        forall|j: int|
            0 <= j < before.len() ==> !occurs_at(before + "require("@ + rest, "require("@, j),
    ensures
        find_from(before + "require("@ + rest, "require("@, 0) == Some(before.len() as int),
        (before + "require("@ + rest).skip(before.len() as int + "require("@.len()) == rest,
        contains_text(before + "require("@ + rest, "require("@),
{
    let call = "require("@;
    let t = before + call + rest;
    let at: int = before.len() as int;
    assert(t.subrange(at, at + call.len()) =~= call);
    assert(occurs_at(t, call, at));
    lemma_find_from(t, call, 0);
    assert(t.skip(at + call.len()) =~= rest);
}

/// A call of `require` imports the path it is given.
pub proof fn law_a_required_path_is_imported(
    before: Seq<char>,
    quote: char,
    path: Seq<char>,
    after: Seq<char>,
    file: Seq<char>,
)
    requires
        quote == '"' || quote == '\'',
        path.len() > 0,
        !path.contains(')'),
        path[0] != '"' && path[0] != '\'',
        path.last() != '"' && path.last() != '\'',
        before.len() > 0 && before[0] != 'i',
        forall|j: int|
            0 <= j < before.len() ==> !occurs_at(
                before + "require("@ + (seq![quote] + path + seq![quote] + seq![')'] + after),
                "require("@,
                j,
            ),
    ensures
        statement_spec(
            before + "require("@ + (seq![quote] + path + seq![quote] + seq![')'] + after),
            file,
        ) matches Some(s) && s.import_path == path && s.import_type == ImportType::CommonJs,
{
    reveal_strlit("import ");
    let call = "require("@;
    let given = seq![quote] + path + seq![quote];
    let rest = given + seq![')'] + after;
    let t = before + call + rest;
    if "import "@.is_prefix_of(t) {
        assert(t.subrange(0, 7)[0] == 'i');
    }
    lemma_call_is_first(before, rest);
    lemma_given_path(quote, path, after);
    let set = seq!['\'', '"'];
    assert(set[0] == '\'' && set[1] == '"');
    assert(set.contains(quote));
    lemma_trim_between(quote, path, quote, set);
}

/// A Go line imports the path between its quotes.
pub proof fn law_a_go_line_imports_the_path(path: Seq<char>, stem: Seq<char>)
    requires
        path.len() > 0,
        path[0] != '"' && path[0] != '(' && path[0] != ')',
        path.last() != '"' && path.last() != '(' && path.last() != ')',
        !contains_text("import "@ + (seq!['"'] + path + seq!['"']), " from "@),
        !contains_text("import "@ + (seq!['"'] + path + seq!['"']), "require("@),
    ensures
        statement_spec("import "@ + (seq!['"'] + path + seq!['"']), stem + ".go"@) matches Some(s)
            && s.import_path == path && s.import_type == ImportType::Go,
{
    reveal_strlit("import ");
    reveal_strlit("from ");
    let word = "import "@;
    let named = seq!['"'] + path + seq!['"'];
    let t = word + named;
    let file = stem + ".go"@;
    assert(t.subrange(0, word.len() as int) =~= word);
    assert(t[0] == 'i');
    if "from "@.is_prefix_of(t) {
        assert(t.subrange(0, 5)[0] == 'f');
    }
    assert(t.skip(word.len() as int) =~= named);
    assert(file.subrange(stem.len() as int, file.len() as int) =~= ".go"@);
    let set = seq!['"', '(', ')'];
    assert(set[0] == '"' && set[1] == '(' && set[2] == ')');
    assert(set.contains('"'));
    lemma_trim_between('"', path, '"', set);
}

/// Every name between commas is imported.
pub proof fn law_every_bound_name_is_imported(pieces: Seq<Seq<char>>, i: int)
    requires
        0 <= i < pieces.len(),
        binding_spec(pieces[i]) is Some,
    ensures
        bindings_of(pieces).contains(binding_spec(pieces[i])->0),
    decreases pieces.len(),
{
    let front = bindings_of(pieces.drop_last());
    let all = bindings_of(pieces);
    let b = binding_spec(pieces[i])->0;
    if i == pieces.len() - 1 {
        assert(all[all.len() - 1] == b);
    } else {
        assert(pieces.drop_last()[i] == pieces[i]);
        law_every_bound_name_is_imported(pieces.drop_last(), i);
        let k = choose|k: int| 0 <= k < front.len() && front[k] == b;
        assert(all[k] == b);
    }
}

} // verus!
