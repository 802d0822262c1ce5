//! Import statements of the supported languages, read line by line.

use vstd::prelude::*;

use crate::text::{
    after_last_chars, after_last_spec, contains, contains_text, ends_with, find_char, find_chars,
    find_from, lemma_find_from, lines, lines_of, opt_text, split_chars, split_on, split_once_chars,
    split_once_spec, starts_with, sub_chars, texts, to_chars, to_text, trim, trim_chars, trim_class,
    trim_end_chars, trim_end_class, trim_end_text, trim_end_text_chars, trim_spec, words, words_by,
    words_chars, words_of,
};

verus! {

#[derive(Debug, Clone, Copy, PartialEq, Eq, Structural)]
pub enum ImportType {
    EsModule,
    CommonJs,
    Python,
    Go,
    Rust,
    CppInclude,
}

/// A name an import brings in, and what it is called there.
#[derive(Debug)]
pub struct ImportedSymbol {
    pub name: String,
    pub alias: Option<String>,
    pub is_default: bool,
}

/// An import statement. Lines count from 1.
#[derive(Debug)]
pub struct Import {
    pub source_file: String,
    pub import_path: String,
    pub imported_symbols: Vec<ImportedSymbol>,
    pub import_type: ImportType,
    pub line: usize,
}

pub struct ImportText {
    pub source_file: Seq<char>,
    pub import_path: Seq<char>,
    pub imported_symbols: Seq<(Seq<char>, Option<Seq<char>>)>,
    pub import_type: ImportType,
    pub line: nat,
}

/// The names and aliases; no import statement marks a default.
pub open spec fn binding_texts(v: Seq<ImportedSymbol>) -> Seq<(Seq<char>, Option<Seq<char>>)> {
    v.map_values(|s: ImportedSymbol| (s.name@, opt_text(s.alias)))
}

impl View for Import {
    type V = ImportText;

    open spec fn view(&self) -> ImportText {
        ImportText {
            source_file: self.source_file@,
            import_path: self.import_path@,
            imported_symbols: binding_texts(self.imported_symbols@),
            import_type: self.import_type,
            line: self.line as nat,
        }
    }
}

pub open spec fn import_texts(v: Seq<Import>) -> Seq<ImportText> {
    v.map_values(|i: Import| i@)
}

// ---- bindings ----

/// One binding of a list: a name, perhaps renamed; nothing for a blank or a star.
pub open spec fn binding_spec(piece: Seq<char>) -> Option<(Seq<char>, Option<Seq<char>>)> {
    let b = trim_spec(piece);
    if b.len() == 0 || b == "*"@ {
        None
    } else {
        match split_once_spec(b, " as "@) {
            Some((name, alias)) => Some((trim_spec(name), Some(trim_spec(alias)))),
            None => Some((b, None)),
        }
    }
}

pub open spec fn bindings_of(pieces: Seq<Seq<char>>) -> Seq<(Seq<char>, Option<Seq<char>>)>
    decreases pieces.len(),
{
    if pieces.len() == 0 {
        Seq::empty()
    } else {
        let front = bindings_of(pieces.drop_last());
        match binding_spec(pieces.last()) {
            Some(b) => front.push(b),
            None => front,
        }
    }
}

/// The bindings of a comma-separated list, with or without braces around it.
pub open spec fn imported_symbols_spec(bindings: Seq<char>) -> Seq<(Seq<char>, Option<Seq<char>>)> {
    bindings_of(split_on(trim_class(trim_spec(bindings), seq!['{', '}'], false), ','))
}

fn trimmed(s: &[char]) -> (r: Vec<char>)
    ensures
        r@ == trim_spec(s@),
{
    let none: Vec<char> = Vec::new();
    trim_chars(s, none.as_slice(), true)
}

fn same_chars(a: &[char], b: &[char]) -> (r: bool)
    ensures
        r == (a@ == b@),
{
    if a.len() != b.len() {
        return false;
    }
    let mut i: usize = 0;
    while i < a.len()
        invariant
            i <= a@.len(),
            a@.len() == b@.len(),
            forall|j: int| 0 <= j < i ==> a@[j] == b@[j],
        decreases a@.len() - i,
    {
        if a[i] != b[i] {
            return false;
        }
        i = i + 1;
    }
    proof {
        assert(a@ =~= b@);
    }
    true
}

fn parse_binding(piece: &[char]) -> (r: Option<ImportedSymbol>)
    ensures
        (match r {
            Some(s) => Some((s.name@, opt_text(s.alias))),
            None => None,
        }) == binding_spec(piece@),
        r matches Some(s) ==> !s.is_default,
{
    let b = trimmed(piece);
    let star = to_chars("*");
    if b.len() == 0 || same_chars(b.as_slice(), star.as_slice()) {
        return None;
    }
    let sep = to_chars(" as ");
    match split_once_chars(b.as_slice(), sep.as_slice()) {
        Some((name, alias)) => {
            let n = trimmed(name.as_slice());
            let a = trimmed(alias.as_slice());
            Some(
                ImportedSymbol {
                    name: to_text(n.as_slice()),
                    alias: Some(to_text(a.as_slice())),
                    is_default: false,
                },
            )
        },
        None => Some(
            ImportedSymbol { name: to_text(b.as_slice()), alias: None, is_default: false },
        ),
    }
}

fn imported_symbols_chars(bindings: &[char]) -> (r: Vec<ImportedSymbol>)
    ensures
        binding_texts(r@) == imported_symbols_spec(bindings@),
        forall|i: int| 0 <= i < r@.len() ==> !(#[trigger] r@[i]).is_default,
{
    let mut braces: Vec<char> = Vec::new();
    braces.push('{');
    braces.push('}');
    proof {
        assert(braces@ =~= seq!['{', '}']);
    }
    let t = trimmed(bindings);
    let inner = trim_chars(t.as_slice(), braces.as_slice(), false);
    let pieces = split_chars(inner.as_slice(), ',');
    let ghost all = pieces@.map_values(|v: Vec<char>| v@);
    let mut out: Vec<ImportedSymbol> = Vec::new();
    let mut i: usize = 0;
    proof {
        assert(binding_texts(out@) =~= Seq::<(Seq<char>, Option<Seq<char>>)>::empty());
    }
    while i < pieces.len()
        invariant
            i <= pieces@.len(),
            all == pieces@.map_values(|v: Vec<char>| v@),
            binding_texts(out@) == bindings_of(all.take(i as int)),
            forall|j: int| 0 <= j < out@.len() ==> !(#[trigger] out@[j]).is_default,
        decreases pieces@.len() - i,
    {
        proof {
            assert(all.take(i + 1).drop_last() =~= all.take(i as int));
            assert(all.take(i + 1).last() == pieces@[i as int]@);
        }
        match parse_binding(pieces[i].as_slice()) {
            Some(s) => {
                proof {
                    assert(binding_texts(out@.push(s)) =~= binding_texts(out@).push(
                        (s.name@, opt_text(s.alias)),
                    ));
                }
                out.push(s);
            },
            None => {},
        }
        i = i + 1;
    }
    proof {
        assert(all.take(all.len() as int) =~= all);
    }
    out
}

/// The bindings of a comma-separated list.
pub fn parse_imported_symbols(bindings: &str) -> (r: Vec<ImportedSymbol>)
    ensures
        binding_texts(r@) == imported_symbols_spec(bindings@),
        forall|i: int| 0 <= i < r@.len() ==> !(#[trigger] r@[i]).is_default,
{
    let chars = to_chars(bindings);
    imported_symbols_chars(chars.as_slice())
}

/// The bindings that stand before a `require(`: the names in braces, or else the last word
/// before it, where an equals sign separates words too.
pub open spec fn commonjs_spec(prefix: Seq<char>) -> Seq<(Seq<char>, Option<Seq<char>>)> {
    let start = find_from(prefix, seq!['{'], 0);
    let end = match start {
        Some(s) => find_from(prefix.skip(s + 1), seq!['}'], 0),
        None => None,
    };
    match (start, end) {
        (Some(s), Some(e)) => imported_symbols_spec(prefix.skip(s + 1).take(e)),
        _ => {
            let words = words_by(prefix, seq!['='], true);
            if words.len() > 0 {
                imported_symbols_spec(words.last())
            } else {
                Seq::empty()
            }
        },
    }
}

fn commonjs_chars(prefix: &[char]) -> (r: Vec<ImportedSymbol>)
    ensures
        binding_texts(r@) == commonjs_spec(prefix@),
        forall|i: int| 0 <= i < r@.len() ==> !(#[trigger] r@[i]).is_default,
{
    let len: usize = prefix.len();
    match find_char(prefix, '{', 0) {
        Some(start) => {
            let rest = sub_chars(prefix, start + 1, len);
            proof {
                assert(rest@ =~= prefix@.skip(start + 1));
            }
            match find_char(rest.as_slice(), '}', 0) {
                Some(end) => {
                    let inner = sub_chars(rest.as_slice(), 0, end);
                    proof {
                        assert(inner@ =~= rest@.take(end as int));
                    }
                    return imported_symbols_chars(inner.as_slice());
                },
                None => {},
            }
        },
        None => {},
    }
    let mut equals: Vec<char> = Vec::new();
    equals.push('=');
    proof {
        assert(equals@ =~= seq!['=']);
    }
    let words = words_chars(prefix, equals.as_slice(), true);
    proof {
        assert(texts(words@).len() == words@.len());
    }
    if words.len() > 0 {
        let last = to_chars(words[words.len() - 1].as_str());
        imported_symbols_chars(last.as_slice())
    } else {
        let none: Vec<ImportedSymbol> = Vec::new();
        proof {
            assert(binding_texts(none@) =~= Seq::<(Seq<char>, Option<Seq<char>>)>::empty());
        }
        none
    }
}

/// The bindings that stand before a `require(`.
pub fn parse_commonjs_imported_symbols(prefix: &str) -> (r: Vec<ImportedSymbol>)
    ensures
        binding_texts(r@) == commonjs_spec(prefix@),
        forall|i: int| 0 <= i < r@.len() ==> !(#[trigger] r@[i]).is_default,
{
    let chars = to_chars(prefix);
    commonjs_chars(chars.as_slice())
}

// ---- statements ----

/// What a statement imports: the path, the bindings and the kind.
pub struct StatementText {
    pub import_path: Seq<char>,
    pub imported_symbols: Seq<(Seq<char>, Option<Seq<char>>)>,
    pub import_type: ImportType,
}

/// `import bindings from 'path'`: the path begins behind the quote that opens it.
pub open spec fn es_import(t: Seq<char>) -> Option<StatementText> {
    match find_from(t, " from "@, 0) {
        None => None,
        Some(i) => Some(
            StatementText {
                import_path: trim_class(
                    if i + 7 <= t.len() { t.skip(i + 7) } else { Seq::empty() },
                    seq!['\'', '"', ';'],
                    false,
                ),
                imported_symbols: imported_symbols_spec(
                    if i >= 7 { t.subrange(7, i) } else { Seq::empty() },
                ),
                import_type: ImportType::EsModule,
            },
        ),
    }
}

/// `bindings = require('path')`.
pub open spec fn commonjs_import(t: Seq<char>) -> Option<StatementText> {
    match split_once_spec(t, "require("@) {
        None => None,
        Some((before, after)) => match find_from(after, seq![')'], 0) {
            None => None,
            Some(end) => Some(
                StatementText {
                    import_path: trim_class(after.take(end), seq!['\'', '"'], false),
                    imported_symbols: commonjs_spec(before),
                    import_type: ImportType::CommonJs,
                },
            ),
        },
    }
}

/// `from path import bindings`, given what follows `from `.
pub open spec fn python_import(rest: Seq<char>) -> Option<StatementText> {
    let (path, symbols) = match split_once_spec(rest, " import "@) {
        Some((path, symbols)) => (path, imported_symbols_spec(symbols)),
        None => (rest, Seq::empty()),
    };
    if path.len() == 0 {
        None
    } else {
        Some(
            StatementText {
                import_path: path,
                imported_symbols: symbols,
                import_type: ImportType::Python,
            },
        )
    }
}

/// `import module`, given what follows `import `: the first word names the module.
pub open spec fn module_import(rest: Seq<char>) -> Option<StatementText> {
    let words = words_of(rest);
    if words.len() == 0 {
        None
    } else {
        Some(
            StatementText {
                import_path: words[0],
                imported_symbols: imported_symbols_spec(words[0]),
                import_type: ImportType::Python,
            },
        )
    }
}

/// `import "path"` of a Go file, given what follows `import `: a line that only opens a list
/// names nothing.
pub open spec fn go_import(rest: Seq<char>) -> Option<StatementText> {
    let path = trim_class(rest, seq!['"', '(', ')'], false);
    if path.len() == 0 {
        None
    } else {
        Some(
            StatementText {
                import_path: path,
                imported_symbols: Seq::empty(),
                import_type: ImportType::Go,
            },
        )
    }
}

/// `use path::{bindings};`, given what follows `use `.
pub open spec fn rust_import(rest: Seq<char>) -> Option<StatementText> {
    let cleaned = trim_spec(trim_end_class(rest, seq![';'], false));
    let brace = find_from(cleaned, seq!['{'], 0);
    let path = match brace {
        Some(i) => trim_end_text(cleaned.take(i), "::"@),
        None => cleaned,
    };
    if path.len() == 0 {
        None
    } else {
        Some(
            StatementText {
                import_path: path,
                imported_symbols: imported_symbols_spec(
                    match brace {
                        Some(i) => cleaned.skip(i),
                        None => after_last_spec(cleaned, "::"@),
                    },
                ),
                import_type: ImportType::Rust,
            },
        )
    }
}

/// `#include "path"` or `<path>`, given what follows the directive.
pub open spec fn cpp_import(rest: Seq<char>) -> StatementText {
    StatementText {
        import_path: trim_class(trim_spec(rest), seq!['"', '<', '>'], false),
        imported_symbols: Seq::empty(),
        import_type: ImportType::CppInclude,
    }
}

/// What one trimmed line of a file imports.
pub open spec fn statement_spec(t: Seq<char>, file: Seq<char>) -> Option<StatementText> {
    if "import "@.is_prefix_of(t) && contains_text(t, " from "@) {
        es_import(t)
    } else if contains_text(t, "require("@) {
        commonjs_import(t)
    } else if "from "@.is_prefix_of(t) {
        python_import(t.skip("from "@.len() as int))
    } else if "import "@.is_prefix_of(t) {
        let rest = t.skip("import "@.len() as int);
        if ".go"@.is_suffix_of(file) {
            go_import(rest)
        } else {
            module_import(rest)
        }
    } else if "use "@.is_prefix_of(t) {
        rust_import(t.skip("use "@.len() as int))
    } else if "#include"@.is_prefix_of(t) {
        Some(cpp_import(t.skip("#include"@.len() as int)))
    } else {
        None
    }
}

struct Statement {
    import_path: String,
    imported_symbols: Vec<ImportedSymbol>,
    import_type: ImportType,
}

impl View for Statement {
    type V = StatementText;

    closed spec fn view(&self) -> StatementText {
        StatementText {
            import_path: self.import_path@,
            imported_symbols: binding_texts(self.imported_symbols@),
            import_type: self.import_type,
        }
    }
}

/// No name of the statement is a default.
spec fn no_default(o: Option<Statement>) -> bool {
    match o {
        Some(s) => forall|i: int|
            0 <= i < s.imported_symbols@.len() ==> !(#[trigger] s.imported_symbols@[i]).is_default,
        None => true,
    }
}

spec fn statement_view(o: Option<Statement>) -> Option<StatementText> {
    match o {
        Some(s) => Some(s@),
        None => None,
    }
}

fn parse_es(t: &[char]) -> (r: Option<Statement>)
    ensures
        statement_view(r) == es_import(t@),
        no_default(r),
{
    let sep = to_chars(" from ");
    let len: usize = t.len();
    proof {
        lemma_find_from(t@, " from "@, 0);
    }
    match find_chars(t, sep.as_slice(), 0) {
        None => None,
        Some(i) => {
            let mut quotes: Vec<char> = Vec::new();
            quotes.push('\'');
            quotes.push('"');
            quotes.push(';');
            proof {
                assert(quotes@ =~= seq!['\'', '"', ';']);
            }
            let path_part = if len >= 7 && i <= len - 7 {
                sub_chars(t, i + 7, len)
            } else {
                Vec::new()
            };
            let names = if i >= 7 {
                sub_chars(t, 7, i)
            } else {
                Vec::new()
            };
            proof {
                if i + 7 <= len {
                    assert(path_part@ =~= t@.skip(i + 7));
                }
            }
            let path = trim_chars(path_part.as_slice(), quotes.as_slice(), false);
            Some(
                Statement {
                    import_path: to_text(path.as_slice()),
                    imported_symbols: imported_symbols_chars(names.as_slice()),
                    import_type: ImportType::EsModule,
                },
            )
        },
    }
}

fn parse_commonjs(t: &[char]) -> (r: Option<Statement>)
    ensures
        statement_view(r) == commonjs_import(t@),
        no_default(r),
{
    let sep = to_chars("require(");
    match split_once_chars(t, sep.as_slice()) {
        None => None,
        Some((before, after)) => match find_char(after.as_slice(), ')', 0) {
            None => None,
            Some(end) => {
                let mut quotes: Vec<char> = Vec::new();
                quotes.push('\'');
                quotes.push('"');
                let inner = sub_chars(after.as_slice(), 0, end);
                proof {
                    assert(quotes@ =~= seq!['\'', '"']);
                    assert(inner@ =~= after@.take(end as int));
                }
                let path = trim_chars(inner.as_slice(), quotes.as_slice(), false);
                Some(
                    Statement {
                        import_path: to_text(path.as_slice()),
                        imported_symbols: commonjs_chars(before.as_slice()),
                        import_type: ImportType::CommonJs,
                    },
                )
            },
        },
    }
}

fn parse_python(rest: &[char]) -> (r: Option<Statement>)
    ensures
        statement_view(r) == python_import(rest@),
        no_default(r),
{
    let sep = to_chars(" import ");
    let (path, symbols) = match split_once_chars(rest, sep.as_slice()) {
        Some((path, names)) => (path, imported_symbols_chars(names.as_slice())),
        None => {
            let none: Vec<ImportedSymbol> = Vec::new();
            proof {
                assert(binding_texts(none@) =~= Seq::<(Seq<char>, Option<Seq<char>>)>::empty());
                assert(rest@.subrange(0, rest@.len() as int) =~= rest@);
            }
            (sub_chars(rest, 0, rest.len()), none)
        },
    };
    if path.len() == 0 {
        None
    } else {
        Some(
            Statement {
                import_path: to_text(path.as_slice()),
                imported_symbols: symbols,
                import_type: ImportType::Python,
            },
        )
    }
}

fn parse_module(rest: &[char]) -> (r: Option<Statement>)
    ensures
        statement_view(r) == module_import(rest@),
        no_default(r),
{
    let text = to_text(rest);
    let list = words(text.as_str());
    proof {
        assert(texts(list@).len() == list@.len());
    }
    if list.len() == 0 {
        None
    } else {
        proof {
            assert(texts(list@)[0] == list@[0]@);
        }
        Some(
            Statement {
                import_path: list[0].clone(),
                imported_symbols: parse_imported_symbols(list[0].as_str()),
                import_type: ImportType::Python,
            },
        )
    }
}

fn parse_go(rest: &[char]) -> (r: Option<Statement>)
    ensures
        statement_view(r) == go_import(rest@),
        no_default(r),
{
    let mut marks: Vec<char> = Vec::new();
    marks.push('"');
    marks.push('(');
    marks.push(')');
    let none: Vec<ImportedSymbol> = Vec::new();
    proof {
        assert(marks@ =~= seq!['"', '(', ')']);
        assert(binding_texts(none@) =~= Seq::<(Seq<char>, Option<Seq<char>>)>::empty());
    }
    let path = trim_chars(rest, marks.as_slice(), false);
    if path.len() == 0 {
        None
    } else {
        Some(
            Statement {
                import_path: to_text(path.as_slice()),
                imported_symbols: none,
                import_type: ImportType::Go,
            },
        )
    }
}

fn parse_rust(rest: &[char]) -> (r: Option<Statement>)
    ensures
        statement_view(r) == rust_import(rest@),
        no_default(r),
{
    let mut semi: Vec<char> = Vec::new();
    semi.push(';');
    proof {
        assert(semi@ =~= seq![';']);
    }
    let cut = trim_end_chars(rest, semi.as_slice(), false);
    let cleaned = trimmed(cut.as_slice());
    let colons = to_chars("::");
    match find_char(cleaned.as_slice(), '{', 0) {
        Some(i) => {
            let front = sub_chars(cleaned.as_slice(), 0, i);
            let group = sub_chars(cleaned.as_slice(), i, cleaned.len());
            proof {
                assert(front@ =~= cleaned@.take(i as int));
                assert(group@ =~= cleaned@.skip(i as int));
            }
            let path = trim_end_text_chars(front.as_slice(), colons.as_slice());
            if path.len() == 0 {
                None
            } else {
                Some(
                    Statement {
                        import_path: to_text(path.as_slice()),
                        imported_symbols: imported_symbols_chars(group.as_slice()),
                        import_type: ImportType::Rust,
                    },
                )
            }
        },
        None => {
            if cleaned.len() == 0 {
                None
            } else {
                let last = after_last_chars(cleaned.as_slice(), colons.as_slice());
                Some(
                    Statement {
                        import_path: to_text(cleaned.as_slice()),
                        imported_symbols: imported_symbols_chars(last.as_slice()),
                        import_type: ImportType::Rust,
                    },
                )
            }
        },
    }
}

fn parse_cpp(rest: &[char]) -> (r: Statement)
    ensures
        r@ == cpp_import(rest@),
        r.imported_symbols@.len() == 0,
{
    let mut quotes: Vec<char> = Vec::new();
    quotes.push('"');
    quotes.push('<');
    quotes.push('>');
    proof {
        assert(quotes@ =~= seq!['"', '<', '>']);
    }
    let t = trimmed(rest);
    let path = trim_chars(t.as_slice(), quotes.as_slice(), false);
    let none: Vec<ImportedSymbol> = Vec::new();
    proof {
        assert(binding_texts(none@) =~= Seq::<(Seq<char>, Option<Seq<char>>)>::empty());
    }
    Statement {
        import_path: to_text(path.as_slice()),
        imported_symbols: none,
        import_type: ImportType::CppInclude,
    }
}

/// What stands behind a prefix of known length.
fn after_prefix(t: &str, prefix: &str) -> (r: Vec<char>)
    requires
        prefix@.is_prefix_of(t@),
    ensures
        r@ == t@.skip(prefix@.len() as int),
{
    let chars = to_chars(t);
    let head = to_chars(prefix);
    let len: usize = chars.len();
    let rest = sub_chars(chars.as_slice(), head.len(), len);
    proof {
        assert(rest@ =~= t@.skip(prefix@.len() as int));
    }
    rest
}

fn parse_statement(t: &str, file: &str) -> (r: Option<Statement>)
    ensures
        statement_view(r) == statement_spec(t@, file@),
        no_default(r),
{
    if starts_with(t, "import ") && contains(t, " from ") {
        let chars = to_chars(t);
        parse_es(chars.as_slice())
    } else if contains(t, "require(") {
        let chars = to_chars(t);
        parse_commonjs(chars.as_slice())
    } else if starts_with(t, "from ") {
        let rest = after_prefix(t, "from ");
        parse_python(rest.as_slice())
    } else if starts_with(t, "import ") {
        let rest = after_prefix(t, "import ");
        if ends_with(file, ".go") {
            parse_go(rest.as_slice())
        } else {
            parse_module(rest.as_slice())
        }
    } else if starts_with(t, "use ") {
        let rest = after_prefix(t, "use ");
        parse_rust(rest.as_slice())
    } else if starts_with(t, "#include") {
        let rest = after_prefix(t, "#include");
        Some(parse_cpp(rest.as_slice()))
    } else {
        None
    }
}

pub open spec fn with_place(s: StatementText, file: Seq<char>, line: nat) -> ImportText {
    ImportText {
        source_file: file,
        import_path: s.import_path,
        imported_symbols: s.imported_symbols,
        import_type: s.import_type,
        line,
    }
}

/// The imports of the lines, in order.
pub open spec fn imports_of(all: Seq<Seq<char>>, file: Seq<char>) -> Seq<ImportText>
    decreases all.len(),
{
    if all.len() == 0 {
        Seq::empty()
    } else {
        let front = imports_of(all.drop_last(), file);
        match statement_spec(trim_spec(all.last()), file) {
            Some(s) => front.push(with_place(s, file, all.len())),
            None => front,
        }
    }
}

/// Reads the import statements of a file: ES modules, CommonJS, Python, Go, Rust, and C
/// preprocessor directives, one to a line.
pub fn parse_imports_from_content(content: &str, file_path: &str) -> (r: Vec<Import>)
    ensures
        import_texts(r@) == imports_of(lines_of(content@), file_path@),
        forall|i: int, j: int|
            0 <= i < r@.len() && 0 <= j < r@[i].imported_symbols@.len()
                ==> !(#[trigger] r@[i].imported_symbols@[j]).is_default,
{
    let list = lines(content);
    let ghost all = texts(list@);
    let mut out: Vec<Import> = Vec::new();
    let mut i: usize = 0;
    proof {
        assert(import_texts(out@) =~= Seq::<ImportText>::empty());
    }
    while i < list.len()
        invariant
            i <= list@.len(),
            all == texts(list@),
            import_texts(out@) == imports_of(all.take(i as int), file_path@),
            forall|k: int, j: int|
                0 <= k < out@.len() && 0 <= j < out@[k].imported_symbols@.len()
                    ==> !(#[trigger] out@[k].imported_symbols@[j]).is_default,
        decreases list@.len() - i,
    {
        proof {
            assert(all.take(i + 1).drop_last() =~= all.take(i as int));
            assert(all.take(i + 1).last() == list@[i as int]@);
        }
        let t = trim(list[i].as_str());
        match parse_statement(t.as_str(), file_path) {
            Some(s) => {
                let import = Import {
                    source_file: file_path.to_owned(),
                    import_path: s.import_path,
                    imported_symbols: s.imported_symbols,
                    import_type: s.import_type,
                    line: i + 1,
                };
                proof {
                    assert(import_texts(out@.push(import)) =~= import_texts(out@).push(import@));
                }
                out.push(import);
            },
            None => {},
        }
        i = i + 1;
    }
    proof {
        assert(all.take(all.len() as int) =~= all);
    }
    out
}

/// A line that looks like an import in any of the languages.
pub open spec fn is_import_line(t: Seq<char>) -> bool {
    ||| "use "@.is_prefix_of(t)
    ||| "import "@.is_prefix_of(t)
    ||| "from "@.is_prefix_of(t)
    ||| contains_text(t, "require("@)
    ||| "#include"@.is_prefix_of(t)
}

/// The trimmed import lines, in order.
pub open spec fn import_lines(all: Seq<Seq<char>>) -> Seq<Seq<char>>
    decreases all.len(),
{
    if all.len() == 0 {
        Seq::empty()
    } else {
        let front = import_lines(all.drop_last());
        if is_import_line(trim_spec(all.last())) {
            front.push(trim_spec(all.last()))
        } else {
            front
        }
    }
}

/// The import lines of a file, as they stand, without surrounding white space.
pub fn extract_imports(content: &str) -> (r: Vec<String>)
    ensures
        texts(r@) == import_lines(lines_of(content@)),
{
    let list = lines(content);
    let ghost all = texts(list@);
    let mut out: Vec<String> = Vec::new();
    let mut i: usize = 0;
    proof {
        assert(texts(out@) =~= Seq::<Seq<char>>::empty());
    }
    while i < list.len()
        invariant
            i <= list@.len(),
            all == texts(list@),
            texts(out@) == import_lines(all.take(i as int)),
        decreases list@.len() - i,
    {
        proof {
            assert(all.take(i + 1).drop_last() =~= all.take(i as int));
            assert(all.take(i + 1).last() == list@[i as int]@);
        }
        let line = trim(list[i].as_str());
        let t = line.as_str();
        if starts_with(t, "use ") || starts_with(t, "import ") || starts_with(t, "from ")
            || contains(t, "require(") || starts_with(t, "#include") {
            proof {
                assert(texts(out@.push(line)) =~= texts(out@).push(line@));
            }
            out.push(line);
        }
        i = i + 1;
    }
    proof {
        assert(all.take(all.len() as int) =~= all);
    }
    out
}

proof fn lemma_import_places(all: Seq<Seq<char>>, file: Seq<char>)
    ensures
        forall|i: int|
            0 <= i < imports_of(all, file).len() ==> {
                let m = #[trigger] imports_of(all, file)[i];
                m.source_file == file && 1 <= m.line <= all.len() && is_import_line(
                    trim_spec(all[m.line - 1]),
                )
            },
    decreases all.len(),
{
    if all.len() > 0 {
        lemma_import_places(all.drop_last(), file);
        let front = imports_of(all.drop_last(), file);
        let whole = imports_of(all, file);
        assert forall|i: int| 0 <= i < whole.len() implies {
            let m = #[trigger] whole[i];
            m.source_file == file && 1 <= m.line <= all.len() && is_import_line(
                trim_spec(all[m.line - 1]),
            )
        } by {
            if i < front.len() {
                assert(whole[i] == front[i]);
                assert(all.drop_last()[front[i].line - 1] == all[front[i].line - 1]);
            }
        }
    }
}

/// Every import found names a line of the file that reads as an import.
pub proof fn law_imports_name_import_lines(content: Seq<char>, file: Seq<char>)
    ensures
        forall|i: int|
            0 <= i < imports_of(lines_of(content), file).len() ==> {
                let m = #[trigger] imports_of(lines_of(content), file)[i];
                m.source_file == file && 1 <= m.line <= lines_of(content).len() && is_import_line(
                    trim_spec(lines_of(content)[m.line - 1]),
                )
            },
{
    lemma_import_places(lines_of(content), file);
}

} // verus!
