//! Language servers: which are started and how, the framing of their messages, and what is
//! made of their answers.

use vstd::prelude::*;

use crate::paths::{components, components_of, ext_of, ext_or_empty, file_name, file_name_spec};
use crate::references::{
    anchor_from, locate_name_anchor, location_texts, LocationText, ServerLocation,
};
use crate::show::smaller;
use crate::symbols::{symbol_texts, SourceSet, Symbol, SymbolKind, SymbolText};
use crate::text::{
    ascii_lower_text, byte_len, decimal, digit, digit_value, digits_value, find_char, in_class,
    is_space_spec, join, join_spec, lines_of, opt_text, parse_usize, parse_usize_spec, same_text,
    split_on, strip_prefix, strip_prefix_spec, sub_text, texts, to_ascii_lower, to_chars, trim,
    trim_end_class, trim_spec, trim_start_class, usize_text,
};

verus! {

// ---- backends ----

/// A language server for C and C++.
#[derive(Debug, Clone, Copy, PartialEq, Eq, Structural)]
pub enum CxxLspBackend {
    Clangd,
    Ccls,
}

impl CxxLspBackend {
    pub open spec fn label_spec(self) -> Seq<char> {
        match self {
            CxxLspBackend::Clangd => "clangd"@,
            CxxLspBackend::Ccls => "ccls"@,
        }
    }

    /// The name that server keys and answers use.
    pub fn label(self) -> (r: &'static str)
        ensures
            r@ == self.label_spec(),
    {
        match self {
            CxxLspBackend::Clangd => "clangd",
            CxxLspBackend::Ccls => "ccls",
        }
    }

    pub open spec fn source_spec(self) -> SourceSet {
        match self {
            CxxLspBackend::Clangd => SourceSet::clangd(),
            CxxLspBackend::Ccls => SourceSet::ccls(),
        }
    }

    /// The set of this backend alone.
    pub fn source(self) -> (r: SourceSet)
        ensures
            r == self.source_spec(),
    {
        match self {
            CxxLspBackend::Clangd => SourceSet::clangd(),
            CxxLspBackend::Ccls => SourceSet::ccls(),
        }
    }

    /// The backends whose program is installed, `clangd` first.
    pub fn detect_available(clangd: bool, ccls: bool) -> (r: Vec<CxxLspBackend>)
        ensures
            r@ == (if clangd {
                seq![CxxLspBackend::Clangd]
            } else {
                Seq::empty()
            }) + (if ccls {
                seq![CxxLspBackend::Ccls]
            } else {
                Seq::empty()
            }),
    {
        let mut out: Vec<CxxLspBackend> = Vec::new();
        if clangd {
            out.push(CxxLspBackend::Clangd);
        }
        if ccls {
            out.push(CxxLspBackend::Ccls);
        }
        proof {
            assert(out@ =~= (if clangd {
                seq![CxxLspBackend::Clangd]
            } else {
                Seq::empty()
            }) + (if ccls {
                seq![CxxLspBackend::Ccls]
            } else {
                Seq::empty()
            }));
        }
        out
    }
}

pub open spec fn backend_for_source(source: SourceSet) -> Option<CxxLspBackend> {
    if source == SourceSet::clangd() {
        Some(CxxLspBackend::Clangd)
    } else if source == SourceSet::ccls() {
        Some(CxxLspBackend::Ccls)
    } else {
        None
    }
}

/// The backend a set of one names.
pub fn cxx_backend_for_source(source: SourceSet) -> (r: Option<CxxLspBackend>)
    ensures
        r == backend_for_source(source),
{
    if source == SourceSet::clangd() {
        Some(CxxLspBackend::Clangd)
    } else if source == SourceSet::ccls() {
        Some(CxxLspBackend::Ccls)
    } else {
        None
    }
}

/// A backend is found again by its set.
pub proof fn law_a_backend_is_its_source(backend: CxxLspBackend)
    ensures
        backend_for_source(backend.source_spec()) == Some(backend),
{
}

// ---- configuration ----

/// How language servers are used.
#[derive(Debug)]
pub struct LspConfig {
    /// Languages switched on or off, each once.
    pub enabled_languages: Vec<(String, bool)>,
    /// Programs to start in place of the known ones, by language.
    pub server_paths: Vec<(String, String)>,
    /// How long an interactive request may take, in milliseconds.
    pub timeout_ms: u64,
    /// How long a request of an index run may take: a server has to parse a whole
    /// translation unit when a file is first opened.
    pub index_timeout_ms: u64,
    pub enabled: bool,
    pub cxx_lsp_backends: Vec<CxxLspBackend>,
}

impl Default for LspConfig {
    fn default() -> (r: LspConfig)
        ensures
            r.enabled_languages@.len() == 0,
            r.server_paths@.len() == 0,
            r.timeout_ms == 1500,
            r.index_timeout_ms == 60000,
            !r.enabled,
            r.cxx_lsp_backends@ == seq![CxxLspBackend::Clangd],
    {
        let mut backends: Vec<CxxLspBackend> = Vec::new();
        backends.push(CxxLspBackend::Clangd);
        proof {
            assert(backends@ =~= seq![CxxLspBackend::Clangd]);
        }
        LspConfig {
            enabled_languages: Vec::new(),
            server_paths: Vec::new(),
            timeout_ms: 1500,
            index_timeout_ms: 60000,
            enabled: false,
            cxx_lsp_backends: backends,
        }
    }
}

/// The first entry of a table under a key.
pub open spec fn switch_of(table: Seq<(String, bool)>, key: Seq<char>) -> Option<bool>
    decreases table.len(),
{
    if table.len() == 0 {
        None
    } else if table[0].0@ == key {
        Some(table[0].1)
    } else {
        switch_of(table.skip(1), key)
    }
}

pub open spec fn path_of(table: Seq<(String, String)>, key: Seq<char>) -> Option<Seq<char>>
    decreases table.len(),
{
    if table.len() == 0 {
        None
    } else if table[0].0@ == key {
        Some(table[0].1@)
    } else {
        path_of(table.skip(1), key)
    }
}

pub open spec fn is_cxx(language: Seq<char>) -> bool {
    language == "c"@ || language == "cpp"@
}

fn names_cxx(language: &str) -> (r: bool)
    ensures
        r == is_cxx(language@),
{
    same_text(language, "c") || same_text(language, "cpp")
}

/// The key of a C or C++ server: its language and its backend.
pub open spec fn server_key_spec(language: Seq<char>, backend: CxxLspBackend) -> Seq<char> {
    language + ":"@ + backend.label_spec()
}

pub fn server_key(language: &str, backend: CxxLspBackend) -> (r: String)
    ensures
        r@ == server_key_spec(language@, backend),
{
    let mut out = language.to_owned();
    out.append(":");
    out.append(backend.label());
    out
}

/// The language a server key names.
pub open spec fn key_language(key: Seq<char>) -> Seq<char> {
    split_on(key, ':')[0]
}

fn language_of_key(key: &str) -> (r: String)
    ensures
        r@ == key_language(key@),
{
    let chars = to_chars(key);
    match find_char(chars.as_slice(), ':', 0) {
        Some(i) => {
            proof {
                assert(key@.subrange(0, i as int) =~= key@.take(i as int));
            }
            sub_text(chars.as_slice(), 0, i)
        },
        None => key.to_owned(),
    }
}

/// The characters that a shell would act on.
pub open spec fn is_shell_char(c: char) -> bool {
    c == ';' || c == '|' || c == '&' || c == '$' || c == '`' || c == '<' || c == '>' || c == '\n'
        || c == '\r' || c == '(' || c == ')'
}

/// A program path that may be started: it is not empty, holds nothing a shell would act on
/// and does not climb out of a directory.
pub open spec fn is_server_path(path: Seq<char>) -> bool {
    &&& path.len() > 0
    &&& forall|i: int| 0 <= i < path.len() ==> !is_shell_char(#[trigger] path[i])
    &&& !components_of(path).contains(".."@)
}

/// Tells whether a configured program path may be started.
pub fn validate_lsp_server_path(path: &str) -> (r: bool)
    ensures
        r == is_server_path(path@),
{
    let chars = to_chars(path);
    if chars.len() == 0 {
        return false;
    }
    let mut i: usize = 0;
    while i < chars.len()
        invariant
            i <= chars@.len(),
            chars@ == path@,
            forall|j: int| 0 <= j < i ==> !is_shell_char(#[trigger] chars@[j]),
        decreases chars@.len() - i,
    {
        let c = chars[i];
        if c == ';' || c == '|' || c == '&' || c == '$' || c == '`' || c == '<' || c == '>' || c
            == '\n' || c == '\r' || c == '(' || c == ')' {
            proof {
                assert(is_shell_char(path@[i as int]));
            }
            return false;
        }
        i = i + 1;
    }
    let parts = components(path);
    !crate::text::has_text(parts.as_slice(), "..")
}

/// Why a server cannot be started.
#[derive(Debug)]
pub enum ServerError {
    /// The configured program of the language is refused.
    InvalidPath(String),
    /// No program is known for the key.
    NotConfigured(String),
}

/// The program and its arguments, as known for a key.
pub open spec fn known_command(key: Seq<char>) -> Option<(Seq<char>, Seq<Seq<char>>)> {
    if key == "rust"@ {
        Some(("rust-analyzer"@, seq![]))
    } else if key == "python"@ {
        Some(("pyright-langserver"@, seq!["--stdio"@]))
    } else if key == "javascript"@ || key == "typescript"@ {
        Some(("typescript-language-server"@, seq!["--stdio"@]))
    } else if key == "go"@ {
        Some(("gopls"@, seq![]))
    } else if key == "c:clangd"@ || key == "cpp:clangd"@ {
        Some(("clangd"@, seq![]))
    } else if key == "c:ccls"@ || key == "cpp:ccls"@ {
        Some(("ccls"@, seq![]))
    } else if key == "java"@ {
        Some(("jdtls"@, seq!["-data"@, "/tmp/jdtls-workspace"@]))
    } else {
        None
    }
}

fn command(program: &str, args: Vec<String>) -> (r: (String, Vec<String>))
    ensures
        r.0@ == program@,
        r.1@ == args@,
{
    (program.to_owned(), args)
}

fn one_arg(arg: &str) -> (r: Vec<String>)
    ensures
        texts(r@) == seq![arg@],
{
    let mut out: Vec<String> = Vec::new();
    out.push(arg.to_owned());
    proof {
        assert(texts(out@) =~= seq![arg@]);
    }
    out
}

fn no_args() -> (r: Vec<String>)
    ensures
        texts(r@) == Seq::<Seq<char>>::empty(),
{
    let out: Vec<String> = Vec::new();
    proof {
        assert(texts(out@) =~= Seq::<Seq<char>>::empty());
    }
    out
}

pub open spec fn command_text(c: (String, Vec<String>)) -> (Seq<char>, Seq<Seq<char>>) {
    (c.0@, texts(c.1@))
}

fn find_command(key: &str) -> (r: Option<(String, Vec<String>)>)
    ensures
        (match r {
            Some(c) => Some(command_text(c)),
            None => None,
        }) == known_command(key@),
{
    if same_text(key, "rust") {
        Some(command("rust-analyzer", no_args()))
    } else if same_text(key, "python") {
        Some(command("pyright-langserver", one_arg("--stdio")))
    } else if same_text(key, "javascript") || same_text(key, "typescript") {
        Some(command("typescript-language-server", one_arg("--stdio")))
    } else if same_text(key, "go") {
        Some(command("gopls", no_args()))
    } else if same_text(key, "c:clangd") || same_text(key, "cpp:clangd") {
        Some(command("clangd", no_args()))
    } else if same_text(key, "c:ccls") || same_text(key, "cpp:ccls") {
        Some(command("ccls", no_args()))
    } else if same_text(key, "java") {
        let mut args = one_arg("-data");
        let ghost before = args@;
        args.push("/tmp/jdtls-workspace".to_owned());
        proof {
            assert(texts(before).len() == before.len());
            assert(texts(before)[0] == "-data"@);
            assert(texts(args@) =~= seq!["-data"@, "/tmp/jdtls-workspace"@]);
        }
        Some(command("jdtls", args))
    } else {
        None
    }
}

// ---- the manager ----

/// Which language servers run, and for what.
#[derive(Debug)]
pub struct LspManager {
    pub config: LspConfig,
    pub workspace_roots: Vec<String>,
}

impl LspManager {
    pub fn new(config: LspConfig, workspace_roots: Vec<String>) -> (r: LspManager)
        ensures
            r.config == config,
            r.workspace_roots == workspace_roots,
    {
        LspManager { config, workspace_roots }
    }

    /// Tells whether language servers are used at all.
    pub fn is_enabled(&self) -> (r: bool)
        ensures
            r == self.config.enabled,
    {
        self.config.enabled
    }

    pub open spec fn enabled_for(&self, language: Seq<char>) -> bool {
        self.config.enabled && switch_of(self.config.enabled_languages@, language) == Some(true)
    }

    /// Tells whether a language server is used for a language.
    pub fn is_enabled_for_language(&self, language: &str) -> (r: bool)
        ensures
            r == self.enabled_for(language@),
    {
        if !self.config.enabled {
            return false;
        }
        let table = &self.config.enabled_languages;
        let mut i: usize = 0;
        proof {
            assert(table@.skip(0) =~= table@);
        }
        while i < table.len()
            invariant
                i <= table@.len(),
                self.config.enabled,
                table@ == self.config.enabled_languages@,
                switch_of(table@, language@) == switch_of(table@.skip(i as int), language@),
            decreases table@.len() - i,
        {
            proof {
                assert(table@.skip(i as int)[0] == table@[i as int]);
                assert(table@.skip(i as int).skip(1) =~= table@.skip(i + 1));
            }
            if same_text(table[i].0.as_str(), language) {
                return table[i].1;
            }
            i = i + 1;
        }
        false
    }

    pub open spec fn primary_key(&self, language: Seq<char>) -> Seq<char> {
        if is_cxx(language) {
            server_key_spec(
                language,
                if self.config.cxx_lsp_backends@.len() > 0 {
                    self.config.cxx_lsp_backends@[0]
                } else {
                    CxxLspBackend::Clangd
                },
            )
        } else {
            language
        }
    }

    /// The key of the server that answers for a language: of several C and C++ backends the
    /// first.
    pub fn primary_server_key(&self, language: &str) -> (r: String)
        ensures
            r@ == self.primary_key(language@),
    {
        if names_cxx(language) {
            let backend = if self.config.cxx_lsp_backends.len() > 0 {
                self.config.cxx_lsp_backends[0]
            } else {
                CxxLspBackend::Clangd
            };
            server_key(language, backend)
        } else {
            language.to_owned()
        }
    }

    /// Each server of a language with the label of its answers and its key.
    pub open spec fn servers_of(&self, language: Seq<char>) -> Seq<(Seq<char>, Seq<char>)> {
        if is_cxx(language) {
            self.config.cxx_lsp_backends@.map_values(
                |b: CxxLspBackend| (b.label_spec(), server_key_spec(language, b)),
            )
        } else {
            seq![(language, language)]
        }
    }

    /// The servers of a language: for C and C++ every configured backend, else one.
    pub fn servers_for(&self, language: &str) -> (r: Vec<(String, String)>)
        ensures
            label_texts(r@) == self.servers_of(language@),
    {
        let mut out: Vec<(String, String)> = Vec::new();
        if names_cxx(language) {
            let backends = &self.config.cxx_lsp_backends;
            let mut i: usize = 0;
            while i < backends.len()
                invariant
                    i <= backends@.len(),
                    out@.len() == i,
                    forall|j: int|
                        0 <= j < i ==> (#[trigger] out@[j]).0@ == backends@[j].label_spec()
                            && out@[j].1@ == server_key_spec(language@, backends@[j]),
                decreases backends@.len() - i,
            {
                out.push((backends[i].label().to_owned(), server_key(language, backends[i])));
                i = i + 1;
            }
        } else {
            out.push((language.to_owned(), language.to_owned()));
        }
        proof {
            assert(label_texts(out@) =~= self.servers_of(language@));
        }
        out
    }

    /// The server that is asked about a place in a file of a language, where one is.
    pub fn server_to_ask(&self, language: &str) -> (r: Option<String>)
        ensures
            opt_text(r) == if self.enabled_for(language@) {
                Some(self.primary_key(language@))
            } else {
                None
            },
    {
        if self.is_enabled_for_language(language) {
            Some(self.primary_server_key(language))
        } else {
            None
        }
    }

    /// The servers started ahead of the first question: those of a language that is enabled.
    pub fn warm_up(&self, language: &str) -> (r: Vec<(String, String)>)
        ensures
            label_texts(r@) == if self.enabled_for(language@) {
                self.servers_of(language@)
            } else {
                Seq::empty()
            },
    {
        if self.is_enabled_for_language(language) {
            self.servers_for(language)
        } else {
            let out: Vec<(String, String)> = Vec::new();
            proof {
                assert(label_texts(out@) =~= Seq::<(Seq<char>, Seq<char>)>::empty());
            }
            out
        }
    }

    /// The servers of a language that are stopped and started anew: those that run.
    pub fn restart_server(&self, language: &str, running: &[String]) -> (r: Vec<(String, String)>)
        ensures
            label_texts(r@) == self.servers_of(language@).filter(
                |s: (Seq<char>, Seq<char>)| texts(running@).contains(s.1),
            ),
    {
        let all = self.servers_for(language);
        let ghost list = label_texts(all@);
        let ghost pred = |s: (Seq<char>, Seq<char>)| texts(running@).contains(s.1);
        let mut out: Vec<(String, String)> = Vec::new();
        let mut i: usize = 0;
        proof {
            reveal(Seq::filter);
            assert(label_texts(out@) =~= list.take(0).filter(pred));
        }
        while i < all.len()
            invariant
                i <= all@.len(),
                list == label_texts(all@),
                pred == (|s: (Seq<char>, Seq<char>)| texts(running@).contains(s.1)),
                label_texts(out@) == list.take(i as int).filter(pred),
            decreases all@.len() - i,
        {
            proof {
                reveal(Seq::filter);
                assert(list.take(i + 1).drop_last() =~= list.take(i as int));
                assert(list.take(i + 1).last() == (all@[i as int].0@, all@[i as int].1@));
            }
            if crate::text::has_text(running, all[i].1.as_str()) {
                let s = (all[i].0.clone(), all[i].1.clone());
                proof {
                    assert(label_texts(out@.push(s)) =~= label_texts(out@).push((s.0@, s.1@)));
                }
                out.push(s);
            }
            i = i + 1;
        }
        proof {
            assert(list.take(list.len() as int) =~= list);
        }
        out
    }

    /// What is started for a key: the configured program of its language, or the known one.
    pub open spec fn command_spec(&self, key: Seq<char>) -> Option<(Seq<char>, Seq<Seq<char>>)> {
        match path_of(self.config.server_paths@, key_language(key)) {
            Some(path) => Some((path, Seq::empty())),
            None => known_command(key),
        }
    }

    fn configured_path(&self, language: &str) -> (r: Option<String>)
        ensures
            opt_text(r) == path_of(self.config.server_paths@, language@),
    {
        let table = &self.config.server_paths;
        let mut i: usize = 0;
        proof {
            assert(table@.skip(0) =~= table@);
        }
        while i < table.len()
            invariant
                i <= table@.len(),
                table@ == self.config.server_paths@,
                path_of(table@, language@) == path_of(table@.skip(i as int), language@),
            decreases table@.len() - i,
        {
            proof {
                assert(table@.skip(i as int)[0] == table@[i as int]);
                assert(table@.skip(i as int).skip(1) =~= table@.skip(i + 1));
            }
            if same_text(table[i].0.as_str(), language) {
                return Some(table[i].1.clone());
            }
            i = i + 1;
        }
        None
    }

    /// The command that starts the server of a key.
    pub fn get_server_command_for_key(&self, key: &str) -> (r: Result<
        (String, Vec<String>),
        ServerError,
    >)
        ensures
            match r {
                Ok(c) => self.command_spec(key@) == Some(command_text(c)) && match path_of(
                    self.config.server_paths@,
                    key_language(key@),
                ) {
                    Some(path) => is_server_path(path),
                    None => true,
                },
                Err(ServerError::InvalidPath(language)) => language@ == key_language(key@) && (
                path_of(self.config.server_paths@, key_language(key@)) matches Some(path)
                    && !is_server_path(path)),
                Err(ServerError::NotConfigured(k)) => k@ == key@ && self.command_spec(key@) is None,
            },
    {
        let language = language_of_key(key);
        match self.configured_path(language.as_str()) {
            Some(path) => {
                if validate_lsp_server_path(path.as_str()) {
                    Ok((path, no_args()))
                } else {
                    Err(ServerError::InvalidPath(language))
                }
            },
            None => match find_command(key) {
                Some(c) => Ok(c),
                None => Err(ServerError::NotConfigured(key.to_owned())),
            },
        }
    }

    pub open spec fn active_sources(&self) -> Seq<SourceSet> {
        if self.config.enabled {
            self.config.cxx_lsp_backends@.map_values(|b: CxxLspBackend| b.source_spec())
        } else {
            Seq::empty()
        }
    }

    /// The C and C++ backends that are asked, as sets of one. None where servers are off.
    pub fn active_cxx_backends(&self) -> (r: Vec<SourceSet>)
        ensures
            r@ == self.active_sources(),
    {
        let mut out: Vec<SourceSet> = Vec::new();
        if !self.config.enabled {
            proof {
                assert(out@ =~= Seq::<SourceSet>::empty());
            }
            return out;
        }
        let backends = &self.config.cxx_lsp_backends;
        let mut i: usize = 0;
        while i < backends.len()
            invariant
                i <= backends@.len(),
                out@.len() == i,
                forall|j: int| 0 <= j < i ==> #[trigger] out@[j] == backends@[j].source_spec(),
            decreases backends@.len() - i,
        {
            out.push(backends[i].source());
            i = i + 1;
        }
        proof {
            assert(out@ =~= self.active_sources());
        }
        out
    }

    pub open spec fn workspace_spec(&self) -> (Seq<char>, Seq<char>) {
        let root = if self.workspace_roots@.len() > 0 {
            self.workspace_roots@[0]@
        } else {
            "."@
        };
        (
            root,
            match file_name_spec(root) {
                Some(name) => name,
                None => "workspace"@,
            },
        )
    }

    /// The folder a server is started on, and its name.
    pub fn workspace_folder(&self) -> (r: (String, String))
        ensures
            (r.0@, r.1@) == self.workspace_spec(),
    {
        let root = if self.workspace_roots.len() > 0 {
            self.workspace_roots[0].clone()
        } else {
            ".".to_owned()
        };
        let name = match file_name(root.as_str()) {
            Some(n) => n,
            None => "workspace".to_owned(),
        };
        (root, name)
    }
}

pub open spec fn label_texts(v: Seq<(String, String)>) -> Seq<(Seq<char>, Seq<char>)> {
    v.map_values(|s: (String, String)| (s.0@, s.1@))
}

/// Where servers are off, none is used for any language and no backend is active.
pub proof fn law_disabled_servers_are_not_used(manager: LspManager, language: Seq<char>)
    requires
        !manager.config.enabled,
    ensures
        !manager.enabled_for(language),
        manager.active_sources() == Seq::<SourceSet>::empty(),
{
}

/// The primary server of a language is one of its servers, where it has any.
pub proof fn law_the_primary_server_is_a_server(manager: LspManager, language: Seq<char>)
    requires
        manager.config.cxx_lsp_backends@.len() > 0,
    ensures
        manager.servers_of(language)[0].1 == manager.primary_key(language),
{
}

// ---- framing ----

/// A message as it goes over the wire: its length in bytes, and the text.
pub open spec fn framed(json: Seq<char>) -> Seq<char> {
    "Content-Length: "@ + decimal(byte_len(json) as nat) + "\r\n\r\n"@ + json
}

/// Frames a message.
pub fn frame_message(json: &str) -> (r: String)
    ensures
        r@ == framed(json@),
{
    let mut out = "Content-Length: ".to_owned();
    out.append(usize_text(json.len()).as_str());
    out.append("\r\n\r\n");
    out.append(json);
    out
}

/// What a header line asks of the reader.
#[derive(Debug, Clone, Copy, PartialEq, Eq, Structural)]
pub enum HeaderStep {
    /// The stream has ended.
    End,
    /// Read the next line.
    More,
    /// Read a body of so many bytes.
    Body(usize),
    /// The length is no number.
    BadLength,
}

/// The length announced so far, and what a header line does to it. A line comes with its
/// line break; one that is empty altogether is the end of the stream.
pub open spec fn header_step(length: usize, line: Seq<char>) -> (usize, HeaderStep) {
    let text = trim_spec(line);
    if line.len() == 0 {
        (length, HeaderStep::End)
    } else {
        match strip_prefix_spec(text, "Content-Length:"@) {
            Some(rest) => match parse_usize_spec(trim_spec(rest)) {
                Some(n) => (n, HeaderStep::More),
                None => (length, HeaderStep::BadLength),
            },
            None => if text.len() == 0 && length > 0 {
                (0, HeaderStep::Body(length))
            } else {
                (length, HeaderStep::More)
            },
        }
    }
}

/// Reads the headers of messages, line by line.
#[derive(Debug)]
pub struct HeaderReader {
    pub content_length: usize,
}

impl HeaderReader {
    pub fn new() -> (r: HeaderReader)
        ensures
            r.content_length == 0,
    {
        HeaderReader { content_length: 0 }
    }

    /// Takes one line of the stream.
    pub fn read_line(&mut self, line: &str) -> (r: HeaderStep)
        ensures
            (final(self).content_length, r) == header_step(old(self).content_length, line@),
    {
        if line.is_empty() {
            return HeaderStep::End;
        }
        let text = trim(line);
        match strip_prefix(text.as_str(), "Content-Length:") {
            Some(rest) => {
                let number = trim(rest.as_str());
                match parse_usize(number.as_str()) {
                    Some(n) => {
                        self.content_length = n;
                        HeaderStep::More
                    },
                    None => HeaderStep::BadLength,
                }
            },
            None => {
                if text.as_str().is_empty() && self.content_length > 0 {
                    let n = self.content_length;
                    self.content_length = 0;
                    HeaderStep::Body(n)
                } else {
                    HeaderStep::More
                }
            },
        }
    }
}

proof fn lemma_decimal_digits(n: nat)
    ensures
        decimal(n).len() > 0,
        digits_value(decimal(n)) == Some(n),
        forall|i: int|
            0 <= i < decimal(n).len() ==> '0' <= #[trigger] decimal(n)[i] && decimal(n)[i] <= '9',
    decreases n,
{
    if n < 10 {
        assert(decimal(n).drop_last() =~= Seq::<char>::empty());
        assert(digits_value(Seq::<char>::empty()) == Some(0nat));
        assert(decimal(n).last() == digit(n));
        assert(digit_value(digit(n)) == Some(n));
    } else {
        lemma_decimal_digits(n / 10);
        assert(decimal(n).drop_last() =~= decimal(n / 10));
        assert(decimal(n).last() == digit(n % 10));
        assert(digit_value(digit(n % 10)) == Some(n % 10));
    }
}

proof fn lemma_trim_end_stays(s: Seq<char>)
    requires
        s.len() > 0,
        !is_space_spec(s.last()),
    ensures
        trim_end_class(s, Seq::empty(), true) == s,
{
    assert(!in_class(s.last(), Seq::empty(), true));
}

proof fn lemma_trim_start_stays(s: Seq<char>)
    requires
        s.len() > 0,
        !is_space_spec(s[0]),
    ensures
        trim_start_class(s, Seq::empty(), true) == s,
{
    assert(!in_class(s[0], Seq::empty(), true));
}

/// What is framed is read back: the header lines of a message that is not empty announce
/// its length in bytes, whatever length was announced before.
pub proof fn law_a_framed_message_is_announced(json: Seq<char>, before: usize)
    requires
        byte_len(json) > 0,
    ensures
        ({
            let line = "Content-Length: "@ + decimal(byte_len(json) as nat) + "\r\n"@;
            let first = header_step(before, line);
            &&& framed(json) == line + "\r\n"@ + json
            &&& first.1 == HeaderStep::More
            &&& header_step(first.0, "\r\n"@) == (0usize, HeaderStep::Body(byte_len(json)))
        }),
{
    let number = decimal(byte_len(json) as nat);
    let line = "Content-Length: "@ + number + "\r\n"@;
    let text = "Content-Length: "@ + number;
    reveal_strlit("Content-Length: ");
    reveal_strlit("Content-Length:");
    reveal_strlit("\r\n");
    reveal_strlit("\r\n\r\n");
    lemma_decimal_digits(byte_len(json) as nat);
    assert(framed(json) =~= line + "\r\n"@ + json);
    assert(line.len() > 0);
    assert(line[0] == 'C');
    lemma_trim_start_stays(line);
    let cut = line.drop_last();
    assert(cut.drop_last() =~= text);
    assert(line.last() == '\n');
    assert(cut.last() == '\r');
    assert(text.last() == number.last());
    assert('0' <= number[number.len() - 1] && number[number.len() - 1] <= '9');
    assert(in_class('\n', Seq::empty(), true) && in_class('\r', Seq::empty(), true));
    lemma_trim_end_stays(text);
    assert(trim_end_class(cut, Seq::empty(), true) == text);
    assert(trim_end_class(line, Seq::empty(), true) == text);
    assert(trim_spec(line) == text);
    assert("Content-Length:"@.is_prefix_of(text));
    let rest = text.skip("Content-Length:"@.len() as int);
    assert(rest =~= seq![' '] + number);
    assert(in_class(' ', Seq::empty(), true));
    assert(rest.skip(1) =~= number);
    assert('0' <= number[0] && number[0] <= '9');
    lemma_trim_start_stays(number);
    assert(rest[0] == ' ');
    assert(trim_start_class(rest, Seq::empty(), true) == number);
    lemma_trim_end_stays(number);
    assert(trim_spec(rest) == number);
    assert(parse_usize_spec(number) == Some(byte_len(json)));
    let empty = "\r\n"@;
    assert(empty[0] == '\r' && empty.skip(1)[0] == '\n');
    assert(empty.skip(1).skip(1) =~= Seq::<char>::empty());
    assert(trim_start_class(empty.skip(1).skip(1), Seq::empty(), true).len() == 0);
    assert(trim_start_class(empty.skip(1), Seq::empty(), true).len() == 0);
    assert(trim_start_class(empty, Seq::empty(), true).len() == 0);
    assert(trim_spec(empty) =~= Seq::<char>::empty());
    assert(!"Content-Length:"@.is_prefix_of(trim_spec(empty)));
}

// ---- requests in flight ----

/// The requests that wait for an answer.
#[derive(Debug)]
pub struct PendingRequests {
    pub waiting: Vec<i64>,
    pub next_id: i64,
}

impl PendingRequests {
    /// Every waiting number was given out, and none waits twice.
    pub open spec fn wf(&self) -> bool {
        &&& self.next_id >= 1
        &&& self.waiting@.no_duplicates()
        &&& forall|i: int| 0 <= i < self.waiting@.len() ==> #[trigger] self.waiting@[i] < self.next_id
    }

    pub fn new() -> (r: PendingRequests)
        ensures
            r.wf(),
            r.waiting@.len() == 0,
            r.next_id == 1,
    {
        PendingRequests { waiting: Vec::new(), next_id: 1 }
    }

    /// Gives a request its number.
    pub fn open(&mut self) -> (r: i64)
        requires
            old(self).wf(),
            old(self).next_id < i64::MAX,
        ensures
            final(self).wf(),
            r == old(self).next_id,
            final(self).next_id == old(self).next_id + 1,
            final(self).waiting@ == old(self).waiting@.push(r),
            !old(self).waiting@.contains(r),
    {
        let id = self.next_id;
        self.next_id = id + 1;
        self.waiting.push(id);
        id
    }

    /// Takes an answer: tells whether a request waits for it, and takes that one out.
    pub fn answer(&mut self, id: i64) -> (r: bool)
        requires
            old(self).wf(),
        ensures
            final(self).wf(),
            r == old(self).waiting@.contains(id),
            final(self).next_id == old(self).next_id,
            !final(self).waiting@.contains(id),
            forall|other: i64|
                other != id ==> (#[trigger] final(self).waiting@.contains(other) <==> old(
                    self,
                ).waiting@.contains(other)),
    {
        let ghost before = self.waiting@;
        let mut i: usize = 0;
        while i < self.waiting.len()
            invariant
                i <= self.waiting@.len(),
                self.waiting@ == before,
                self.wf(),
                self.next_id == old(self).next_id,
                before == old(self).waiting@,
                forall|j: int| 0 <= j < i ==> #[trigger] before[j] != id,
            decreases self.waiting@.len() - i,
        {
            if self.waiting[i] == id {
                self.waiting.remove(i);
                proof {
                    let after = self.waiting@;
                    let k = i as int;
                    assert(after == before.remove(k));
                    assert(before[k] == id);
                    assert forall|a: int, b: int|
                        0 <= a < after.len() && 0 <= b < after.len() && a != b implies after[a]
                        != after[b] by {
                        let a0 = if a < k { a } else { a + 1 };
                        let b0 = if b < k { b } else { b + 1 };
                        assert(after[a] == before[a0] && after[b] == before[b0]);
                    }
                    assert(!after.contains(id)) by {
                        if after.contains(id) {
                            let a = choose|a: int| 0 <= a < after.len() && after[a] == id;
                            let a0 = if a < k { a } else { a + 1 };
                            assert(before[a0] == id && a0 != k);
                        }
                    }
                    assert forall|other: i64| other != id implies (#[trigger] after.contains(other)
                        <==> before.contains(other)) by {
                        if before.contains(other) {
                            let a = choose|a: int| 0 <= a < before.len() && before[a] == other;
                            let a0 = if a < k { a } else { a - 1 };
                            assert(after[a0] == other);
                        }
                        if after.contains(other) {
                            let a = choose|a: int| 0 <= a < after.len() && after[a] == other;
                            let a0 = if a < k { a } else { a + 1 };
                            assert(before[a0] == other);
                        }
                    }
                    assert forall|a: int| 0 <= a < after.len() implies #[trigger] after[a]
                        < self.next_id by {
                        let a0 = if a < k { a } else { a + 1 };
                        assert(after[a] == before[a0]);
                    }
                }
                return true;
            }
            i = i + 1;
        }
        false
    }
}

// ---- files and positions ----

pub open spec fn language_id_spec(path: Seq<char>) -> Seq<char> {
    let ext = ascii_lower_text(ext_or_empty(path));
    if ext == "cpp"@ || ext == "cxx"@ || ext == "cc"@ || ext == "c++"@ || ext == "hpp"@ || ext
        == "hxx"@ || ext == "hh"@ || ext == "h++"@ || ext == "ipp"@ || ext == "tpp"@ {
        "cpp"@
    } else {
        "c"@
    }
}

/// The language a C or C++ file is opened as. A plain header counts as C.
pub fn cxx_language_id(path: &str) -> (r: &'static str)
    ensures
        r@ == language_id_spec(path@),
{
    let ext = to_ascii_lower(ext_of(path).as_str());
    let e = ext.as_str();
    if same_text(e, "cpp") || same_text(e, "cxx") || same_text(e, "cc") || same_text(e, "c++")
        || same_text(e, "hpp") || same_text(e, "hxx") || same_text(e, "hh") || same_text(e, "h++")
        || same_text(e, "ipp") || same_text(e, "tpp") {
        "cpp"
    } else {
        "c"
    }
}

/// The place of a name as a whole word, in the eight lines from `start` on.
pub open spec fn name_anchor_spec(lines: Seq<Seq<char>>, name: Seq<char>, start: usize) -> Option<
    (u32, u32),
> {
    if name.len() == 0 {
        None
    } else {
        anchor_from(lines, name, start as int, smaller(start + 8, lines.len() as int))
    }
}

/// The line and the UTF-16 column of a name, both counted from 0. A return type may push the
/// name below the first line of its definition.
pub fn name_anchor(content: &str, name: &str, start_line: usize) -> (r: Option<(u32, u32)>)
    ensures
        r == name_anchor_spec(lines_of(content@), name@, start_line),
{
    let total: usize = crate::text::lines(content).len();
    proof {
        assert(lines_of(content@).len() == total);
    }
    if start_line == usize::MAX {
        return None;
    }
    locate_name_anchor(content, name, start_line + 1, usize::MAX)
}

pub open spec fn call_anchor_spec(lines: Seq<Seq<char>>, name: Seq<char>, line: u32) -> (u32, u32) {
    let row: u32 = if line > 1 {
        (line - 1) as u32
    } else {
        0
    };
    match name_anchor_spec(lines, name, row as usize) {
        Some(place) => place,
        None => (row, 0u32),
    }
}

/// Where a function is asked about: on its name, or else at the start of its line.
pub fn call_anchor(content: &str, name: &str, line: u32) -> (r: (u32, u32))
    ensures
        r == call_anchor_spec(lines_of(content@), name@, line),
{
    let row: u32 = if line > 1 {
        line - 1
    } else {
        0
    };
    match name_anchor(content, name, row as usize) {
        Some(place) => place,
        None => (row, 0),
    }
}

/// The line of a call: where the caller makes it, or else the callee's own line. Lines come
/// in counted from 0 and go out counted from 1.
pub fn call_site_line(first_range: Option<u32>, callee_line: u32) -> (r: u32)
    requires
        first_range matches Some(line) ==> line < u32::MAX,
        first_range is None ==> callee_line < u32::MAX,
    ensures
        r == (match first_range {
            Some(line) => line,
            None => callee_line,
        }) + 1,
        r == site_line(first_range, callee_line),
{
    match first_range {
        Some(line) => line + 1,
        None => callee_line + 1,
    }
}

pub open spec fn site_line(first_range: Option<u32>, callee_line: u32) -> int {
    match first_range {
        Some(line) => line + 1,
        None => callee_line + 1,
    }
}

/// What a server answered about a definition.
#[derive(Debug)]
pub enum GotoDefinitionResponse {
    Scalar(ServerLocation),
    Array(Vec<ServerLocation>),
    /// Links, which are not followed.
    Link,
}

pub open spec fn definition_places(reply: GotoDefinitionResponse) -> Option<Seq<LocationText>> {
    match reply {
        GotoDefinitionResponse::Scalar(l) => Some(seq![l@]),
        GotoDefinitionResponse::Array(ls) => Some(location_texts(ls@)),
        GotoDefinitionResponse::Link => None,
    }
}

/// The places of a definition.
pub fn definition_locations(reply: GotoDefinitionResponse) -> (r: Option<Vec<ServerLocation>>)
    ensures
        (match r {
            Some(ls) => Some(location_texts(ls@)),
            None => None,
        }) == definition_places(reply),
{
    match reply {
        GotoDefinitionResponse::Scalar(l) => {
            let mut out: Vec<ServerLocation> = Vec::new();
            out.push(l);
            proof {
                assert(location_texts(out@) =~= seq![l@]);
            }
            Some(out)
        },
        GotoDefinitionResponse::Array(ls) => Some(ls),
        GotoDefinitionResponse::Link => None,
    }
}

// ---- document symbols ----

/// A symbol as a server outlines a file. `kind` is the protocol's number, and lines are
/// counted from 0.
#[derive(Debug)]
pub struct DocumentSymbol {
    pub name: String,
    pub kind: i32,
    pub detail: Option<String>,
    pub name_line: u32,
    pub end_line: u32,
    pub children: Vec<DocumentSymbol>,
}

/// What a kind of the protocol is called here.
pub open spec fn kind_spec(kind: i32) -> SymbolKind {
    if kind == 12 {
        SymbolKind::Function
    } else if kind == 6 {
        SymbolKind::Method
    } else if kind == 9 {
        SymbolKind::Constructor
    } else if kind == 23 {
        SymbolKind::Struct
    } else if kind == 5 {
        SymbolKind::Class
    } else if kind == 10 {
        SymbolKind::Enum
    } else if kind == 22 || kind == 14 {
        SymbolKind::Constant
    } else if kind == 11 {
        SymbolKind::Interface
    } else if kind == 3 {
        SymbolKind::Namespace
    } else if kind == 2 || kind == 4 {
        SymbolKind::Module
    } else if kind == 13 {
        SymbolKind::Variable
    } else if kind == 8 || kind == 7 {
        SymbolKind::Field
    } else if kind == 26 {
        SymbolKind::TypeAlias
    } else {
        SymbolKind::Unknown
    }
}

/// The kind of a symbol by the protocol's number for it.
pub fn lsp_kind_to_narsil(kind: i32) -> (r: SymbolKind)
    ensures
        r == kind_spec(kind),
{
    if kind == 12 {
        SymbolKind::Function
    } else if kind == 6 {
        SymbolKind::Method
    } else if kind == 9 {
        SymbolKind::Constructor
    } else if kind == 23 {
        SymbolKind::Struct
    } else if kind == 5 {
        SymbolKind::Class
    } else if kind == 10 {
        SymbolKind::Enum
    } else if kind == 22 || kind == 14 {
        SymbolKind::Constant
    } else if kind == 11 {
        SymbolKind::Interface
    } else if kind == 3 {
        SymbolKind::Namespace
    } else if kind == 2 || kind == 4 {
        SymbolKind::Module
    } else if kind == 13 {
        SymbolKind::Variable
    } else if kind == 8 || kind == 7 {
        SymbolKind::Field
    } else if kind == 26 {
        SymbolKind::TypeAlias
    } else {
        SymbolKind::Unknown
    }
}

/// A line counted from 1. The last line that can be counted stands for any behind it.
pub open spec fn one_based(line: u32) -> usize {
    if line < usize::MAX {
        (line + 1) as usize
    } else {
        usize::MAX
    }
}

fn count_from_one(line: u32) -> (r: usize)
    ensures
        r == one_based(line),
{
    if (line as usize) < usize::MAX {
        line as usize + 1
    } else {
        usize::MAX
    }
}

pub open spec fn outlined(ds: DocumentSymbol, backend: SourceSet) -> SymbolText {
    SymbolText {
        name: ds.name@,
        kind: kind_spec(ds.kind),
        file_path: Seq::empty(),
        start_line: one_based(ds.name_line),
        end_line: one_based(ds.end_line),
        signature: opt_text(ds.detail),
        qualified_name: None,
        doc_comment: None,
        confirmed_by: backend,
        line_conflicts: Seq::empty(),
    }
}

/// The symbols of an outline, each before its members.
pub open spec fn flattened(symbols: Seq<DocumentSymbol>, backend: SourceSet) -> Seq<SymbolText>
    decreases symbols,
{
    if symbols.len() == 0 {
        Seq::empty()
    } else {
        flattened(symbols.drop_last(), backend).push(outlined(symbols.last(), backend))
            + flattened(symbols.last().children@, backend)
    }
}

fn outline_symbol(ds: &DocumentSymbol, backend: SourceSet) -> (r: Symbol)
    ensures
        r@ == outlined(*ds, backend),
{
    let r = Symbol {
        name: ds.name.clone(),
        kind: lsp_kind_to_narsil(ds.kind),
        file_path: String::new(),
        start_line: count_from_one(ds.name_line),
        end_line: count_from_one(ds.end_line),
        signature: crate::symbols::clone_text(&ds.detail),
        qualified_name: None,
        doc_comment: None,
        confirmed_by: backend,
        line_conflicts: Vec::new(),
    };
    proof {
        assert(r@.file_path =~= Seq::<char>::empty());
        assert(r@.line_conflicts =~= outlined(*ds, backend).line_conflicts);
    }
    r
}

/// Turns an outline into symbols that the backend confirms. Their file is left for the
/// caller to fill in.
pub fn flatten_document_symbols(symbols: &Vec<DocumentSymbol>, backend: SourceSet) -> (r: Vec<Symbol>)
    ensures
        symbol_texts(r@) == flattened(symbols@, backend),
    decreases symbols,
{
    let mut out: Vec<Symbol> = Vec::new();
    let mut i: usize = 0;
    proof {
        assert(symbol_texts(out@) =~= flattened(symbols@.take(0), backend));
    }
    while i < symbols.len()
        invariant
            i <= symbols@.len(),
            symbol_texts(out@) == flattened(symbols@.take(i as int), backend),
        decreases symbols@.len() - i,
    {
        let ds = &symbols[i];
        proof {
            assert(symbols@.take(i + 1).drop_last() =~= symbols@.take(i as int));
            assert(symbols@.take(i + 1).last() == *ds);
        }
        let s = outline_symbol(ds, backend);
        proof {
            assert(symbol_texts(out@.push(s)) =~= symbol_texts(out@).push(s@));
        }
        out.push(s);
        let ghost before = symbol_texts(out@);
        assert(decreases_to!(symbols => symbols@[i as int]));
        let mut members = flatten_document_symbols(&ds.children, backend);
        let ghost found = symbol_texts(members@);
        proof {
            assert(symbol_texts(out@ + members@) =~= before + found);
        }
        out.append(&mut members);
        i = i + 1;
    }
    proof {
        assert(symbols@.take(symbols@.len() as int) =~= symbols@);
    }
    out
}

// ---- hover ----

/// A piece of text in a language.
#[derive(Debug)]
pub struct LanguageString {
    pub language: String,
    pub value: String,
}

/// A piece of a hover.
#[derive(Debug)]
pub enum MarkedString {
    String(String),
    LanguageString(LanguageString),
}

#[derive(Debug, Clone, Copy, PartialEq, Eq, Structural)]
pub enum MarkupKind {
    PlainText,
    Markdown,
}

#[derive(Debug)]
pub struct MarkupContent {
    pub kind: MarkupKind,
    pub value: String,
}

#[derive(Debug)]
pub enum HoverContents {
    Scalar(MarkedString),
    Array(Vec<MarkedString>),
    Markup(MarkupContent),
}

/// What a server says of a place.
#[derive(Debug)]
pub struct Hover {
    pub contents: HoverContents,
}

pub open spec fn marked_text(m: MarkedString) -> Seq<char> {
    match m {
        MarkedString::String(s) => s@,
        MarkedString::LanguageString(ls) => "```"@ + ls.language@ + "\n"@ + ls.value@ + "\n```"@,
    }
}

pub open spec fn hover_text(hover: Hover) -> Seq<char> {
    match hover.contents {
        HoverContents::Scalar(m) => marked_text(m),
        HoverContents::Array(ms) => join_spec(
            ms@.map_values(|m: MarkedString| marked_text(m)),
            "\n\n"@,
        ),
        HoverContents::Markup(m) => m.value@,
    }
}

fn marked_string_to_markdown(marked: &MarkedString) -> (r: String)
    ensures
        r@ == marked_text(*marked),
{
    match marked {
        MarkedString::String(s) => s.clone(),
        MarkedString::LanguageString(ls) => {
            let mut out = "```".to_owned();
            out.append(ls.language.as_str());
            out.append("\n");
            out.append(ls.value.as_str());
            out.append("\n```");
            out
        },
    }
}

/// A hover as markdown.
pub fn hover_to_markdown(hover: &Hover) -> (r: String)
    ensures
        r@ == hover_text(*hover),
{
    match &hover.contents {
        HoverContents::Scalar(m) => marked_string_to_markdown(m),
        HoverContents::Array(ms) => {
            let mut parts: Vec<String> = Vec::new();
            let mut i: usize = 0;
            while i < ms.len()
                invariant
                    i <= ms@.len(),
                    parts@.len() == i,
                    forall|j: int| 0 <= j < i ==> #[trigger] parts@[j]@ == marked_text(ms@[j]),
                decreases ms@.len() - i,
            {
                parts.push(marked_string_to_markdown(&ms[i]));
                i = i + 1;
            }
            proof {
                assert(texts(parts@) =~= ms@.map_values(|m: MarkedString| marked_text(m)));
            }
            join(parts.as_slice(), "\n\n")
        },
        HoverContents::Markup(m) => m.value.clone(),
    }
}

} // verus!
