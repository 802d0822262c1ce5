//! How the server is launched: profiles, the transport, and the backends.

use vstd::prelude::*;

use crate::args::{
    apply_bool_default, bool_default, discovery_url, format_discovery_url, is_loopback_bind_addr,
    is_loopback_spec,
};
use crate::lsp::{CxxLspBackend, LspConfig};
use crate::order::{sort_strings, sort_texts};
use crate::settings::{
    entry_texts, BackendIntent, CclsSettings, ClangdSettings, EntryText, GtagsSettings,
    RepoEntrySettings,
};
use crate::symbols::clone_text;
use crate::text::{
    ascii_lower_text, copy_texts, join, join_spec, opt_text, same_text, split_chars, split_on,
    texts, to_ascii_lower, to_chars, to_text, trim, trim_spec,
};

verus! {

// ---- profiles ----

/// What the command line says, as far as a profile can add to it.
#[derive(Debug)]
pub struct ServerArgs {
    pub repos: Vec<String>,
    pub repo_settings: Vec<RepoEntrySettings>,
    pub discover: Option<String>,
    pub preset: Option<String>,
    pub expose: Vec<String>,
    pub git: bool,
    pub call_graph: bool,
    pub persist: bool,
    pub watch: bool,
    pub lsp: bool,
    pub remote: bool,
    pub neural: bool,
    pub graph: bool,
    pub embedding_dim: Option<usize>,
    pub use_compile_commands: bool,
    pub compile_commands_path: Option<String>,
    pub keep_entries: Vec<String>,
}

/// A repository of a profile, with its overrides.
#[derive(Debug)]
pub struct ProfileRepo {
    pub path: String,
    pub settings: RepoEntrySettings,
}

/// A named set of defaults.
#[derive(Debug)]
pub struct Profile {
    pub name: String,
    pub repos: Vec<ProfileRepo>,
    pub clangd: Option<ClangdSettings>,
    pub ccls: Option<CclsSettings>,
    pub gtags: Option<GtagsSettings>,
    pub discover: Option<String>,
    pub preset: Option<String>,
    pub expose: Vec<String>,
    pub git: Option<bool>,
    pub call_graph: Option<bool>,
    pub persist: Option<bool>,
    pub watch: Option<bool>,
    pub lsp: Option<bool>,
    pub remote: Option<bool>,
    pub neural: Option<bool>,
    pub graph: Option<bool>,
    pub embedding_dim: Option<usize>,
    pub use_compile_commands: Option<bool>,
    pub compile_commands_path: Option<String>,
    pub keep_entries: Vec<String>,
}

/// A value of one's own, or else the default.
pub open spec fn or_default<T>(own: Option<T>, default: Option<T>) -> Option<T> {
    match own {
        Some(v) => Some(v),
        None => default,
    }
}

fn or_else<T: Copy>(own: Option<T>, default: Option<T>) -> (r: Option<T>)
    ensures
        r == or_default(own, default),
{
    match own {
        Some(v) => Some(v),
        None => default,
    }
}

pub open spec fn clangd_with(own: Option<ClangdSettings>, group: Option<ClangdSettings>) -> Option<
    ClangdSettings,
> {
    match (own, group) {
        (Some(o), Some(g)) => Some(
            ClangdSettings {
                enabled: or_default(o.enabled, g.enabled),
                jobs: or_default(o.jobs, g.jobs),
                background_index: or_default(o.background_index, g.background_index),
            },
        ),
        _ => or_default(own, group),
    }
}

pub open spec fn ccls_with(own: Option<CclsSettings>, group: Option<CclsSettings>) -> Option<
    CclsSettings,
> {
    match (own, group) {
        (Some(o), Some(g)) => Some(
            CclsSettings {
                enabled: or_default(o.enabled, g.enabled),
                threads: or_default(o.threads, g.threads),
                retain_in_memory: or_default(o.retain_in_memory, g.retain_in_memory),
                background_index: or_default(o.background_index, g.background_index),
            },
        ),
        _ => or_default(own, group),
    }
}

pub open spec fn gtags_with(own: Option<GtagsSettings>, group: Option<GtagsSettings>) -> Option<
    GtagsSettings,
> {
    match (own, group) {
        (Some(o), Some(g)) => Some(
            GtagsSettings {
                enabled: or_default(o.enabled, g.enabled),
                generate: or_default(o.generate, g.generate),
            },
        ),
        _ => or_default(own, group),
    }
}

/// The overrides of a repository, with the profile's defaults in what they leave open.
pub open spec fn with_defaults(
    e: EntryText,
    clangd: Option<ClangdSettings>,
    ccls: Option<CclsSettings>,
    gtags: Option<GtagsSettings>,
) -> EntryText {
    EntryText {
        clangd: clangd_with(e.clangd, clangd),
        ccls: ccls_with(e.ccls, ccls),
        gtags: gtags_with(e.gtags, gtags),
        ..e
    }
}

/// Folds the defaults of a profile into the overrides of one of its repositories.
pub fn with_group_defaults(
    e: &RepoEntrySettings,
    clangd: Option<ClangdSettings>,
    ccls: Option<CclsSettings>,
    gtags: Option<GtagsSettings>,
) -> (r: RepoEntrySettings)
    ensures
        r@ == with_defaults(e@, clangd, ccls, gtags),
{
    let own_clangd = match (e.clangd, clangd) {
        (Some(o), Some(g)) => Some(
            ClangdSettings {
                enabled: or_else(o.enabled, g.enabled),
                jobs: or_else(o.jobs, g.jobs),
                background_index: or_else(o.background_index, g.background_index),
            },
        ),
        (own, group) => or_else(own, group),
    };
    let own_ccls = match (e.ccls, ccls) {
        (Some(o), Some(g)) => Some(
            CclsSettings {
                enabled: or_else(o.enabled, g.enabled),
                threads: or_else(o.threads, g.threads),
                retain_in_memory: or_else(o.retain_in_memory, g.retain_in_memory),
                background_index: or_else(o.background_index, g.background_index),
            },
        ),
        (own, group) => or_else(own, group),
    };
    let own_gtags = match (e.gtags, gtags) {
        (Some(o), Some(g)) => Some(
            GtagsSettings {
                enabled: or_else(o.enabled, g.enabled),
                generate: or_else(o.generate, g.generate),
            },
        ),
        (own, group) => or_else(own, group),
    };
    RepoEntrySettings {
        key: clone_text(&e.key),
        index_filter: copy_texts(&e.index_filter),
        lsp_scope: copy_texts(&e.lsp_scope),
        gtags: own_gtags,
        clangd: own_clangd,
        ccls: own_ccls,
        compile_commands_min_coverage_pct: e.compile_commands_min_coverage_pct,
    }
}

pub open spec fn profile_paths(p: Profile) -> Seq<Seq<char>> {
    p.repos@.map_values(|r: ProfileRepo| r.path@)
}

pub open spec fn profile_entries(p: Profile) -> Seq<EntryText> {
    p.repos@.map_values(|r: ProfileRepo| with_defaults(r.settings@, p.clangd, p.ccls, p.gtags))
}

/// What the arguments are once a profile has filled in what they leave open.
pub open spec fn profile_applied(before: ServerArgs, after: ServerArgs, p: Profile) -> bool {
    &&& before.repos@.len() == 0 ==> texts(after.repos@) == profile_paths(p) && entry_texts(
        after.repo_settings@,
    ) == profile_entries(p)
    &&& before.repos@.len() > 0 ==> after.repos@ == before.repos@ && after.repo_settings@
        == before.repo_settings@
    &&& opt_text(after.discover) == or_default(opt_text(before.discover), opt_text(p.discover))
    &&& opt_text(after.preset) == or_default(opt_text(before.preset), opt_text(p.preset))
    &&& texts(after.expose@) == if before.expose@.len() == 0 {
        texts(p.expose@)
    } else {
        texts(before.expose@)
    }
    &&& after.git == bool_default(before.git, p.git)
    &&& after.call_graph == bool_default(before.call_graph, p.call_graph)
    &&& after.persist == bool_default(before.persist, p.persist)
    &&& after.watch == bool_default(before.watch, p.watch)
    &&& after.lsp == bool_default(before.lsp, p.lsp)
    &&& after.remote == bool_default(before.remote, p.remote)
    &&& after.neural == bool_default(before.neural, p.neural)
    &&& after.graph == bool_default(before.graph, p.graph)
    &&& after.embedding_dim == or_default(before.embedding_dim, p.embedding_dim)
    &&& after.use_compile_commands == bool_default(
        before.use_compile_commands,
        p.use_compile_commands,
    )
    &&& opt_text(after.compile_commands_path) == or_default(
        opt_text(before.compile_commands_path),
        opt_text(p.compile_commands_path),
    )
    &&& texts(after.keep_entries@) == if before.keep_entries@.len() == 0 {
        texts(p.keep_entries@)
    } else {
        texts(before.keep_entries@)
    }
}

fn fill_text(own: &mut Option<String>, default: &Option<String>)
    ensures
        opt_text(*final(own)) == or_default(opt_text(*old(own)), opt_text(*default)),
{
    if own.is_none() {
        *own = clone_text(default);
    }
}

fn fill_texts(own: &mut Vec<String>, default: &Vec<String>)
    ensures
        texts(final(own)@) == if old(own)@.len() == 0 {
            texts(default@)
        } else {
            texts(old(own)@)
        },
{
    if own.len() == 0 {
        *own = copy_texts(default);
    }
}

/// Fills in what the arguments leave open. What they say stands.
pub fn apply_profile(args: &mut ServerArgs, p: &Profile)
    ensures
        profile_applied(*old(args), *final(args), *p),
{
    if args.repos.len() == 0 {
        let mut repos: Vec<String> = Vec::new();
        let mut entries: Vec<RepoEntrySettings> = Vec::new();
        let mut i: usize = 0;
        while i < p.repos.len()
            invariant
                i <= p.repos@.len(),
                repos@.len() == i,
                entries@.len() == i,
                forall|j: int| 0 <= j < i ==> #[trigger] repos@[j]@ == p.repos@[j].path@,
                forall|j: int|
                    0 <= j < i ==> (#[trigger] entries@[j])@ == with_defaults(
                        p.repos@[j].settings@,
                        p.clangd,
                        p.ccls,
                        p.gtags,
                    ),
            decreases p.repos@.len() - i,
        {
            repos.push(p.repos[i].path.clone());
            entries.push(with_group_defaults(&p.repos[i].settings, p.clangd, p.ccls, p.gtags));
            i = i + 1;
        }
        proof {
            assert(texts(repos@) =~= profile_paths(*p));
            assert(entry_texts(entries@) =~= profile_entries(*p));
        }
        args.repos = repos;
        args.repo_settings = entries;
    }
    fill_text(&mut args.discover, &p.discover);
    fill_text(&mut args.preset, &p.preset);
    fill_texts(&mut args.expose, &p.expose);
    apply_bool_default(&mut args.git, p.git);
    apply_bool_default(&mut args.call_graph, p.call_graph);
    apply_bool_default(&mut args.persist, p.persist);
    apply_bool_default(&mut args.watch, p.watch);
    apply_bool_default(&mut args.lsp, p.lsp);
    apply_bool_default(&mut args.remote, p.remote);
    apply_bool_default(&mut args.neural, p.neural);
    apply_bool_default(&mut args.graph, p.graph);
    args.embedding_dim = or_else(args.embedding_dim, p.embedding_dim);
    apply_bool_default(&mut args.use_compile_commands, p.use_compile_commands);
    fill_text(&mut args.compile_commands_path, &p.compile_commands_path);
    fill_texts(&mut args.keep_entries, &p.keep_entries);
}

pub open spec fn profile_names(profiles: Seq<Profile>) -> Seq<Seq<char>> {
    profiles.map_values(|p: Profile| p.name@)
}

/// What is said of a profile that is not there.
pub open spec fn unknown_profile(name: Seq<char>, names: Seq<Seq<char>>) -> Seq<char> {
    "Unknown profile '"@ + name + "'. Available profiles: "@ + if names.len() == 0 {
        "<none>"@
    } else {
        join_spec(sort_texts(names), ", "@)
    }
}

fn unknown_profile_message(name: &str, profiles: &[Profile]) -> (r: String)
    ensures
        r@ == unknown_profile(name@, profile_names(profiles@)),
{
    let mut names: Vec<String> = Vec::new();
    let mut i: usize = 0;
    while i < profiles.len()
        invariant
            i <= profiles@.len(),
            names@.len() == i,
            forall|j: int| 0 <= j < i ==> #[trigger] names@[j]@ == profiles@[j].name@,
        decreases profiles@.len() - i,
    {
        names.push(profiles[i].name.clone());
        i = i + 1;
    }
    proof {
        assert(texts(names@) =~= profile_names(profiles@));
    }
    let mut out = "Unknown profile '".to_owned();
    out.append(name);
    out.append("'. Available profiles: ");
    if names.len() == 0 {
        out.append("<none>");
    } else {
        let sorted = sort_strings(names.as_slice());
        out.append(join(sorted.as_slice(), ", ").as_str());
    }
    out
}

/// Applies the profile that was named, if any. One that is not there is refused, and
/// leaves the arguments as they were.
pub fn apply_named_profile(args: &mut ServerArgs, profile: Option<&str>, profiles: &[Profile]) -> (r:
    Result<(), String>)
    ensures
        match profile {
            None => r is Ok && *final(args) == *old(args),
            Some(name) => match r {
                Ok(_) => exists|i: int|
                    0 <= i < profiles@.len() && (#[trigger] profiles@[i]).name@ == name@
                        && profile_applied(*old(args), *final(args), profiles@[i]) && forall|j: int|
                        0 <= j < i ==> (#[trigger] profiles@[j]).name@ != name@,
                Err(e) => e@ == unknown_profile(name@, profile_names(profiles@)) && *final(args)
                    == *old(args) && forall|j: int|
                    0 <= j < profiles@.len() ==> (#[trigger] profiles@[j]).name@ != name@,
            },
        },
{
    let name = match profile {
        Some(n) => n,
        None => {
            return Ok(());
        },
    };
    let mut i: usize = 0;
    while i < profiles.len()
        invariant
            i <= profiles@.len(),
            profile == Some(name),
            *args == *old(args),
            forall|j: int| 0 <= j < i ==> (#[trigger] profiles@[j]).name@ != name@,
        decreases profiles@.len() - i,
    {
        if same_text(profiles[i].name.as_str(), name) {
            apply_profile(args, &profiles[i]);
            return Ok(());
        }
        i = i + 1;
    }
    Err(unknown_profile_message(name, profiles))
}

/// What the command line says is authoritative: a profile changes no repository, path or
/// list that was given, and switches nothing off.
pub proof fn law_the_command_line_is_authoritative(
    before: ServerArgs,
    after: ServerArgs,
    p: Profile,
)
    requires
        profile_applied(before, after, p),
    ensures
        before.repos@.len() > 0 ==> after.repos@ == before.repos@,
        before.discover is Some ==> opt_text(after.discover) == opt_text(before.discover),
        before.preset is Some ==> opt_text(after.preset) == opt_text(before.preset),
        before.expose@.len() > 0 ==> texts(after.expose@) == texts(before.expose@),
        before.keep_entries@.len() > 0 ==> texts(after.keep_entries@) == texts(
            before.keep_entries@,
        ),
        before.embedding_dim is Some ==> after.embedding_dim == before.embedding_dim,
        before.compile_commands_path is Some ==> opt_text(after.compile_commands_path) == opt_text(
            before.compile_commands_path,
        ),
        before.git ==> after.git,
        before.call_graph ==> after.call_graph,
        before.persist ==> after.persist,
        before.watch ==> after.watch,
        before.lsp ==> after.lsp,
        before.remote ==> after.remote,
        before.neural ==> after.neural,
        before.graph ==> after.graph,
        before.use_compile_commands ==> after.use_compile_commands,
{
}

// ---- transport ----

/// How clients reach the server.
#[derive(Debug, Clone, Copy, PartialEq, Eq, Structural)]
pub enum Transport {
    Stdio,
    Sse,
}

impl Transport {
    pub open spec fn name_spec(self) -> Seq<char> {
        match self {
            Transport::Stdio => "stdio"@,
            Transport::Sse => "sse"@,
        }
    }

    pub fn name(self) -> (r: &'static str)
        ensures
            r@ == self.name_spec(),
    {
        match self {
            Transport::Stdio => "stdio",
            Transport::Sse => "sse",
        }
    }
}

pub open spec fn effective_transport_spec(
    asked: Transport,
    host_given: bool,
    port_given: bool,
) -> Transport {
    if host_given || port_given {
        Transport::Sse
    } else {
        asked
    }
}

/// The transport in force: an address to listen on asks for the one that listens.
pub fn effective_transport(asked: Transport, host_given: bool, port_given: bool) -> (r: Transport)
    ensures
        r == effective_transport_spec(asked, host_given, port_given),
{
    if asked == Transport::Stdio && (host_given || port_given) {
        Transport::Sse
    } else {
        asked
    }
}

/// Tells whether the working directory is indexed when nothing else is named. A server that
/// outlives its clients is not tied to a directory.
pub fn falls_back_to_cwd(transport: Transport) -> (r: bool)
    ensures
        r == (transport == Transport::Stdio),
        r == cwd_stands_in(transport),
{
    transport == Transport::Stdio
}

/// The working directory may stand in for the repositories.
pub open spec fn cwd_stands_in(transport: Transport) -> bool {
    transport == Transport::Stdio
}

pub const DEFAULT_SSE_PORT: u16 = 7557;

pub open spec fn sse_host_spec(host: Option<Seq<char>>) -> Seq<char> {
    match host {
        Some(h) => h,
        None => "127.0.0.1"@,
    }
}

pub open spec fn sse_port_spec(port: Option<u16>) -> u16 {
    match port {
        Some(p) => p,
        None => DEFAULT_SSE_PORT,
    }
}

pub open spec fn bind_refused(host: Seq<char>) -> Seq<char> {
    "--sse-host "@ + host
        + " is not a loopback address. Refusing to bind: the SSE transport has no authentication. Use 127.0.0.1, ::1, or localhost."@
}

/// Settles the address to listen on and the one that is published. Anything but the
/// machine's own loopback is refused: there is no authentication.
pub fn sse_address(host: Option<&str>, port: Option<u16>) -> (r: Result<
    (String, u16, String),
    String,
>)
    ensures
        ({
            let h = sse_host_spec(crate::text::str_text(host));
            match r {
                Ok(a) => is_loopback_spec(h) && a.0@ == h && a.1 == sse_port_spec(port) && a.2@
                    == discovery_url(h, sse_port_spec(port)),
                Err(e) => !is_loopback_spec(h) && e@ == bind_refused(h),
            }
        }),
{
    let h = match host {
        Some(given) => given.to_owned(),
        None => "127.0.0.1".to_owned(),
    };
    let p: u16 = match port {
        Some(given) => given,
        None => DEFAULT_SSE_PORT,
    };
    if !is_loopback_bind_addr(h.as_str()) {
        let mut out = "--sse-host ".to_owned();
        out.append(h.as_str());
        out.append(
            " is not a loopback address. Refusing to bind: the SSE transport has no authentication. Use 127.0.0.1, ::1, or localhost.",
        );
        return Err(out);
    }
    let url = format_discovery_url(h.as_str(), p);
    Ok((h, p, url))
}

// ---- backends ----

/// Tells whether a backend is used: as it is forced, or else where it is available.
pub fn backend_enabled(intent: BackendIntent, available: bool) -> (r: bool)
    ensures
        r == (match intent {
            BackendIntent::Off => false,
            BackendIntent::On => true,
            BackendIntent::Auto => available,
        }),
        r == backend_used(intent, available),
{
    match intent {
        BackendIntent::Off => false,
        BackendIntent::On => true,
        BackendIntent::Auto => available,
    }
}

pub open spec fn backend_used(intent: BackendIntent, available: bool) -> bool {
    match intent {
        BackendIntent::Off => false,
        BackendIntent::On => true,
        BackendIntent::Auto => available,
    }
}

pub open spec fn asks_auto(list: Seq<char>) -> bool {
    ascii_lower_text(trim_spec(list)) == "auto"@
}

pub open spec fn named_backend(name: Seq<char>) -> Option<CxxLspBackend> {
    if name == "clangd"@ {
        Some(CxxLspBackend::Clangd)
    } else if name == "ccls"@ {
        Some(CxxLspBackend::Ccls)
    } else {
        None
    }
}

/// The backends of a list of names. A name that is not known is passed over.
pub open spec fn listed_backends(names: Seq<Seq<char>>) -> Seq<CxxLspBackend>
    decreases names.len(),
{
    if names.len() == 0 {
        Seq::empty()
    } else {
        let front = listed_backends(names.drop_last());
        match named_backend(trim_spec(names.last())) {
            Some(b) => front.push(b),
            None => front,
        }
    }
}

/// The C and C++ backends asked for: those that are installed, or those that are named.
pub open spec fn wanted_backends(list: Seq<char>, installed: Seq<CxxLspBackend>) -> Seq<
    CxxLspBackend,
> {
    if asks_auto(list) {
        installed
    } else {
        listed_backends(split_on(list, ','))
    }
}

fn is_auto(list: &str) -> (r: bool)
    ensures
        r == asks_auto(list@),
{
    let lower = to_ascii_lower(trim(list).as_str());
    same_text(lower.as_str(), "auto")
}

fn copy_backends(list: &[CxxLspBackend]) -> (r: Vec<CxxLspBackend>)
    ensures
        r@ == list@,
{
    let mut out: Vec<CxxLspBackend> = Vec::new();
    let mut i: usize = 0;
    while i < list.len()
        invariant
            i <= list@.len(),
            out@ == list@.take(i as int),
        decreases list@.len() - i,
    {
        out.push(list[i]);
        proof {
            assert(out@ =~= list@.take(i + 1));
        }
        i = i + 1;
    }
    proof {
        assert(list@.take(list@.len() as int) =~= list@);
    }
    out
}

/// Settles the C and C++ backends from the list that was given.
pub fn cxx_backends(list: &str, installed: &[CxxLspBackend]) -> (r: Vec<CxxLspBackend>)
    ensures
        r@ == wanted_backends(list@, installed@),
{
    if is_auto(list) {
        return copy_backends(installed);
    }
    let chars = to_chars(list);
    let pieces = split_chars(chars.as_slice(), ',');
    let ghost all = pieces@.map_values(|p: Vec<char>| p@);
    proof {
        assert(all =~= split_on(list@, ','));
    }
    let mut out: Vec<CxxLspBackend> = Vec::new();
    let mut i: usize = 0;
    proof {
        assert(out@ =~= listed_backends(all.take(0)));
    }
    while i < pieces.len()
        invariant
            i <= pieces@.len(),
            all == pieces@.map_values(|p: Vec<char>| p@),
            out@ == listed_backends(all.take(i as int)),
        decreases pieces@.len() - i,
    {
        proof {
            assert(all.take(i + 1).drop_last() =~= all.take(i as int));
            assert(all.take(i + 1).last() == pieces@[i as int]@);
        }
        let name = trim(to_text(pieces[i].as_slice()).as_str());
        if same_text(name.as_str(), "clangd") {
            out.push(CxxLspBackend::Clangd);
        } else if same_text(name.as_str(), "ccls") {
            out.push(CxxLspBackend::Ccls);
        }
        i = i + 1;
    }
    proof {
        assert(all.take(all.len() as int) =~= all);
    }
    out
}

/// The languages a server is used for.
pub open spec fn served_languages() -> Seq<Seq<char>> {
    seq![
        "rust"@,
        "python"@,
        "typescript"@,
        "javascript"@,
        "go"@,
        "c"@,
        "cpp"@,
        "java"@,
    ]
}

pub open spec fn switch_texts(v: Seq<(String, bool)>) -> Seq<(Seq<char>, bool)> {
    v.map_values(|s: (String, bool)| (s.0@, s.1))
}

fn all_served() -> (r: Vec<(String, bool)>)
    ensures
        switch_texts(r@) == served_languages().map_values(|l: Seq<char>| (l, true)),
{
    let mut out: Vec<(String, bool)> = Vec::new();
    out.push(("rust".to_owned(), true));
    out.push(("python".to_owned(), true));
    out.push(("typescript".to_owned(), true));
    out.push(("javascript".to_owned(), true));
    out.push(("go".to_owned(), true));
    out.push(("c".to_owned(), true));
    out.push(("cpp".to_owned(), true));
    out.push(("java".to_owned(), true));
    proof {
        assert(switch_texts(out@) =~= served_languages().map_values(|l: Seq<char>| (l, true)));
    }
    out
}

/// Configures the language servers. Left to itself the server uses them where a C or C++
/// backend was found. A list that names no known backend keeps the usual one, while a search
/// that finds none leaves C and C++ without.
pub fn lsp_setup(
    intent: BackendIntent,
    list: &str,
    installed: &[CxxLspBackend],
    index_timeout_ms: u64,
) -> (r: LspConfig)
    ensures
        ({
            let wanted = wanted_backends(list@, installed@);
            let enabled = match intent {
                BackendIntent::Off => false,
                BackendIntent::On => true,
                BackendIntent::Auto => wanted.len() > 0,
            };
            &&& r.enabled == enabled
            &&& r.timeout_ms == 1500
            &&& r.server_paths@.len() == 0
            &&& enabled ==> r.index_timeout_ms == index_timeout_ms && switch_texts(
                r.enabled_languages@,
            ) == served_languages().map_values(|l: Seq<char>| (l, true)) && r.cxx_lsp_backends@
                == if asks_auto(list@) || wanted.len() > 0 {
                wanted
            } else {
                seq![CxxLspBackend::Clangd]
            }
            &&& !enabled ==> r.index_timeout_ms == 60000 && r.enabled_languages@.len() == 0
                && r.cxx_lsp_backends@ == seq![CxxLspBackend::Clangd]
        }),
{
    let mut config = LspConfig::default();
    let wanted = cxx_backends(list, installed);
    if backend_enabled(intent, wanted.len() > 0) {
        config.enabled = true;
        config.index_timeout_ms = index_timeout_ms;
        config.enabled_languages = all_served();
        if is_auto(list) || wanted.len() > 0 {
            config.cxx_lsp_backends = wanted;
        }
    }
    config
}

} // verus!
