//! How the server is started, and with what.

use vstd::prelude::*;

use crate::args::{
    bool_default, canonical_path_spec, discovery_url, existing_once, expand_tilde_spec,
    is_loopback_spec, law_existing_paths_are_kept_once, resolve_repo_paths_spec, RepoPathsError,
};
use crate::expose::{expose_rejection_spec, parse_groups_spec, ExposeGroup};
use crate::launch::{
    clangd_with, effective_transport_spec, gtags_with, listed_backends, named_backend, or_default,
    sse_host_spec, sse_port_spec, Transport,
};
use crate::lsp::CxxLspBackend;
use crate::paths::join_path_spec;
use crate::settings::{
    intent_spec, last_symbol_line, own_or_global, tuning_spec, BackendIntent, ClangdSettings,
    EntryText, GtagsSettings,
};
use crate::symbols::SymbolText;
use crate::text::{contains_text, decimal, occurs_at, trim_spec};

verus! {

// ---- the command line ----

/// What is given wins over a default.
pub proof fn law_what_is_given_wins<T>(own: Option<T>, default: Option<T>)
    ensures
        own is Some ==> or_default(own, default) == own,
        own is None ==> or_default(own, default) == default,
{
}

/// A flag is set where the command line or the profile sets it.
pub proof fn law_when_a_flag_is_set(target: bool, profile: Option<bool>)
    ensures
        bool_default(target, profile) <==> target || (profile is Some && profile->0),
{
}

/// A repository's own server settings win, field by field, over those of its group.
pub proof fn law_own_settings_win(own: ClangdSettings, group: ClangdSettings)
    ensures
        clangd_with(Some(own), None) == Some(own),
        clangd_with(None, Some(group)) == Some(group),
        ({
            let both = clangd_with(Some(own), Some(group))->0;
            &&& own.enabled is Some ==> both.enabled == own.enabled
            &&& own.enabled is None ==> both.enabled == group.enabled
            &&& own.jobs is Some ==> both.jobs == own.jobs
            &&& own.jobs is None ==> both.jobs == group.jobs
            &&& own.background_index is Some ==> both.background_index == own.background_index
            &&& own.background_index is None ==> both.background_index == group.background_index
        }),
{
}

/// So do its settings of the tag database.
pub proof fn law_own_tag_settings_win(own: GtagsSettings, group: GtagsSettings)
    ensures
        gtags_with(Some(own), None) == Some(own),
        gtags_with(None, Some(group)) == Some(group),
        ({
            let both = gtags_with(Some(own), Some(group))->0;
            &&& own.enabled is Some ==> both.enabled == own.enabled
            &&& own.enabled is None ==> both.enabled == group.enabled
            &&& own.generate is Some ==> both.generate == own.generate
            &&& own.generate is None ==> both.generate == group.generate
        }),
{
}

/// A host or a port asks for the network transport; else the one asked for is used.
pub proof fn law_which_transport_is_used(asked: Transport, host: bool, port: bool)
    ensures
        effective_transport_spec(asked, host, port) == Transport::Sse <==> host || port || asked
            == Transport::Sse,
{
}

/// Without a host, the server listens to its own machine.
pub proof fn law_the_server_listens_locally(host: Seq<char>, port: u16)
    ensures
        sse_host_spec(None) == "127.0.0.1"@,
        is_loopback_spec(sse_host_spec(None)),
        sse_host_spec(Some(host)) == host,
        sse_port_spec(Some(port)) == port,
{
}

/// Only names and addresses of the machine itself are local.
pub proof fn law_which_hosts_are_local(host: Seq<char>)
    ensures
        is_loopback_spec(host) <==> host == "localhost"@ || host == "127.0.0.1"@ || host == "::1"@
            || host == "[::1]"@,
{
}

/// The address of the server names the host and the port; a bare IPv6 address stands in brackets.
pub proof fn law_the_address_of_the_server(host: Seq<char>, port: u16)
    ensures
        !host.contains(':') ==> discovery_url(host, port) == "http://"@ + host + ":"@ + decimal(
            port as nat,
        ),
        host.contains(':') && host[0] != '[' ==> discovery_url(host, port) == "http://["@ + host
            + "]:"@ + decimal(port as nat),
        host.len() > 0 && host[0] == '[' ==> discovery_url(host, port) == "http://"@ + host + ":"@
            + decimal(port as nat),
{
    reveal_strlit(":");
    reveal_strlit("[");
    let colon = ":"@;
    if host.contains(':') {
        let k = choose|k: int| 0 <= k < host.len() && host[k] == ':';
        assert(host.subrange(k, k + 1) =~= colon);
        assert(occurs_at(host, colon, k));
    }
    if contains_text(host, colon) {
        let k = choose|k: int| occurs_at(host, colon, k);
        assert(host.subrange(k, k + 1)[0] == ':');
        assert(host[k] == ':');
    }
    if host.len() > 0 && host[0] == '[' {
        assert(host.subrange(0, 1) =~= "["@);
    }
    if "["@.is_prefix_of(host) {
        assert(host.subrange(0, 1)[0] == '[');
    }
}

/// A tilde alone is the home directory, and one before a slash leads below it; any other path
/// stays as it is.
pub proof fn law_a_tilde_is_the_home_directory(rest: Seq<char>, home: Seq<char>, path: Seq<char>)
    ensures
        expand_tilde_spec("~"@, Some(home)) == Some(home),
        expand_tilde_spec("~/"@ + rest, Some(home)) == Some(join_path_spec(home, rest)),
        path.len() == 0 || path[0] != '~' ==> expand_tilde_spec(path, Some(home)) == Some(path)
            && expand_tilde_spec(path, None) == Some(path),
        expand_tilde_spec("~/"@ + rest, None) is None,
{
    reveal_strlit("~");
    reveal_strlit("~/");
    reveal_strlit("/");
    let tilde = "~"@;
    assert(tilde.subrange(0, 1) =~= tilde);
    assert(tilde.skip(1).len() == 0);
    let below = "~/"@ + rest;
    assert(below.subrange(0, 1) =~= tilde);
    let stripped = below.skip(1);
    assert(stripped.subrange(0, 1) =~= "/"@);
    assert(stripped.skip(1) =~= rest);
    if tilde.is_prefix_of(path) {
        assert(path.subrange(0, 1)[0] == '~');
    }
}

/// Away from Windows a path stays as it is; there its verbatim prefix goes.
pub proof fn law_a_verbatim_prefix_goes(path: Seq<char>)
    ensures
        canonical_path_spec(path, false) == path,
        canonical_path_spec("\\\\?\\UNC\\"@ + path, true) == "\\\\"@ + path,
{
    let unc = "\\\\?\\UNC\\"@;
    assert((unc + path).subrange(0, unc.len() as int) =~= unc);
    assert((unc + path).skip(unc.len() as int) =~= path);
}

/// Every named repository that is there is served, once; without a name the working directory is,
/// where that is allowed.
pub proof fn law_which_repos_are_served(
    named: Seq<Option<Seq<char>>>,
    more: Seq<Option<Seq<char>>>,
    fallback: bool,
    cwd: Option<Option<Seq<char>>>,
    path: Seq<char>,
)
    requires
        named.contains(Some(path)) || more.contains(Some(path)),
    ensures
        resolve_repo_paths_spec(named, Some(more), fallback, cwd) matches Ok(paths)
            && paths.contains(path) && paths.no_duplicates(),
{
    let all = named + more;
    law_existing_paths_are_kept_once(all);
    if named.contains(Some(path)) {
        let k = choose|k: int| 0 <= k < named.len() && named[k] == Some(path);
        assert(all[k] == Some(path));
    } else {
        let k = choose|k: int| 0 <= k < more.len() && more[k] == Some(path);
        assert(all[named.len() + k] == Some(path));
    }
    let valid = existing_once(all);
    assert(valid.contains(path));
    let j = choose|j: int| 0 <= j < valid.len() && valid[j] == path;
}

/// Without repositories nothing is served, unless the working directory may stand in for them.
pub proof fn law_when_the_working_directory_is_served(
    fallback: bool,
    cwd: Option<Option<Seq<char>>>,
)
    ensures
        !fallback ==> resolve_repo_paths_spec(Seq::empty(), None, fallback, cwd) == Err::<
            Seq<Seq<char>>,
            RepoPathsError,
        >(RepoPathsError::NoneSpecified),
        fallback && cwd is Some && cwd->0 is Some ==> (resolve_repo_paths_spec(
            Seq::empty(),
            None,
            fallback,
            cwd,
        ) matches Ok(paths) && paths.contains(cwd->0->0) && paths.len() == 1),
        fallback && cwd is None ==> resolve_repo_paths_spec(Seq::empty(), None, fallback, cwd)
            is Err,
{
    if fallback && cwd is Some && cwd->0 is Some {
        let all = seq![cwd->0];
        assert(all.drop_last().len() == 0);
        reveal_with_fuel(existing_once, 3);
        let one = existing_once(all);
        assert(one[0] == cwd->0->0);
    }
}

// ---- tools and groups ----

/// A tool of a group that is not selected is refused, by its name; one of a selected group is
/// not.
pub proof fn law_which_tools_are_refused(expose: Seq<ExposeGroup>, tool: Seq<char>)
    requires
        expose.len() > 0,
        ExposeGroup::of_spec(tool) is Some,
    ensures
        expose_rejection_spec(expose, tool) is None <==> ExposeGroup::of_spec(tool)->0
            == ExposeGroup::Base || expose.contains(ExposeGroup::of_spec(tool)->0),
        expose_rejection_spec(expose, tool) is Some ==> contains_text(
            expose_rejection_spec(expose, tool)->0,
            "Tool '"@ + tool,
        ),
{
    if expose_rejection_spec(expose, tool) is Some {
        let text = expose_rejection_spec(expose, tool)->0;
        let p = "Tool '"@ + tool;
        assert(text.subrange(0, p.len() as int) =~= p);
        assert(occurs_at(text, p, 0));
    }
}

/// A group is selected by its name, and only the base group, which is always served, has none.
pub proof fn law_a_group_is_selected_by_its_name(group: ExposeGroup, name: Seq<char>)
    ensures
        group != ExposeGroup::Base ==> ExposeGroup::parse_spec(group.name_spec()) == Some(group),
        ExposeGroup::parse_spec(name) matches Some(g) ==> g.name_spec() == name && g
            != ExposeGroup::Base,
{
    reveal_strlit("code");
    reveal_strlit("git");
    reveal_strlit("analysis");
    reveal_strlit("lint");
    reveal_strlit("security");
    reveal_strlit("supply-chain");
    reveal_strlit("retrieval");
    reveal_strlit("base");
    let own = group.name_spec();
    assert("git"@.len() == 3 && "code"@.len() == 4 && "lint"@.len() == 4 && "analysis"@.len() == 8
        && "security"@.len() == 8 && "supply-chain"@.len() == 12 && "retrieval"@.len() == 9);
    assert("code"@[0] == 'c' && "lint"@[0] == 'l');
    assert("analysis"@[0] == 'a' && "security"@[0] == 's');
}

proof fn lemma_groups(names: Seq<Seq<char>>)
    ensures
        match parse_groups_spec(names) {
            Ok(groups) => groups.len() == names.len() && forall|i: int|
                0 <= i < names.len() ==> ExposeGroup::parse_spec(#[trigger] names[i]) == Some(
                    groups[i],
                ),
            Err(name) => names.contains(name) && ExposeGroup::parse_spec(name) is None,
        },
    decreases names.len(),
{
    if names.len() > 0 {
        let front = names.drop_last();
        lemma_groups(front);
        assert(names[names.len() - 1] == names.last());
        match parse_groups_spec(front) {
            Ok(groups) => {
                if parse_groups_spec(names) is Ok {
                    let all = parse_groups_spec(names)->Ok_0;
                    assert forall|i: int| 0 <= i < names.len() implies ExposeGroup::parse_spec(
                        #[trigger] names[i],
                    ) == Some(all[i]) by {
                        if i < front.len() {
                            assert(front[i] == names[i]);
                        }
                    }
                }
            },
            Err(name) => {
                let k = choose|k: int| 0 <= k < front.len() && front[k] == name;
                assert(names[k] == name);
            },
        }
    }
}

/// A selection is read where every name is that of a group; else a name that is none is given
/// back.
pub proof fn law_when_a_selection_is_read(names: Seq<Seq<char>>)
    ensures
        parse_groups_spec(names) is Ok <==> forall|i: int|
            0 <= i < names.len() ==> ExposeGroup::parse_spec(#[trigger] names[i]) is Some,
        parse_groups_spec(names) matches Err(name) ==> names.contains(name)
            && ExposeGroup::parse_spec(name) is None,
{
    lemma_groups(names);
    if parse_groups_spec(names) is Err {
        let name = parse_groups_spec(names)->Err_0;
        let k = choose|k: int| 0 <= k < names.len() && names[k] == name;
        assert(ExposeGroup::parse_spec(names[k]) is None);
    }
}

// ---- servers ----

/// Every server that a list names is used, with the white space around its name passed over.
pub proof fn law_listed_servers_are_used(names: Seq<Seq<char>>, i: int)
    requires
        0 <= i < names.len(),
    ensures
        trim_spec(names[i]) == "clangd"@ ==> listed_backends(names).contains(CxxLspBackend::Clangd),
        trim_spec(names[i]) == "ccls"@ ==> listed_backends(names).contains(CxxLspBackend::Ccls),
    decreases names.len(),
{
    reveal_strlit("clangd");
    reveal_strlit("ccls");
    assert("clangd"@.len() == 6 && "ccls"@.len() == 4);
    let front = listed_backends(names.drop_last());
    let all = listed_backends(names);
    if i == names.len() - 1 {
        if named_backend(trim_spec(names[i])) is Some {
            assert(all[all.len() - 1] == named_backend(trim_spec(names[i]))->0);
        }
    } else {
        assert(names.drop_last()[i] == names[i]);
        law_listed_servers_are_used(names.drop_last(), i);
        assert forall|b: CxxLspBackend| front.contains(b) implies all.contains(b) by {
            let k = choose|k: int| 0 <= k < front.len() && front[k] == b;
            assert(all[k] == b);
        }
    }
}

/// Switching a backend off wins over switching it on; without either it decides by itself.
pub proof fn law_off_wins(on: bool, off: bool)
    ensures
        intent_spec(on, off) == BackendIntent::Off <==> off,
        intent_spec(on, off) == BackendIntent::On <==> on && !off,
        intent_spec(on, off) == BackendIntent::Auto <==> !on && !off,
{
}

/// A server runs for a repository unless its settings say otherwise.
pub proof fn law_servers_run_unless_switched_off(e: EntryText)
    ensures
        tuning_spec(e).clangd_enabled <==> !(e.clangd is Some && e.clangd->0.enabled == Some(
            false,
        )),
        tuning_spec(e).ccls_enabled <==> !(e.ccls is Some && e.ccls->0.enabled == Some(false)),
        tuning_spec(e).clangd_background_index <==> !(e.clangd is Some
            && e.clangd->0.background_index == Some(false)),
        tuning_spec(e).ccls_background_index <==> !(e.ccls is Some && e.ccls->0.background_index
            == Some(false)),
{
}

/// A repository's own rules are used in place of those of all, where it has any.
pub proof fn law_own_rules_are_used(own: Seq<Seq<char>>, all: Seq<Seq<char>>)
    ensures
        own.len() > 0 ==> own_or_global(own, all) == crate::scope::scope_rules(own),
        own.len() == 0 ==> own_or_global(own, all) == crate::scope::scope_rules(all),
{
}

/// The last line of a file that a symbol reaches.
pub proof fn law_how_far_the_symbols_reach(symbols: Seq<SymbolText>)
    ensures
        forall|i: int|
            0 <= i < symbols.len() ==> (#[trigger] symbols[i]).end_line <= last_symbol_line(symbols),
        symbols.len() > 0 && last_symbol_line(symbols) > 0 ==> exists|i: int|
            0 <= i < symbols.len() && (#[trigger] symbols[i]).end_line == last_symbol_line(symbols),
    decreases symbols.len(),
{
    if symbols.len() > 0 {
        let front = symbols.drop_last();
        law_how_far_the_symbols_reach(front);
        assert(symbols[symbols.len() - 1] == symbols.last());
        assert forall|i: int| 0 <= i < symbols.len() implies (#[trigger] symbols[i]).end_line
            <= last_symbol_line(symbols) by {
            if i < front.len() {
                assert(front[i] == symbols[i]);
            }
        }
        if last_symbol_line(symbols) > 0 && symbols.last().end_line <= last_symbol_line(front) {
            let i = choose|i: int|
                0 <= i < front.len() && (#[trigger] front[i]).end_line == last_symbol_line(front);
            assert(symbols[i].end_line == last_symbol_line(symbols));
        }
    }
}

} // verus!
