//! What the settings of a repository come to.

use vstd::prelude::*;

use crate::backends::{coverage_pct, generate_step, holds_cxx, own_flag, GenerateStep};
use crate::batch::sha256_hex;
use crate::callgraph::is_cxx_file;
use crate::freshness::{manifest_bytes, manifest_hash};
use crate::indexing::{is_c_header, is_c_source};
use crate::launch::{listed_backends, wanted_backends};
use crate::lsp::{key_language, path_of, CxxLspBackend, LspManager};
use crate::paths::join_path_spec;
use crate::plan::{backends_wanted, is_shown, PlanFacts};
use crate::scope::{scope_names, RuleText};
use crate::settings::{
    compiled_spec, expand_path_spec, law_table_get_after_put, persisted_stats, settings_table,
    table_get, table_put, tuning_spec, tuning_table, BackendIntent, EntryText, PersistedText,
};
use crate::symbols::SymbolText;
use crate::text::{ascii_lower_text, split_on, trim_spec};
use crate::usages::is_cxx_symbol;

verus! {

proof fn lemma_found_after_put<T>(table: Seq<(Seq<char>, T)>, key: Seq<char>, value: T)
    ensures
        table_get(table_put(table, key, value), key) == Some(value),
{
    let other = key.push('x');
    assert(other.len() != key.len());
    law_table_get_after_put(table, key, value, other);
}

/// A repository has the settings of its last entry.
pub proof fn law_the_last_entry_of_a_repo_counts(
    entries: Seq<EntryText>,
    filter: Seq<Seq<char>>,
    scope: Seq<Seq<char>>,
    i: int,
)
    requires
        0 <= i < entries.len(),
        entries[i].key is Some,
        forall|j: int| i < j < entries.len() ==> (#[trigger] entries[j]).key != entries[i].key,
    ensures
        table_get(settings_table(entries, filter, scope), entries[i].key->0) == Some(
            compiled_spec(entries[i], filter, scope),
        ),
    decreases entries.len(),
{
    let front = entries.drop_last();
    let before = settings_table(front, filter, scope);
    let last = entries.last();
    let key = entries[i].key->0;
    if i == entries.len() - 1 {
        lemma_found_after_put(before, key, compiled_spec(last, filter, scope));
    } else {
        assert(front[i] == entries[i]);
        assert forall|j: int| i < j < front.len() implies (#[trigger] front[j]).key
            != front[i].key by {
            assert(front[j] == entries[j]);
        }
        law_the_last_entry_of_a_repo_counts(front, filter, scope, i);
        assert(entries[entries.len() - 1] == last);
        if last.key is Some {
            law_table_get_after_put(
                before,
                last.key->0,
                compiled_spec(last, filter, scope),
                key,
            );
        }
    }
}

/// What an entry says of the tag database and of the manifest is taken as it stands.
pub proof fn law_what_an_entry_says_is_kept(
    e: EntryText,
    filter: Seq<Seq<char>>,
    scope: Seq<Seq<char>>,
)
    ensures
        e.gtags is Some ==> compiled_spec(e, filter, scope).gtags_enabled == e.gtags->0.enabled
            && compiled_spec(e, filter, scope).gtags_generate == e.gtags->0.generate,
        e.gtags is None ==> compiled_spec(e, filter, scope).gtags_enabled is None,
        compiled_spec(e, filter, scope).compile_commands_min_coverage_pct
            == e.compile_commands_min_coverage_pct,
{
}

/// A repository's servers are tuned by its last entry that speaks of them.
pub proof fn law_the_last_tuning_counts(entries: Seq<EntryText>, i: int)
    requires
        0 <= i < entries.len(),
        entries[i].key is Some,
        entries[i].clangd is Some || entries[i].ccls is Some,
        forall|j: int| i < j < entries.len() ==> (#[trigger] entries[j]).key != entries[i].key,
    ensures
        table_get(tuning_table(entries), entries[i].key->0) == Some(tuning_spec(entries[i])),
    decreases entries.len(),
{
    let front = entries.drop_last();
    let before = tuning_table(front);
    let last = entries.last();
    let key = entries[i].key->0;
    if i == entries.len() - 1 {
        lemma_found_after_put(before, key, tuning_spec(last));
    } else {
        assert(front[i] == entries[i]);
        assert forall|j: int| i < j < front.len() implies (#[trigger] front[j]).key
            != front[i].key by {
            assert(front[j] == entries[j]);
        }
        law_the_last_tuning_counts(front, i);
        assert(entries[entries.len() - 1] == last);
        if last.key is Some && (last.clangd is Some || last.ccls is Some) {
            law_table_get_after_put(before, last.key->0, tuning_spec(last), key);
        }
    }
}

/// A repository's own word wins over that for all; without one, a manifest has to cover a quarter
/// of the sources.
pub proof fn law_a_repo_decides_for_itself(own: Option<bool>, all: bool, pct: usize)
    ensures
        own is Some ==> own_flag(own, all) == own->0,
        own is None ==> own_flag(own, all) == all,
        coverage_pct(Some(pct)) == pct,
        coverage_pct(None) == 25,
{
}

/// A configured path below the home directory is found there.
pub proof fn law_a_configured_path_is_expanded(rest: Seq<char>, home: Seq<char>, path: Seq<char>)
    ensures
        expand_path_spec("~/"@ + rest, Some(home)) == Some(join_path_spec(home, rest)),
        expand_path_spec("~/"@ + rest, None) is None,
        path.len() == 0 || path[0] != '~' ==> expand_path_spec(path, Some(home)) == Some(path),
{
    reveal_strlit("~");
    reveal_strlit("~/");
    let below = "~/"@ + rest;
    assert(below.subrange(0, 1) =~= "~"@);
    assert(below.subrange(0, 2) =~= "~/"@);
    assert(below.skip(2) =~= rest);
    if "~"@.is_prefix_of(path) {
        assert(path.subrange(0, 1)[0] == '~');
    }
}

/// The symbols of every saved file are loaded, and their files are counted.
pub proof fn law_every_saved_symbol_is_loaded(files: Seq<PersistedText>, i: int, k: int)
    requires
        0 <= i < files.len(),
        0 <= k < files[i].symbols.len(),
    ensures
        persisted_stats(files).symbols.contains(files[i].symbols[k]),
    decreases files.len(),
{
    let front = persisted_stats(files.drop_last()).symbols;
    let all = persisted_stats(files).symbols;
    let s = files[i].symbols[k];
    if i == files.len() - 1 {
        assert(all[front.len() + k] == s);
    } else {
        assert(files.drop_last()[i] == files[i]);
        law_every_saved_symbol_is_loaded(files.drop_last(), i, k);
        let j = choose|j: int| 0 <= j < front.len() && front[j] == s;
        assert(all[j] == s);
    }
}

// ---- servers ----

/// A server whose path is configured is started from there, without arguments.
pub proof fn law_a_configured_server_is_started(manager: LspManager, key: Seq<char>)
    ensures
        path_of(manager.config.server_paths@, key_language(key)) matches Some(path)
            ==> manager.command_spec(key) == Some((path, Seq::<Seq<char>>::empty())),
{
}

/// The installed servers are used where the list says so, in whatever case; else those it names.
pub proof fn law_which_servers_are_wanted(list: Seq<char>, installed: Seq<CxxLspBackend>)
    ensures
        ascii_lower_text(trim_spec(list)) == "auto"@ ==> wanted_backends(list, installed)
            == installed,
        ascii_lower_text(trim_spec(list)) != "auto"@ ==> wanted_backends(list, installed)
            == listed_backends(split_on(list, ',')),
{
}

/// A server sees a file exactly where it is on and, once a scope names a file of the repository,
/// where the scope names this one and it is a C or C++ source.
pub proof fn law_what_a_server_is_shown(
    off: bool,
    rules: Seq<RuleText>,
    files: Seq<(Seq<char>, Seq<char>)>,
    file: (Seq<char>, Seq<char>),
)
    ensures
        off ==> !is_shown(off, rules, files, file),
        !off && (forall|i: int|
            0 <= i < files.len() ==> !scope_names(
                rules,
                (#[trigger] files[i]).0,
                files[i].1,
            )) ==> is_shown(off, rules, files, file),
        !off && files.contains(file) && is_shown(off, rules, files, file) && (exists|i: int|
            0 <= i < files.len() && scope_names(rules, (#[trigger] files[i]).0, files[i].1))
            ==> scope_names(rules, file.0, file.1),
{
}

/// Servers or tags are wanted for an index that is not current, where one of them is there and
/// was not switched off.
pub proof fn law_when_backends_are_wanted(
    cached: bool,
    f: PlanFacts,
    lsp: BackendIntent,
    gtags: BackendIntent,
)
    ensures
        backends_wanted(cached, f, lsp, gtags) <==> {
            &&& !cached
            &&& (f.lsp_manager_enabled && lsp != BackendIntent::Off) || (f.gtags_manager && gtags
                != BackendIntent::Off)
        },
{
}

/// A tag database is made where there is none, for a repository of C or C++ that is not too
/// large, where that is intended, allowed and possible.
pub proof fn law_when_tags_are_made(
    cxx: bool,
    allowed: bool,
    intended: bool,
    exists_already: bool,
    files: usize,
    possible: bool,
)
    ensures
        generate_step(cxx, allowed, intended, exists_already, files, possible)
            == GenerateStep::Generate ==> cxx && allowed && intended && !exists_already && possible,
        exists_already ==> generate_step(cxx, allowed, intended, exists_already, files, possible)
            == GenerateStep::Leave,
        cxx && allowed && intended && !exists_already && possible && files <= 50_000 ==> generate_step(
            cxx,
            allowed,
            intended,
            exists_already,
            files,
            possible,
        ) == GenerateStep::Generate,
        cxx && allowed && intended && !exists_already && files > 50_000 ==> generate_step(
            cxx,
            allowed,
            intended,
            exists_already,
            files,
            possible,
        ) == GenerateStep::TooLarge,
{
}

/// A repository is one of C or C++ exactly where some file of it is a source or a header.
pub proof fn law_when_a_repo_is_of_the_c_family(files: Seq<Seq<char>>, i: int)
    requires
        0 <= i < files.len(),
        is_c_source(files[i]) || is_c_header(files[i]),
    ensures
        holds_cxx(files),
{
}

/// A symbol is put to the servers where some file of C's family defines it.
pub proof fn law_which_symbols_are_put_to_servers(
    symbols: Seq<SymbolText>,
    symbol: Seq<char>,
    i: int,
)
    ensures
        0 <= i < symbols.len() && symbols[i].name == symbol && is_cxx_file(symbols[i].file_path)
            ==> is_cxx_symbol(symbols, symbol),
        (forall|j: int| 0 <= j < symbols.len() ==> (#[trigger] symbols[j]).name != symbol)
            ==> !is_cxx_symbol(symbols, symbol),
{
}

// ---- manifests ----

/// A manifest counts only where it is used and some file of it could be read; it is told by the
/// digest of all that was read, one behind the other.
pub proof fn law_when_a_manifest_counts(used: bool, files: Seq<Option<Vec<u8>>>)
    ensures
        manifest_hash(used, files) is Some <==> used && exists|i: int|
            0 <= i < files.len() && #[trigger] files[i] is Some,
        manifest_hash(used, files) matches Some(hash) ==> hash == sha256_hex(manifest_bytes(files)),
{
}

/// What is digested is what the files hold, those that could not be read left out.
pub proof fn law_all_that_was_read_is_digested(files: Seq<Option<Vec<u8>>>, file: Option<Vec<u8>>)
    ensures
        file matches Some(bytes) ==> manifest_bytes(files.push(file)) == manifest_bytes(files)
            + bytes@,
        file is None ==> manifest_bytes(files.push(file)) == manifest_bytes(files),
{
    assert(files.push(file).drop_last() =~= files);
}

} // verus!
