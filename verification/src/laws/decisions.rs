//! What is decided before any work is done.

use vstd::prelude::*;

use crate::backends::{cache_state_spec, refresh_step, tags_used, RefreshStep};
use crate::callgraph::{file_question, pass_runs, FileQuestion};
use crate::indexing::covers_too_little;
use crate::languages::{is_c_header_ext_spec, is_c_source_ext_spec};
use crate::launch::{backend_used, cwd_stands_in, Transport};
use crate::lookup::kind_filter_spec;
use crate::lsp::site_line;
use crate::settings::BackendIntent;
use crate::symbols::SymbolKind;

verus! {

/// A tag database is never used where it is missing, has no program or is not intended, and is
/// used else.
pub proof fn law_when_tags_are_used(manager: bool, intended: bool, there: bool)
    ensures
        tags_used(manager, intended, there) ==> manager,
        tags_used(manager, intended, there) ==> intended,
        tags_used(manager, intended, there) ==> there,
        tags_used(true, true, true),
{
}

/// What was cached is taken over or read as the earlier state, never both, and one of them always.
pub proof fn law_a_cached_index_is_used_one_way(cached: bool, matches: bool)
    ensures
        cache_state_spec(cached, matches).symbols_cached ==> matches,
        cache_state_spec(cached, matches).load_prior ==> !matches,
        cached <==> cache_state_spec(cached, matches).symbols_cached != cache_state_spec(
            cached,
            matches,
        ).load_prior,
        !(cache_state_spec(cached, matches).symbols_cached && cache_state_spec(
            cached,
            matches,
        ).load_prior),
{
}

/// A tag database is refreshed only where it is stale, and may and can be; where it is stale and
/// it cannot, there is a warning; one that is not stale is left alone.
pub proof fn law_when_tags_are_refreshed(
    cxx: bool,
    intended: bool,
    there: bool,
    stale: bool,
    may: bool,
    program: bool,
)
    ensures
        refresh_step(cxx, intended, there, stale, may, program) == RefreshStep::Refresh ==> stale
            && there && may && program && cxx && intended,
        refresh_step(cxx, intended, there, stale, may, program) == RefreshStep::Warn ==> stale && (
        !may || !program),
        !stale ==> refresh_step(cxx, intended, there, stale, may, program) == RefreshStep::Leave,
        refresh_step(true, true, true, true, true, true) == RefreshStep::Refresh,
        !may || !program ==> refresh_step(true, true, true, true, may, program)
            == RefreshStep::Warn,
{
}

/// The pass over all calls runs exactly with a server, with a manifest, and not switched off.
pub proof fn law_when_the_call_pass_runs(lsp: bool, off: bool, manifest: bool)
    ensures
        !lsp ==> !pass_runs(lsp, off, manifest),
        off ==> !pass_runs(lsp, off, manifest),
        !manifest ==> !pass_runs(lsp, off, manifest),
        pass_runs(true, false, true),
{
}

/// A file is asked about within half a minute, inside the repository and the scope.
pub proof fn law_when_a_file_is_asked_about(allowed: bool, inside: bool, nanos: u128)
    ensures
        file_question(allowed, inside, nanos) == FileQuestion::Ask <==> allowed && inside && nanos
            <= 30_000_000_000,
        file_question(allowed, inside, nanos) == FileQuestion::PassOver <==> !allowed || !inside,
{
}

/// Only a server that serves one client stands in its working directory.
pub proof fn law_who_stands_in_a_directory(t: Transport)
    ensures
        cwd_stands_in(Transport::Stdio),
        !cwd_stands_in(Transport::Sse),
{
}

/// What was switched on is used, what was switched off is not, and else what is there is.
pub proof fn law_which_backends_are_used(intent: BackendIntent, available: bool)
    ensures
        backend_used(BackendIntent::On, available),
        !backend_used(BackendIntent::Off, available),
        backend_used(BackendIntent::Auto, available) == available,
{
}

/// A call is where the caller makes it, counted from one.
pub proof fn law_where_a_call_is(line: u32, callee: u32)
    ensures
        site_line(Some(line), callee) - line == 1,
        site_line(None, callee) - callee == 1,
{
}

/// A manifest that lists every source covers enough, one that lists none of them does not; and
/// covering more never turns enough into too little.
pub proof fn law_when_a_manifest_covers_enough(covered: nat, more: nat, sources: nat, pct: nat)
    requires
        pct <= 100,
        covered <= more,
    ensures
        !covers_too_little(sources, sources, pct),
        sources > 0 && pct > 0 ==> covers_too_little(0, sources, pct),
        !covers_too_little(covered, sources, pct) ==> !covers_too_little(more, sources, pct),
{
    assert(sources * pct <= sources * 100) by (nonlinear_arith)
        requires
            pct <= 100,
    ;
    if sources > 0 && pct > 0 {
        assert(sources * pct > 0) by (nonlinear_arith)
            requires
                sources > 0,
                pct > 0,
        ;
    }
}

/// A kind is asked for by its name.
pub proof fn law_a_kind_is_asked_for_by_its_name(name: Seq<char>)
    ensures
        kind_filter_spec(name) == Some(SymbolKind::Struct) <==> name == "struct"@,
        kind_filter_spec(name) == Some(SymbolKind::Class) <==> name == "class"@,
        kind_filter_spec(name) == Some(SymbolKind::Enum) <==> name == "enum"@,
        kind_filter_spec(name) == Some(SymbolKind::Interface) <==> name == "interface"@,
        kind_filter_spec(name) == Some(SymbolKind::Function) <==> name == "function"@,
        kind_filter_spec(name) == Some(SymbolKind::Method) <==> name == "method"@,
        kind_filter_spec(name) == Some(SymbolKind::Trait) <==> name == "trait"@,
        kind_filter_spec(name) == Some(SymbolKind::TypeAlias) <==> name == "type"@,
{
    reveal_strlit("struct");
    reveal_strlit("class");
    reveal_strlit("enum");
    reveal_strlit("interface");
    reveal_strlit("function");
    reveal_strlit("method");
    reveal_strlit("trait");
    reveal_strlit("type");
    assert("struct"@[0] == 's' && "method"@[0] == 'm');
    assert("class"@[0] == 'c' && "trait"@[0] == 't');
    assert("enum"@[0] == 'e' && "type"@[0] == 't');
    assert("struct"@.len() == 6 && "class"@.len() == 5 && "enum"@.len() == 4 && "interface"@.len()
        == 9 && "function"@.len() == 8 && "method"@.len() == 6 && "trait"@.len() == 5
        && "type"@.len() == 4);
}

/// Sources and headers of C and C++ are told apart by their extension.
pub proof fn law_sources_and_headers_are_told_apart(e: Seq<char>)
    ensures
        e == "c"@ || e == "cpp"@ || e == "cc"@ || e == "cxx"@ || e == "c++"@ || e == "C"@
            ==> is_c_source_ext_spec(e) && !is_c_header_ext_spec(e),
        e == "h"@ || e == "hpp"@ || e == "hh"@ || e == "hxx"@ || e == "h++"@
            ==> is_c_header_ext_spec(e) && !is_c_source_ext_spec(e),
        e == "rs"@ || e == "py"@ ==> !is_c_source_ext_spec(e) && !is_c_header_ext_spec(e),
{
    reveal_strlit("c");
    reveal_strlit("cpp");
    reveal_strlit("cc");
    reveal_strlit("cxx");
    reveal_strlit("c++");
    reveal_strlit("C");
    reveal_strlit("S");
    reveal_strlit("s");
    reveal_strlit("h");
    reveal_strlit("hpp");
    reveal_strlit("hh");
    reveal_strlit("hxx");
    reveal_strlit("h++");
    reveal_strlit("rs");
    reveal_strlit("py");
    assert("c"@[0] == 'c' && "C"@[0] == 'C' && "S"@[0] == 'S' && "s"@[0] == 's' && "h"@[0] == 'h');
    assert("cc"@[0] == 'c' && "hh"@[0] == 'h' && "rs"@[0] == 'r' && "py"@[0] == 'p');
    assert("cpp"@[0] == 'c' && "cxx"@[0] == 'c' && "c++"@[0] == 'c' && "hpp"@[0] == 'h'
        && "hxx"@[0] == 'h' && "h++"@[0] == 'h');
    assert("c"@.len() == 1 && "cc"@.len() == 2 && "cpp"@.len() == 3);
}

} // verus!
