//! How the uses that a text search finds and those that servers report are put together.

use vstd::prelude::*;

use crate::callgraph::ReferenceText;
use crate::laws::answers::{
    lemma_held_by_end, lemma_held_by_front, lemma_held_by_itself, lemma_held_by_part,
};
use crate::laws::lists::{lemma_filter_members, lemma_sorted_members};
use crate::order::sort_stable;
use crate::symbols::SymbolText;
use crate::text::{concat, contains_text, decimal};
use crate::usages::{
    all_missed, at_same_place, definition_row, definitions_part, export_map_spec, export_row,
    exported_symbols, is_confirmed, is_mentioned, marked_mention, missed_by_text, rows_once,
    telling_answers, usage_order, usage_row, usage_table, validated_rows, AnswerText, UsageText,
};

verus! {

/// Whether a use is at the line of the file.
pub open spec fn is_at(u: UsageText, file: Seq<char>, line: usize) -> bool {
    u.file == file && u.line == line
}

proof fn lemma_once_members(rows: Seq<UsageText>)
    ensures
        forall|k: int|
            0 <= k < rows_once(rows).len() ==> rows.contains(#[trigger] rows_once(rows)[k]),
    decreases rows.len(),
{
    if rows.len() > 0 {
        let front = rows_once(rows.drop_last());
        let all = rows_once(rows);
        lemma_once_members(rows.drop_last());
        assert(rows[rows.len() - 1] == rows.last());
        assert forall|k: int| 0 <= k < all.len() implies rows.contains(#[trigger] all[k]) by {
            if k < front.len() {
                assert(all[k] == front[k]);
                let m = choose|m: int|
                    0 <= m < rows.drop_last().len() && rows.drop_last()[m] == front[k];
                assert(rows[m] == front[k]);
            }
        }
    }
}

proof fn lemma_once_keeps_places(rows: Seq<UsageText>, i: int)
    requires
        0 <= i < rows.len(),
    ensures
        exists|k: int|
            0 <= k < rows_once(rows).len() && is_at(
                #[trigger] rows_once(rows)[k],
                rows[i].file,
                rows[i].line,
            ),
    decreases rows.len(),
{
    let front = rows_once(rows.drop_last());
    let all = rows_once(rows);
    if i == rows.len() - 1 {
        if front.len() > 0 && at_same_place(front.last(), rows.last()) {
            assert(all == front);
            assert(is_at(all[all.len() - 1], rows[i].file, rows[i].line));
        } else {
            assert(is_at(all[all.len() - 1], rows[i].file, rows[i].line));
        }
    } else {
        assert(rows.drop_last()[i] == rows[i]);
        lemma_once_keeps_places(rows.drop_last(), i);
        let k = choose|k: int|
            0 <= k < front.len() && is_at(#[trigger] front[k], rows[i].file, rows[i].line);
        assert(all[k] == front[k]);
    }
}

/// All rows before they are put in order.
spec fn all_rows(usages: Seq<UsageText>, answers: Seq<AnswerText>) -> Seq<UsageText> {
    usages.map_values(|u: UsageText| marked_mention(u, answers)) + all_missed(answers, usages)
}

proof fn lemma_row_of_place(
    usages: Seq<UsageText>,
    answers: Seq<AnswerText>,
    r: UsageText,
)
    requires
        all_rows(usages, answers).contains(r),
    ensures
        exists|k: int|
            0 <= k < validated_rows(usages, answers).len() && is_at(
                #[trigger] validated_rows(usages, answers)[k],
                r.file,
                r.line,
            ),
{
    let all = all_rows(usages, answers);
    let sorted = sort_stable(all, usage_order());
    lemma_sorted_members(all, usage_order(), r);
    let i = choose|i: int| 0 <= i < sorted.len() && sorted[i] == r;
    lemma_once_keeps_places(sorted, i);
    assert(validated_rows(usages, answers) == rows_once(sorted));
}

/// Every use that the text search found has its row.
pub proof fn law_every_use_found_has_a_row(
    usages: Seq<UsageText>,
    answers: Seq<AnswerText>,
    i: int,
)
    requires
        0 <= i < usages.len(),
    ensures
        exists|k: int|
            0 <= k < validated_rows(usages, answers).len() && is_at(
                #[trigger] validated_rows(usages, answers)[k],
                usages[i].file,
                usages[i].line,
            ),
{
    let all = all_rows(usages, answers);
    let r = marked_mention(usages[i], answers);
    assert(all[i] == r);
    lemma_row_of_place(usages, answers, r);
}

proof fn lemma_missed_by_text(
    label: Seq<char>,
    references: Seq<ReferenceText>,
    usages: Seq<UsageText>,
    j: int,
)
    requires
        0 <= j < references.len(),
        !is_mentioned(usages, references[j].file_path, references[j].line),
    ensures
        missed_by_text(label, references, usages).contains(
            (UsageText {
                file: references[j].file_path,
                line: references[j].line,
                label: label + "-only"@,
            }),
        ),
    decreases references.len(),
{
    let row = UsageText {
        file: references[j].file_path,
        line: references[j].line,
        label: label + "-only"@,
    };
    let front = missed_by_text(label, references.drop_last(), usages);
    let all = missed_by_text(label, references, usages);
    if j == references.len() - 1 {
        assert(all[all.len() - 1] == row);
    } else {
        assert(references.drop_last()[j] == references[j]);
        lemma_missed_by_text(label, references.drop_last(), usages, j);
        let k = choose|k: int| 0 <= k < front.len() && front[k] == row;
        assert(all[k] == row);
    }
}

proof fn lemma_all_missed(
    answers: Seq<AnswerText>,
    usages: Seq<UsageText>,
    a: int,
    j: int,
)
    requires
        0 <= a < answers.len(),
        0 <= j < answers[a].references.len(),
        !is_mentioned(
            usages,
            answers[a].references[j].file_path,
            answers[a].references[j].line,
        ),
    ensures
        all_missed(answers, usages).contains(
            (UsageText {
                file: answers[a].references[j].file_path,
                line: answers[a].references[j].line,
                label: answers[a].label + "-only"@,
            }),
        ),
    decreases answers.len(),
{
    let row = UsageText {
        file: answers[a].references[j].file_path,
        line: answers[a].references[j].line,
        label: answers[a].label + "-only"@,
    };
    let front = all_missed(answers.drop_last(), usages);
    let all = all_missed(answers, usages);
    if a == answers.len() - 1 {
        let last = missed_by_text(answers[a].label, answers[a].references, usages);
        lemma_missed_by_text(answers[a].label, answers[a].references, usages, j);
        let k = choose|k: int| 0 <= k < last.len() && last[k] == row;
        assert(all[front.len() + k] == row);
    } else {
        assert(answers.drop_last()[a] == answers[a]);
        lemma_all_missed(answers.drop_last(), usages, a, j);
        let k = choose|k: int| 0 <= k < front.len() && front[k] == row;
        assert(all[k] == row);
    }
}

/// Every use that a server reported has its row too, whether the text search found it or not.
pub proof fn law_every_reported_use_has_a_row(
    usages: Seq<UsageText>,
    answers: Seq<AnswerText>,
    a: int,
    j: int,
)
    requires
        0 <= a < answers.len(),
        0 <= j < answers[a].references.len(),
    ensures
        exists|k: int|
            0 <= k < validated_rows(usages, answers).len() && is_at(
                #[trigger] validated_rows(usages, answers)[k],
                answers[a].references[j].file_path,
                answers[a].references[j].line,
            ),
{
    let r = answers[a].references[j];
    if is_mentioned(usages, r.file_path, r.line) {
        let i = choose|i: int|
            0 <= i < usages.len() && #[trigger] usages[i].file == r.file_path && usages[i].line
                == r.line;
        law_every_use_found_has_a_row(usages, answers, i);
    } else {
        lemma_all_missed(answers, usages, a, j);
        let all = all_rows(usages, answers);
        let missed = all_missed(answers, usages);
        let row = UsageText {
            file: r.file_path,
            line: r.line,
            label: answers[a].label + "-only"@,
        };
        let m = choose|m: int| 0 <= m < missed.len() && missed[m] == row;
        assert(all[usages.len() + m] == row);
        lemma_row_of_place(usages, answers, row);
    }
}

proof fn lemma_missed_is_unmentioned(
    label: Seq<char>,
    references: Seq<ReferenceText>,
    usages: Seq<UsageText>,
    k: int,
)
    requires
        0 <= k < missed_by_text(label, references, usages).len(),
    ensures
        !is_mentioned(
            usages,
            missed_by_text(label, references, usages)[k].file,
            missed_by_text(label, references, usages)[k].line,
        ),
        missed_by_text(label, references, usages)[k].label == label + "-only"@,
    decreases references.len(),
{
    let front = missed_by_text(label, references.drop_last(), usages);
    if k < front.len() {
        lemma_missed_is_unmentioned(label, references.drop_last(), usages, k);
    }
}

proof fn lemma_all_missed_are_unmentioned(
    answers: Seq<AnswerText>,
    usages: Seq<UsageText>,
    k: int,
)
    requires
        0 <= k < all_missed(answers, usages).len(),
    ensures
        !is_mentioned(usages, all_missed(answers, usages)[k].file, all_missed(answers, usages)[k].line),
        exists|a: int|
            0 <= a < answers.len() && all_missed(answers, usages)[k].label == (
            #[trigger] answers[a]).label + "-only"@,
    decreases answers.len(),
{
    let front = all_missed(answers.drop_last(), usages);
    let all = all_missed(answers, usages);
    if k < front.len() {
        lemma_all_missed_are_unmentioned(answers.drop_last(), usages, k);
        let a = choose|a: int|
            0 <= a < answers.drop_last().len() && front[k].label == (
            #[trigger] answers.drop_last()[a]).label + "-only"@;
        assert(answers[a] == answers.drop_last()[a]);
    } else {
        let last = answers.last();
        lemma_missed_is_unmentioned(last.label, last.references, usages, k - front.len());
        assert(answers[answers.len() - 1] == last);
    }
}

/// A use that the text search found is called confirmed exactly where a server reported it; one
/// that only a server reported goes by that server's name.
pub proof fn law_what_a_use_is_called(usages: Seq<UsageText>, answers: Seq<AnswerText>, k: int)
    requires
        0 <= k < validated_rows(usages, answers).len(),
    ensures
        ({
            let r = validated_rows(usages, answers)[k];
            &&& is_mentioned(usages, r.file, r.line) && is_confirmed(answers, r.file, r.line)
                ==> r.label == "confirmed"@
            &&& is_mentioned(usages, r.file, r.line) && !is_confirmed(answers, r.file, r.line)
                ==> r.label == "syntactic-only"@
            &&& !is_mentioned(usages, r.file, r.line) ==> exists|a: int|
                0 <= a < answers.len() && r.label == (#[trigger] answers[a]).label + "-only"@
        }),
{
    let all = all_rows(usages, answers);
    let sorted = sort_stable(all, usage_order());
    let r = validated_rows(usages, answers)[k];
    assert(validated_rows(usages, answers) == rows_once(sorted));
    lemma_once_members(sorted);
    assert(sorted.contains(r));
    lemma_sorted_members(all, usage_order(), r);
    let i = choose|i: int| 0 <= i < all.len() && all[i] == r;
    if i < usages.len() {
        assert(r == marked_mention(usages[i], answers));
        assert(usages[i].file == r.file && usages[i].line == r.line);
        assert(is_mentioned(usages, r.file, r.line));
    } else {
        lemma_all_missed_are_unmentioned(answers, usages, i - usages.len());
    }
}

/// An answer without references tells nothing; every other one counts.
pub proof fn law_which_answers_tell(answers: Seq<AnswerText>, a: AnswerText)
    ensures
        telling_answers(answers).contains(a) <==> answers.contains(a) && a.references.len() > 0,
{
    let pred = |a: AnswerText| a.references.len() > 0;
    lemma_filter_members(answers, pred, a);
    assert(telling_answers(answers) =~= answers.filter(pred));
}

/// The first fifty rows of a table are shown.
pub proof fn law_the_first_rows_are_shown(rows: Seq<UsageText>, i: int)
    requires
        0 <= i < rows.len(),
        i < 50,
    ensures
        contains_text(
            usage_table(rows),
            "| "@ + rows[i].file + " | "@ + decimal(rows[i].line as nat) + " | "@ + rows[i].label
                + " |\n"@,
        ),
{
    let row = usage_row(rows[i]);
    let shown = if rows.len() > 50 {
        rows.take(50)
    } else {
        rows
    };
    let parts = shown.map_values(|u: UsageText| usage_row(u));
    assert(parts[i] == row);
    lemma_held_by_itself(row);
    lemma_held_by_part(parts, i, row);
    if rows.len() > 50 {
        let a = concat(parts);
        let n = decimal((rows.len() - 50) as nat);
        lemma_held_by_front(a, "\n*... and "@, row);
        lemma_held_by_front(a + "\n*... and "@, n, row);
        lemma_held_by_front(a + "\n*... and "@ + n, " more*\n"@, row);
    }
}

/// Every definition is shown, with its place.
pub proof fn law_every_definition_is_shown(definitions: Seq<UsageText>, i: int)
    requires
        0 <= i < definitions.len(),
    ensures
        contains_text(
            definitions_part(definitions),
            "- `"@ + definitions[i].file + ":"@ + decimal(definitions[i].line as nat) + "` ("@
                + definitions[i].label + ")\n"@,
        ),
{
    let row = definition_row(definitions[i]);
    let parts = definitions.map_values(|u: UsageText| definition_row(u));
    assert(parts[i] == row);
    lemma_held_by_itself(row);
    lemma_held_by_part(parts, i, row);
    let head = "## Definitions\n\n"@;
    lemma_held_by_end(head, concat(parts), row);
    lemma_held_by_front(head + concat(parts), "\n"@, row);
}

/// Every exported symbol has its row in the export map.
pub proof fn law_every_export_is_shown(
    path: Seq<char>,
    symbols: Seq<SymbolText>,
    lines: Seq<Seq<char>>,
    i: int,
)
    requires
        0 <= i < exported_symbols(symbols, path).len(),
    ensures
        contains_text(
            export_map_spec(path, symbols, lines),
            export_row(exported_symbols(symbols, path)[i]),
        ),
{
    let exported = exported_symbols(symbols, path);
    let row = export_row(exported[i]);
    let parts = exported.map_values(|s: SymbolText| export_row(s));
    assert(parts[i] == row);
    lemma_held_by_itself(row);
    lemma_held_by_part(parts, i, row);
    let statements = crate::usages::export_statements(lines, lines.len() as int);
    let tail = if statements.len() > 0 {
        "\n## Export Statements\n\n"@ + concat(statements)
    } else {
        Seq::empty()
    };
    let head = "# Export Map: "@ + path + "\n\n"@
        + "## Exported Symbols\n\n| Name | Kind | Line | Signature |\n|------|------|------|----------|\n"@;
    lemma_held_by_end(head, concat(parts), row);
    lemma_held_by_front(head + concat(parts), tail, row);
}

} // verus!
