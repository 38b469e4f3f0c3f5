use vstd::prelude::*;
use crate::csv::{csv_of, render_csv};
use crate::entry::{LogEntry, LogEntryView, views_of};
use crate::filter::{errors_of, filter_errors};
use crate::json::{json_of, render_json};
use crate::parse::{entries_of, line_views, parse_lines};
use crate::table::{render_table, table_rows_of, table_text};

verus! {

/// The output format of one run.
#[derive(Clone, Copy, Debug, PartialEq, Eq, Structural)]
pub enum OutputFormat {
    Text,
    Json,
    Csv,
}

/// What rendering an entry sequence in a format yields.
pub open spec fn rendering_of(format: OutputFormat, s: Seq<LogEntryView>) -> Seq<char> {
    match format {
        OutputFormat::Text => table_text(table_rows_of(s)),
        OutputFormat::Json => json_of(s),
        OutputFormat::Csv => csv_of(s),
    }
}

/// Renders the entries in the chosen format; none of the renderers
/// changes the sequence.
pub fn render(entries: &Vec<LogEntry>, format: OutputFormat) -> (out: String)
    ensures
        out@ == rendering_of(format, views_of(entries@)),
{
    match format {
        OutputFormat::Text => render_table(entries),
        OutputFormat::Json => render_json(entries),
        OutputFormat::Csv => render_csv(entries),
    }
}

/// The entries one run works on: every parsed entry, or only the
/// error-level ones when the flag is set.
pub open spec fn selected_entries(lines: Seq<Seq<char>>, errors_only: bool) -> Seq<LogEntryView> {
    if errors_only {
        errors_of(entries_of(lines))
    } else {
        entries_of(lines)
    }
}

/// The whole pipeline on in-memory lines: parse every line in order,
/// optionally keep only the error-level entries, and render the result
/// in the chosen format.
pub fn process_lines(lines: &Vec<String>, errors_only: bool, format: OutputFormat) -> (out:
    String)
    ensures
        out@ == rendering_of(format, selected_entries(line_views(lines@), errors_only)),
{
    let entries = parse_lines(lines);
    if errors_only {
        let filtered = filter_errors(&entries);
        render(&filtered, format)
    } else {
        render(&entries, format)
    }
}

/// An empty input yields an empty entry sequence and each renderer's
/// defined empty representation: an empty JSON array, a header-only
/// CSV, and a table holding only the header row.
pub proof fn lemma_empty_input()
    ensures
        entries_of(Seq::empty()) == Seq::<LogEntryView>::empty(),
        json_of(Seq::empty()) == "[]"@,
        csv_of(Seq::empty()) == "timestamp,level,message\n"@,
        table_rows_of(Seq::empty()) == seq![("Timestamp"@, "Level"@, "Message"@)],
{
    assert(csv_of(Seq::<LogEntryView>::empty()) =~= "timestamp,level,message\n"@);
    assert(table_rows_of(Seq::<LogEntryView>::empty()) =~= seq![
        ("Timestamp"@, "Level"@, "Message"@),
    ]);
}

} // verus!
