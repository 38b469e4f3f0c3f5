use vstd::prelude::*;
use crate::entry::{LogEntry, LogEntryView, views_of};

verus! {

#[verifier::external_type_specification]
#[verifier::external_body]
pub struct ExTable(prettytable::Table);

/// What a table holds: its rows in order, each the texts of three cells.
pub uninterp spec fn table_rows(t: prettytable::Table) -> Seq<(Seq<char>, Seq<char>, Seq<char>)>;

/// The text that a table renders to, as a function of its rows. Every
/// table this crate builds keeps the default format that
/// `prettytable::Table::new` installs and has no title row, so the
/// rendered text depends on the rows alone.
pub uninterp spec fn table_text(rows: Seq<(Seq<char>, Seq<char>, Seq<char>)>) -> Seq<char>;

/// Relies on `prettytable::Table::new`: creates a table with no rows,
/// no title row, and the default format.
#[verifier::external_body]
fn table_new() -> (t: prettytable::Table)
    ensures
        table_rows(t) == Seq::<(Seq<char>, Seq<char>, Seq<char>)>::empty(),
{
    prettytable::Table::new()
}

/// Relies on `prettytable::Table::add_row`: appends one row holding the
/// three given cell texts, touching nothing else.
#[verifier::external_body]
fn table_add_row(t: &mut prettytable::Table, a: &str, b: &str, c: &str)
    ensures
        table_rows(*final(t)) == table_rows(*old(t)).push((a@, b@, c@)),
{
    t.add_row(prettytable::Row::new(vec![
        prettytable::Cell::new(a),
        prettytable::Cell::new(b),
        prettytable::Cell::new(c),
    ]));
}

/// Relies on `prettytable::Table`'s `Display` implementation, reached
/// through `ToString::to_string`: it renders the rows with the table's
/// format into a string, without consulting the terminal, so for the
/// default format the text is a function of the rows alone.
#[verifier::external_body]
fn table_to_string(t: &prettytable::Table) -> (out: String)
    ensures
        out@ == table_text(table_rows(*t)),
{
    t.to_string()
}

/// The rows of a rendered entry table: the fixed header row, then one
/// row per entry holding its three fields.
pub open spec fn table_rows_of(s: Seq<LogEntryView>) -> Seq<(Seq<char>, Seq<char>, Seq<char>)> {
    seq![("Timestamp"@, "Level"@, "Message"@)] + s.map_values(
        |e: LogEntryView| (e.timestamp, e.level, e.message),
    )
}

/// Renders the entries as a bordered table: a header row
/// `Timestamp | Level | Message`, then one row per entry in order, each
/// cell the literal field value — no escaping, truncation or wrapping.
pub fn render_table(entries: &Vec<LogEntry>) -> (out: String)
    ensures
        out@ == table_text(table_rows_of(views_of(entries@))),
{
    let mut t = table_new();
    table_add_row(&mut t, "Timestamp", "Level", "Message");
    proof {
        assert(table_rows(t) =~= table_rows_of(views_of(entries@.take(0))));
    }
    let mut i: usize = 0;
    while i < entries.len()
        invariant
            i <= entries@.len(),
            table_rows(t) == table_rows_of(views_of(entries@.take(i as int))),
        decreases entries@.len() - i,
    {
        let e = &entries[i];
        table_add_row(&mut t, e.timestamp.as_str(), e.level.as_str(), e.message.as_str());
        proof {
            assert(table_rows(t) =~= table_rows_of(views_of(entries@.take(i as int + 1))));
        }
        i += 1;
    }
    proof {
        assert(entries@.take(entries@.len() as int) =~= entries@);
    }
    table_to_string(&t)
}

} // verus!
