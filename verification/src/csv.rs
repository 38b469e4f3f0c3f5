use vstd::prelude::*;
use vstd::string::StringExecFns;
use crate::entry::{LogEntry, LogEntryView, views_of};

verus! {

/// One CSV line: the three fields joined by literal commas — no quoting
/// or escaping of embedded commas or quotes — ending in a line break.
pub open spec fn csv_line(e: LogEntryView) -> Seq<char> {
    e.timestamp + ","@ + e.level + ","@ + e.message + "\n"@
}

/// The CSV body: one line per entry, in order.
pub open spec fn csv_body(s: Seq<LogEntryView>) -> Seq<char>
    decreases s.len(),
{
    if s.len() == 0 {
        Seq::empty()
    } else {
        csv_body(s.drop_last()) + csv_line(s.last())
    }
}

/// The CSV rendering: the fixed header line, then the body.
pub open spec fn csv_of(s: Seq<LogEntryView>) -> Seq<char> {
    "timestamp,level,message\n"@ + csv_body(s)
}

/// Renders the entries as naive CSV: the fixed header line
/// `timestamp,level,message`, then one line per entry in order.
pub fn render_csv(entries: &Vec<LogEntry>) -> (out: String)
    ensures
        out@ == csv_of(views_of(entries@)),
{
    let mut out = String::new();
    out.append("timestamp,level,message\n");
    proof {
        assert(views_of(entries@.take(0)) =~= Seq::<LogEntryView>::empty());
        assert(out@ =~= csv_of(views_of(entries@.take(0))));
    }
    let mut i: usize = 0;
    while i < entries.len()
        invariant
            i <= entries@.len(),
            out@ == csv_of(views_of(entries@.take(i as int))),
        decreases entries@.len() - i,
    {
        let e = &entries[i];
        out.append(e.timestamp.as_str());
        out.append(",");
        out.append(e.level.as_str());
        out.append(",");
        out.append(e.message.as_str());
        out.append("\n");
        proof {
            let v1 = views_of(entries@.take(i as int + 1));
            assert(v1.drop_last() =~= views_of(entries@.take(i as int)));
            assert(v1.last() == entries@[i as int]@);
            assert(out@ =~= csv_of(v1));
        }
        i += 1;
    }
    proof {
        assert(entries@.take(entries@.len() as int) =~= entries@);
    }
    out
}

} // verus!
