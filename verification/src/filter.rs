use vstd::prelude::*;
use crate::entry::{LogEntry, LogEntryView, views_of};
use crate::text::str_eq;

verus! {

/// Whether an entry is error-level: its level is exactly `ERROR`,
/// case-sensitively.
pub open spec fn is_error(e: LogEntryView) -> bool {
    e.level == "ERROR"@
}

/// The error-level subsequence of an entry sequence, in order.
pub open spec fn errors_of(s: Seq<LogEntryView>) -> Seq<LogEntryView> {
    s.filter(|e: LogEntryView| is_error(e))
}

/// Keeps exactly the entries whose level is the string `ERROR` — no
/// normalization of case variants — in their original order.
pub fn filter_errors(entries: &Vec<LogEntry>) -> (out: Vec<LogEntry>)
    ensures
        views_of(out@) == errors_of(views_of(entries@)),
{
    let mut out: Vec<LogEntry> = Vec::new();
    let mut i: usize = 0;
    while i < entries.len()
        invariant
            i <= entries@.len(),
            views_of(out@) == errors_of(views_of(entries@.take(i as int))),
        decreases entries@.len() - i,
    {
        let ghost prev = out@;
        let e = &entries[i];
        if str_eq(e.level.as_str(), "ERROR") {
            out.push(e.clone());
        }
        proof {
            reveal(Seq::filter);
            let v1 = views_of(entries@.take(i as int + 1));
            assert(v1.drop_last() =~= views_of(entries@.take(i as int)));
            assert(v1.last() == entries@[i as int]@);
            if is_error(entries@[i as int]@) {
                assert(views_of(out@) =~= views_of(prev).push(entries@[i as int]@));
                assert(errors_of(v1) =~= errors_of(v1.drop_last()).push(v1.last()));
            } else {
                assert(errors_of(v1) =~= errors_of(v1.drop_last()));
            }
        }
        i += 1;
    }
    proof {
        assert(entries@.take(entries@.len() as int) =~= entries@);
    }
    out
}

/// Filtering is idempotent: filtering an already errors-only sequence
/// again yields the same sequence.
pub proof fn lemma_filter_idempotent(s: Seq<LogEntryView>)
    ensures
        errors_of(errors_of(s)) == errors_of(s),
    decreases s.len(),
{
    reveal(Seq::filter);
    if s.len() == 0 {
        assert(errors_of(s) =~= Seq::<LogEntryView>::empty());
        assert(errors_of(errors_of(s)) =~= errors_of(s));
    } else {
        lemma_filter_idempotent(s.drop_last());
        if is_error(s.last()) {
            let x = errors_of(s.drop_last());
            assert(errors_of(s) =~= x.push(s.last()));
            assert(x.push(s.last()).drop_last() =~= x);
            assert(errors_of(x.push(s.last())) =~= errors_of(x).push(s.last()));
        } else {
            assert(errors_of(s) =~= errors_of(s.drop_last()));
        }
    }
}

/// Filtering preserves relative order: the errors of concatenated
/// entry sequences are the concatenation of each part's errors, in the
/// same order.
pub proof fn lemma_filter_order(a: Seq<LogEntryView>, b: Seq<LogEntryView>)
    ensures
        errors_of(a + b) == errors_of(a) + errors_of(b),
{
    Seq::filter_distributes_over_add(a, b, |e: LogEntryView| is_error(e));
}

} // verus!
