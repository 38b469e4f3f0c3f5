use vstd::prelude::*;
use vstd::string::StrSliceExecFns;
use crate::entry::{LogEntry, LogEntryView, views_of};
use crate::text::{is_digit, is_word, digit_char, word_char};

verus! {

/// What position `i` of the leading timestamp must hold: separators at
/// the fixed positions of `YYYY-MM-DD HH:MM:SS`, digits everywhere else.
pub open spec fn timestamp_char_ok(s: Seq<char>, i: int) -> bool {
    if i == 4 || i == 7 {
        s[i] == '-'
    } else if i == 10 {
        s[i] == ' '
    } else if i == 13 || i == 16 {
        s[i] == ':'
    } else {
        is_digit(s[i])
    }
}

/// The line opens with a 19-character `YYYY-MM-DD HH:MM:SS` timestamp.
pub open spec fn timestamp_ok(s: Seq<char>) -> bool {
    s.len() >= 19 && forall|i: int| 0 <= i < 19 ==> timestamp_char_ok(s, i)
}

/// The least index at or after `i` that holds no word character (or the
/// sequence's length, when word characters run to the end).
pub open spec fn word_run_end(s: Seq<char>, i: int) -> int
    decreases s.len() - i,
{
    if i < 0 || i >= s.len() {
        i
    } else if is_word(s[i]) {
        word_run_end(s, i + 1)
    } else {
        i
    }
}

/// Where the bracketed level token ends: the end of the run of word
/// characters that starts right after the opening bracket.
pub open spec fn level_end(s: Seq<char>) -> int {
    word_run_end(s, 21)
}

/// Whether a line matches the entry pattern
/// `^(\d{4}-\d{2}-\d{2} \d{2}:\d{2}:\d{2}) \[(\w+)\] (.+)$`:
/// a timestamp, one space, a bracketed non-empty word token, one space,
/// and a non-empty remainder free of line breaks, with nothing before or
/// after. The digit and word classes are read in their ASCII forms.
pub open spec fn line_matches(s: Seq<char>) -> bool {
    let e = level_end(s);
    &&& timestamp_ok(s)
    &&& s.len() > 21
    &&& s[19] == ' '
    &&& s[20] == '['
    &&& e > 21
    &&& e < s.len() && s[e] == ']'
    &&& e + 1 < s.len() && s[e + 1] == ' '
    &&& e + 2 < s.len()
    &&& forall|k: int| e + 2 <= k < s.len() ==> s[k] != '\n'
}

/// The entry that a matching line yields: the three captured segments.
pub open spec fn entry_of_line(s: Seq<char>) -> LogEntryView {
    LogEntryView {
        timestamp: s.take(19),
        level: s.subrange(21, level_end(s)),
        message: s.subrange(level_end(s) + 2, s.len() as int),
    }
}

/// What parsing one line yields: the captured entry on a match, nothing
/// otherwise.
pub open spec fn spec_parse(s: Seq<char>) -> Option<LogEntryView> {
    if line_matches(s) {
        Some(entry_of_line(s))
    } else {
        None
    }
}

/// A run of word characters over `i..j` ending at `j` pins the run's end.
proof fn lemma_word_run_end(s: Seq<char>, i: int, j: int)
    requires
        0 <= i <= j <= s.len(),
        forall|k: int| i <= k < j ==> is_word(s[k]),
        j == s.len() || !is_word(s[j]),
    ensures
        word_run_end(s, i) == j,
    decreases j - i,
{
    if i < j {
        lemma_word_run_end(s, i + 1, j);
    }
}

/// Parses one log line; yields the entry when the line matches the
/// pattern, and nothing when it does not — a normal outcome, not an
/// error.
pub fn parse_log_line(line: &str) -> (r: Option<LogEntry>)
    ensures
        match r {
            Some(e) => spec_parse(line@) == Some(e@),
            None => spec_parse(line@) is None,
        },
{
    let n = line.unicode_len();
    if n < 19 {
        return None;
    }
    let mut i: usize = 0;
    while i < 19
        invariant
            19 <= n == line@.len(),
            i <= 19,
            forall|k: int| 0 <= k < i ==> timestamp_char_ok(line@, k),
        decreases 19 - i,
    {
        let c = line.get_char(i);
        let ok = if i == 4 || i == 7 {
            c == '-'
        } else if i == 10 {
            c == ' '
        } else if i == 13 || i == 16 {
            c == ':'
        } else {
            digit_char(c)
        };
        if !ok {
            proof {
                assert(!timestamp_char_ok(line@, i as int));
            }
            return None;
        }
        i += 1;
    }
    if n <= 21 {
        return None;
    }
    if line.get_char(19) != ' ' || line.get_char(20) != '[' {
        return None;
    }
    let mut j: usize = 21;
    while j < n && word_char(line.get_char(j))
        invariant
            21 <= j <= n == line@.len(),
            forall|k: int| 21 <= k < j ==> is_word(line@[k]),
        decreases n - j,
    {
        j += 1;
    }
    proof {
        lemma_word_run_end(line@, 21, j as int);
    }
    if j == 21 || j == n {
        return None;
    }
    if line.get_char(j) != ']' {
        return None;
    }
    if j + 1 >= n || line.get_char(j + 1) != ' ' {
        return None;
    }
    if j + 2 >= n {
        return None;
    }
    let mut k: usize = j + 2;
    while k < n
        invariant
            j + 2 <= k <= n == line@.len(),
            level_end(line@) == j as int,
            forall|m: int| j + 2 <= m < k ==> line@[m] != '\n',
        decreases n - k,
    {
        if line.get_char(k) == '\n' {
            proof {
                assert(line@[k as int] == '\n');
                assert(!line_matches(line@));
            }
            return None;
        }
        k += 1;
    }
    let timestamp = line.substring_char(0, 19).to_owned();
    let level = line.substring_char(21, j).to_owned();
    let message = line.substring_char(j + 2, n).to_owned();
    let e = LogEntry { timestamp, level, message };
    proof {
        assert(line_matches(line@));
        assert(e@.timestamp =~= entry_of_line(line@).timestamp);
        assert(e@ =~= entry_of_line(line@));
    }
    Some(e)
}

/// What a sequence of lines yields: the entries of its matching lines,
/// in line order; non-matching lines contribute nothing.
pub open spec fn entries_of(lines: Seq<Seq<char>>) -> Seq<LogEntryView>
    decreases lines.len(),
{
    if lines.len() == 0 {
        Seq::empty()
    } else {
        entries_of(lines.drop_last()) + match spec_parse(lines.last()) {
            Some(e) => seq![e],
            None => Seq::empty(),
        }
    }
}

/// The views of a sequence of lines.
pub open spec fn line_views(lines: Seq<String>) -> Seq<Seq<char>> {
    lines.map_values(|l: String| l@)
}

/// Feeds every line to the parser in order and collects the entries of
/// the matching lines, discarding the misses.
pub fn parse_lines(lines: &Vec<String>) -> (out: Vec<LogEntry>)
    ensures
        views_of(out@) == entries_of(line_views(lines@)),
{
    let mut out: Vec<LogEntry> = Vec::new();
    let mut i: usize = 0;
    while i < lines.len()
        invariant
            i <= lines@.len(),
            views_of(out@) == entries_of(line_views(lines@.take(i as int))),
        decreases lines@.len() - i,
    {
        let ghost prev = out@;
        let r = parse_log_line(lines[i].as_str());
        let ghost rv = match &r {
            Some(e) => Some(e@),
            None => None::<LogEntryView>,
        };
        match r {
            Some(e) => {
                out.push(e);
            },
            None => {},
        }
        proof {
            let lv1 = line_views(lines@.take(i as int + 1));
            assert(lv1.drop_last() =~= line_views(lines@.take(i as int)));
            assert(lv1.last() == lines@[i as int]@);
            match rv {
                Some(ev) => {
                    assert(views_of(out@) =~= views_of(prev).push(ev));
                    assert(entries_of(lv1) =~= entries_of(lv1.drop_last()).push(ev));
                },
                None => {
                    assert(entries_of(lv1) =~= entries_of(lv1.drop_last()));
                },
            }
        }
        i += 1;
    }
    proof {
        assert(lines@.take(lines@.len() as int) =~= lines@);
    }
    out
}

/// Parsing is total and deterministic on matching lines: a line yields
/// an entry exactly when it matches the pattern, and what it yields is a
/// function of the line's characters alone.
pub proof fn lemma_parse_total(s: Seq<char>)
    ensures
        line_matches(s) <==> spec_parse(s) is Some,
        line_matches(s) ==> spec_parse(s) == Some(entry_of_line(s)),
{
}

/// Non-matching lines are strictly excluded: the entry count equals the
/// count of matching lines.
pub proof fn lemma_entry_count(lines: Seq<Seq<char>>)
    ensures
        entries_of(lines).len() == lines.filter(|l: Seq<char>| line_matches(l)).len(),
    decreases lines.len(),
{
    reveal(Seq::filter);
    if lines.len() > 0 {
        lemma_entry_count(lines.drop_last());
    }
}

/// Entries of concatenated line sequences are the concatenation of each
/// part's entries: the relative order of entries follows the order of
/// their lines.
pub proof fn lemma_entries_order(a: Seq<Seq<char>>, b: Seq<Seq<char>>)
    ensures
        entries_of(a + b) == entries_of(a) + entries_of(b),
    decreases b.len(),
{
    if b.len() == 0 {
        assert(a + b =~= a);
        assert(entries_of(a) + entries_of(b) =~= entries_of(a));
    } else {
        lemma_entries_order(a, b.drop_last());
        assert((a + b).drop_last() =~= a + b.drop_last());
        assert((a + b).last() == b.last());
        let tail = match spec_parse(b.last()) {
            Some(e) => seq![e],
            None => Seq::<LogEntryView>::empty(),
        };
        assert(entries_of(a + b) == entries_of(a + b.drop_last()) + tail);
        assert(entries_of(b) == entries_of(b.drop_last()) + tail);
        assert((entries_of(a) + entries_of(b.drop_last())) + tail =~= entries_of(a) + (
        entries_of(b.drop_last()) + tail));
    }
}

} // verus!
