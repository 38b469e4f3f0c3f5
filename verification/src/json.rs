use vstd::prelude::*;
use vstd::string::StrSliceExecFns;
use vstd::string::StringExecFns;
use crate::entry::{LogEntry, LogEntryView, views_of};
use crate::text::push_char;

verus! {

/// The lowercase hexadecimal digit for `n` (sixteen values).
pub open spec fn hex_digit(n: int) -> char {
    if n == 0 {
        '0'
    } else if n == 1 {
        '1'
    } else if n == 2 {
        '2'
    } else if n == 3 {
        '3'
    } else if n == 4 {
        '4'
    } else if n == 5 {
        '5'
    } else if n == 6 {
        '6'
    } else if n == 7 {
        '7'
    } else if n == 8 {
        '8'
    } else if n == 9 {
        '9'
    } else if n == 10 {
        'a'
    } else if n == 11 {
        'b'
    } else if n == 12 {
        'c'
    } else if n == 13 {
        'd'
    } else if n == 14 {
        'e'
    } else {
        'f'
    }
}

/// The JSON escape of one character, per standard JSON string escaping:
/// quote and backslash get a backslash, the named control characters
/// their short escapes, the remaining control characters a `\u00xy`
/// escape, and every other character stands as itself.
pub open spec fn esc_char(c: char) -> Seq<char> {
    if c == '"' {
        seq!['\\', '"']
    } else if c == '\\' {
        seq!['\\', '\\']
    } else if c == '\u{8}' {
        seq!['\\', 'b']
    } else if c == '\t' {
        seq!['\\', 't']
    } else if c == '\n' {
        seq!['\\', 'n']
    } else if c == '\u{c}' {
        seq!['\\', 'f']
    } else if c == '\r' {
        seq!['\\', 'r']
    } else if (c as u32) < 32 {
        seq!['\\', 'u', '0', '0', hex_digit(c as u32 as int / 16), hex_digit(c as u32 as int % 16)]
    } else {
        seq![c]
    }
}

/// The JSON escape of a string: each character's escape, in order.
pub open spec fn esc(s: Seq<char>) -> Seq<char>
    decreases s.len(),
{
    if s.len() == 0 {
        Seq::empty()
    } else {
        esc(s.drop_last()) + esc_char(s.last())
    }
}

/// The lowercase hexadecimal digit character for `n`.
fn hex_char(n: u32) -> (c: char)
    requires
        n < 16,
    ensures
        c == hex_digit(n as int),
{
    if n == 0 {
        '0'
    } else if n == 1 {
        '1'
    } else if n == 2 {
        '2'
    } else if n == 3 {
        '3'
    } else if n == 4 {
        '4'
    } else if n == 5 {
        '5'
    } else if n == 6 {
        '6'
    } else if n == 7 {
        '7'
    } else if n == 8 {
        '8'
    } else if n == 9 {
        '9'
    } else if n == 10 {
        'a'
    } else if n == 11 {
        'b'
    } else if n == 12 {
        'c'
    } else if n == 13 {
        'd'
    } else if n == 14 {
        'e'
    } else {
        'f'
    }
}

/// Appends the JSON escape of `s` to `out`.
fn append_escaped(out: &mut String, s: &str)
    ensures
        final(out)@ == old(out)@ + esc(s@),
{
    let n = s.unicode_len();
    let mut i: usize = 0;
    while i < n
        invariant
            n == s@.len(),
            i <= n,
            out@ == old(out)@ + esc(s@.take(i as int)),
        decreases n - i,
    {
        let c = s.get_char(i);
        let u = c as u32;
        if c == '"' {
            push_char(out, '\\');
            push_char(out, '"');
        } else if c == '\\' {
            push_char(out, '\\');
            push_char(out, '\\');
        } else if u == 8 {
            push_char(out, '\\');
            push_char(out, 'b');
        } else if u == 9 {
            push_char(out, '\\');
            push_char(out, 't');
        } else if u == 10 {
            push_char(out, '\\');
            push_char(out, 'n');
        } else if u == 12 {
            push_char(out, '\\');
            push_char(out, 'f');
        } else if u == 13 {
            push_char(out, '\\');
            push_char(out, 'r');
        } else if u < 32 {
            push_char(out, '\\');
            push_char(out, 'u');
            push_char(out, '0');
            push_char(out, '0');
            push_char(out, hex_char(u / 16));
            push_char(out, hex_char(u % 16));
        } else {
            push_char(out, c);
        }
        proof {
            assert(s@.take(i as int + 1).drop_last() =~= s@.take(i as int));
            assert(s@.take(i as int + 1).last() == s@[i as int]);
            assert(out@ =~= old(out)@ + esc(s@.take(i as int + 1)));
        }
        i += 1;
    }
    proof {
        assert(s@.take(n as int) =~= s@);
    }
}

/// The pretty-printed JSON object for one entry: keys `timestamp`,
/// `level`, `message` in that order, string values escaped, the object
/// indented for its place in the array.
pub open spec fn json_entry(e: LogEntryView) -> Seq<char> {
    "  {\n    \"timestamp\": \""@ + esc(e.timestamp) + "\""@ + ",\n    \"level\": \""@ + esc(
    e.level) + "\""@ + ",\n    \"message\": \""@ + esc(e.message) + "\""@ + "\n  }"@
}

/// The entry objects of the array body, separated by commas.
pub open spec fn json_items(s: Seq<LogEntryView>) -> Seq<char>
    decreases s.len(),
{
    if s.len() == 0 {
        Seq::empty()
    } else if s.len() == 1 {
        json_entry(s[0])
    } else {
        json_items(s.drop_last()) + ",\n"@ + json_entry(s.last())
    }
}

/// The pretty-printed JSON rendering of an entry sequence: `[]` when
/// empty, otherwise the entry objects between brackets on their own
/// lines.
pub open spec fn json_of(s: Seq<LogEntryView>) -> Seq<char> {
    if s.len() == 0 {
        "[]"@
    } else {
        "[\n"@ + json_items(s) + "\n]"@
    }
}

/// Appends the pretty-printed object for one entry to `out`.
fn append_entry(out: &mut String, e: &LogEntry)
    ensures
        final(out)@ == old(out)@ + json_entry(e@),
{
    out.append("  {\n    \"timestamp\": \"");
    append_escaped(out, e.timestamp.as_str());
    out.append("\"");
    out.append(",\n    \"level\": \"");
    append_escaped(out, e.level.as_str());
    out.append("\"");
    out.append(",\n    \"message\": \"");
    append_escaped(out, e.message.as_str());
    out.append("\"");
    out.append("\n  }");
    proof {
        assert(out@ =~= old(out)@ + json_entry(e@));
    }
}

/// Renders the entries as a pretty-printed JSON array of objects, each
/// with string fields `timestamp`, `level`, `message` in that order;
/// an empty sequence renders as `[]`.
pub fn render_json(entries: &Vec<LogEntry>) -> (out: String)
    ensures
        out@ == json_of(views_of(entries@)),
{
    if entries.len() == 0 {
        let mut out = String::new();
        out.append("[]");
        proof {
            assert(out@ =~= "[]"@);
        }
        return out;
    }
    let mut out = String::new();
    out.append("[\n");
    let mut i: usize = 0;
    while i < entries.len()
        invariant
            0 < entries@.len(),
            i <= entries@.len(),
            i == 0 ==> out@ == "[\n"@,
            i > 0 ==> out@ == "[\n"@ + json_items(
                views_of(entries@.take(i as int)),
            ),
        decreases entries@.len() - i,
    {
        if i > 0 {
            out.append(",\n");
        }
        append_entry(&mut out, &entries[i]);
        proof {
            let v1 = views_of(entries@.take(i as int + 1));
            assert(v1.drop_last() =~= views_of(entries@.take(i as int)));
            assert(v1.last() == entries@[i as int]@);
            if i == 0 {
                assert(json_items(v1) =~= json_entry(v1[0]));
                assert(out@ =~= "[\n"@ + json_items(v1));
            } else {
                assert(json_items(v1) =~= json_items(v1.drop_last()) + ",\n"@ + json_entry(
                v1.last()));
                assert(out@ =~= "[\n"@ + json_items(v1));
            }
        }
        i += 1;
    }
    out.append("\n]");
    proof {
        assert(entries@.take(entries@.len() as int) =~= entries@);
        assert(out@ =~= json_of(views_of(entries@)));
    }
    out
}

/// A lowercase hexadecimal digit character.
pub open spec fn is_hex(c: char) -> bool {
    ||| 48 <= c as u32 <= 57
    ||| 97 <= c as u32 <= 102
}

/// The value of a lowercase hexadecimal digit character.
pub open spec fn hex_val(c: char) -> int {
    if 48 <= c as u32 <= 57 {
        c as u32 - 48
    } else {
        c as u32 - 87
    }
}

/// The characters that may follow a backslash as a short escape.
pub open spec fn is_short_escape(c: char) -> bool {
    ||| c == '"'
    ||| c == '\\'
    ||| c == 'b'
    ||| c == 't'
    ||| c == 'n'
    ||| c == 'f'
    ||| c == 'r'
}

/// The character a short escape stands for.
pub open spec fn short_unescape(c: char) -> char {
    if c == '"' {
        '"'
    } else if c == '\\' {
        '\\'
    } else if c == 'b' {
        '\u{8}'
    } else if c == 't' {
        '\t'
    } else if c == 'n' {
        '\n'
    } else if c == 'f' {
        '\u{c}'
    } else {
        '\r'
    }
}

/// Decodes a JSON string body up to its closing quote: yields the
/// decoded value and what follows the quote.
pub open spec fn scan_string(s: Seq<char>) -> Option<(Seq<char>, Seq<char>)>
    decreases s.len(),
{
    if s.len() == 0 {
        None
    } else if s[0] == '"' {
        Some((Seq::empty(), s.skip(1)))
    } else if s[0] == '\\' {
        if 2 <= s.len() && is_short_escape(s[1]) {
            match scan_string(s.skip(2)) {
                Some(p) => Some((seq![short_unescape(s[1])] + p.0, p.1)),
                None => None,
            }
        } else if 6 <= s.len() && s[1] == 'u' && s[2] == '0' && s[3] == '0' && is_hex(s[4])
            && is_hex(s[5]) {
            match scan_string(s.skip(6)) {
                Some(p) => Some(
                    (seq![(((hex_val(s[4]) * 16 + hex_val(s[5])) as u32) as char)] + p.0, p.1),
                ),
                None => None,
            }
        } else {
            None
        }
    } else {
        match scan_string(s.skip(1)) {
            Some(p) => Some((seq![s[0]] + p.0, p.1)),
            None => None,
        }
    }
}

/// `s` opens with `p`.
pub open spec fn starts_with(s: Seq<char>, p: Seq<char>) -> bool {
    p.len() <= s.len() && s.take(p.len() as int) == p
}

/// A concatenation opens with its first part, and dropping that part
/// leaves the second.
proof fn lemma_prefix(p: Seq<char>, t: Seq<char>)
    ensures
        starts_with(p + t, p),
        (p + t).skip(p.len() as int) == t,
{
    assert((p + t).take(p.len() as int) =~= p);
    assert((p + t).skip(p.len() as int) =~= t);
}

/// The escape of a non-empty string is its first character's escape,
/// then the rest's.
proof fn lemma_esc_front(v: Seq<char>)
    requires
        v.len() >= 1,
    ensures
        esc(v) == esc_char(v[0]) + esc(v.drop_first()),
    decreases v.len(),
{
    if v.len() == 1 {
        assert(v.drop_last() =~= Seq::<char>::empty());
        assert(v.drop_first() =~= Seq::<char>::empty());
        assert(esc(v) =~= esc_char(v[0]) + esc(v.drop_first()));
    } else {
        lemma_esc_front(v.drop_last());
        assert(v.drop_last().drop_first() =~= v.drop_first().drop_last());
        assert(v.drop_last()[0] == v[0]);
        assert(v.drop_first().last() == v.last());
        assert(esc_char(v[0]) + esc(v.drop_last().drop_first()) + esc_char(v.last()) =~= esc_char(
        v[0]) + (esc(v.drop_first().drop_last()) + esc_char(v.drop_first().last())));
        assert(esc(v) =~= esc_char(v[0]) + esc(v.drop_first()));
    }
}

/// A hexadecimal digit's character decodes back to its value.
proof fn lemma_hex_round(n: int)
    requires
        0 <= n < 16,
    ensures
        is_hex(hex_digit(n)),
        hex_val(hex_digit(n)) == n,
{
}

/// Scanning the escape of a value followed by a closing quote yields
/// the value back, exactly, and leaves the rest untouched.
pub proof fn lemma_scan_escaped(v: Seq<char>, rest: Seq<char>)
    ensures
        scan_string(esc(v) + seq!['"'] + rest) == Some((v, rest)),
    decreases v.len(),
{
    if v.len() == 0 {
        let s = esc(v) + seq!['"'] + rest;
        assert(s =~= seq!['"'] + rest);
        assert(s[0] == '"');
        assert(s.skip(1) =~= rest);
        assert(scan_string(s) == Some((Seq::<char>::empty(), rest)));
        assert(v =~= Seq::<char>::empty());
    } else {
        let c = v[0];
        let v2 = v.drop_first();
        let s2 = esc(v2) + seq!['"'] + rest;
        lemma_scan_escaped(v2, rest);
        lemma_esc_front(v);
        let s = esc(v) + seq!['"'] + rest;
        assert(s =~= esc_char(c) + s2);
        if c == '"' || c == '\\' || c == '\u{8}' || c == '\t' || c == '\n' || c == '\u{c}' || c
            == '\r' {
            assert(esc_char(c).len() == 2);
            assert(s[0] == '\\');
            assert(is_short_escape(s[1]));
            assert(short_unescape(s[1]) == c);
            assert(s.skip(2) =~= s2);
            assert(scan_string(s) == Some((seq![c] + v2, rest)));
            assert(seq![c] + v2 =~= v);
        } else if (c as u32) < 32 {
            let u = c as u32;
            assert(esc_char(c) =~= seq![
                '\\',
                'u',
                '0',
                '0',
                hex_digit(u as int / 16),
                hex_digit(u as int % 16),
            ]);
            lemma_hex_round(u as int / 16);
            lemma_hex_round(u as int % 16);
            assert(s[0] == '\\');
            assert(!is_short_escape(s[1]));
            assert(s[1] == 'u' && s[2] == '0' && s[3] == '0');
            assert(is_hex(s[4]) && is_hex(s[5]));
            assert(hex_val(s[4]) * 16 + hex_val(s[5]) == u as int);
            vstd::utf8::char_u32_cast(c, u);
            assert((((hex_val(s[4]) * 16 + hex_val(s[5])) as u32) as char) == c);
            assert(s.skip(6) =~= s2);
            assert(scan_string(s) == Some((seq![c] + v2, rest)));
            assert(seq![c] + v2 =~= v);
        } else {
            assert(esc_char(c) =~= seq![c]);
            assert(s[0] == c);
            assert(s[0] != '"' && s[0] != '\\');
            assert(s.skip(1) =~= s2);
            assert(scan_string(s) == Some((seq![c] + v2, rest)));
            assert(seq![c] + v2 =~= v);
        }
    }
}

/// Decodes one rendered entry object: the three key/value pairs in
/// `timestamp`, `level`, `message` order. Yields the record and what
/// follows the object.
pub open spec fn decode_one(s: Seq<char>) -> Option<(LogEntryView, Seq<char>)> {
    let l1 = "  {\n    \"timestamp\": \""@;
    let l2 = ",\n    \"level\": \""@;
    let l3 = ",\n    \"message\": \""@;
    let l4 = "\n  }"@;
    if starts_with(s, l1) {
        match scan_string(s.skip(l1.len() as int)) {
            Some(p1) => if starts_with(p1.1, l2) {
                match scan_string(p1.1.skip(l2.len() as int)) {
                    Some(p2) => if starts_with(p2.1, l3) {
                        match scan_string(p2.1.skip(l3.len() as int)) {
                            Some(p3) => if starts_with(p3.1, l4) {
                                Some(
                                    (
                                        LogEntryView {
                                            timestamp: p1.0,
                                            level: p2.0,
                                            message: p3.0,
                                        },
                                        p3.1.skip(l4.len() as int),
                                    ),
                                )
                            } else {
                                None
                            },
                            None => None,
                        }
                    } else {
                        None
                    },
                    None => None,
                }
            } else {
                None
            },
            None => None,
        }
    } else {
        None
    }
}

/// Decodes a comma-separated run of entry objects closed by the
/// array's final line.
pub open spec fn decode_items(s: Seq<char>) -> Option<Seq<LogEntryView>>
    decreases s.len(),
{
    match decode_one(s) {
        Some(p) => if p.1 == "\n]"@ {
            Some(seq![p.0])
        } else if 2 <= p.1.len() && p.1.len() < s.len() && starts_with(p.1, ",\n"@) {
            match decode_items(p.1.skip(2)) {
                Some(es) => Some(seq![p.0] + es),
                None => None,
            }
        } else {
            None
        },
        None => None,
    }
}

/// Decodes a rendered document back into entry records.
pub open spec fn decode_entries(s: Seq<char>) -> Option<Seq<LogEntryView>> {
    if s == "[]"@ {
        Some(Seq::empty())
    } else if starts_with(s, "[\n"@) {
        decode_items(s.skip(2))
    } else {
        None
    }
}

/// Decoding one rendered entry object yields its record back exactly.
proof fn lemma_decode_one(e: LogEntryView, rest: Seq<char>)
    ensures
        decode_one(json_entry(e) + rest) == Some((e, rest)),
{
    let l1 = "  {\n    \"timestamp\": \""@;
    let l2 = ",\n    \"level\": \""@;
    let l3 = ",\n    \"message\": \""@;
    let l4 = "\n  }"@;
    let q = "\""@;
    reveal_strlit("\"");
    assert(q =~= seq!['"']);
    let s = json_entry(e) + rest;
    let t1 = esc(e.timestamp) + seq!['"'] + (l2 + esc(e.level) + seq!['"'] + (l3 + esc(e.message)
        + seq!['"'] + (l4 + rest)));
    assert(s =~= l1 + t1);
    lemma_prefix(l1, t1);
    assert(starts_with(s, l1) && s.skip(l1.len() as int) == t1);
    lemma_scan_escaped(e.timestamp, l2 + esc(e.level) + seq!['"'] + (l3 + esc(e.message)
        + seq!['"'] + (l4 + rest)));
    let t2 = esc(e.level) + seq!['"'] + (l3 + esc(e.message) + seq!['"'] + (l4 + rest));
    lemma_prefix(l2, t2);
    assert(l2 + esc(e.level) + seq!['"'] + (l3 + esc(e.message) + seq!['"'] + (l4 + rest)) =~= l2
        + t2);
    lemma_scan_escaped(e.level, l3 + esc(e.message) + seq!['"'] + (l4 + rest));
    let t3 = esc(e.message) + seq!['"'] + (l4 + rest);
    lemma_prefix(l3, t3);
    assert(l3 + esc(e.message) + seq!['"'] + (l4 + rest) =~= l3 + t3);
    lemma_scan_escaped(e.message, l4 + rest);
    lemma_prefix(l4, rest);
    assert(decode_one(s) == Some((LogEntryView { timestamp: e.timestamp, level: e.level, message: e.message }, rest)));
    assert(LogEntryView { timestamp: e.timestamp, level: e.level, message: e.message } =~= e);
}

/// A non-empty item run is its first entry's object, a separator, then
/// the rest.
proof fn lemma_json_items_front(s: Seq<LogEntryView>)
    requires
        s.len() >= 2,
    ensures
        json_items(s) == json_entry(s[0]) + ",\n"@ + json_items(s.drop_first()),
    decreases s.len(),
{
    if s.len() == 2 {
        assert(s.drop_last() =~= seq![s[0]]);
        assert(s.drop_first() =~= seq![s[1]]);
        assert(json_items(seq![s[0]]) == json_entry(s[0]));
        assert(json_items(seq![s[1]]) == json_entry(s[1]));
        assert(json_items(s) == json_entry(s[0]) + ",\n"@ + json_entry(s[1]));
    } else {
        lemma_json_items_front(s.drop_last());
        assert(s.drop_last().drop_first() =~= s.drop_first().drop_last());
        assert(s.drop_last()[0] == s[0]);
        assert(s.drop_first().last() == s.last());
        assert(s.drop_first().len() >= 2);
        assert(json_items(s) == json_items(s.drop_last()) + ",\n"@ + json_entry(s.last()));
        assert(json_entry(s[0]) + ",\n"@ + json_items(s.drop_first().drop_last()) + ",\n"@
            + json_entry(s.drop_first().last()) =~= json_entry(s[0]) + ",\n"@ + (json_items(
        s.drop_first().drop_last()) + ",\n"@ + json_entry(s.drop_first().last())));
        assert(json_items(s) =~= json_entry(s[0]) + ",\n"@ + json_items(s.drop_first()));
    }
}

/// The decoding step for a run of two or more entry objects: the first
/// object decodes to the first entry and leaves the separator, after
/// which the shorter run of the remaining objects follows.
#[verifier::spinoff_prover]
proof fn lemma_decode_items_step(es: Seq<LogEntryView>)
    requires
        es.len() >= 2,
    ensures
        ({
            let s = json_items(es) + "\n]"@;
            let tail = ",\n"@ + (json_items(es.drop_first()) + "\n]"@);
            &&& decode_one(s) == Some((es[0], tail))
            &&& tail != "\n]"@
            &&& 2 <= tail.len() < s.len()
            &&& starts_with(tail, ",\n"@)
            &&& tail.skip(2) == json_items(es.drop_first()) + "\n]"@
        }),
{
    reveal_strlit("\n]");
    reveal_strlit(",\n");
    reveal_strlit("  {\n    \"timestamp\": \"");
    lemma_json_items_front(es);
    let tail = ",\n"@ + (json_items(es.drop_first()) + "\n]"@);
    lemma_decode_one(es[0], tail);
    let s = json_items(es) + "\n]"@;
    assert(s =~= json_entry(es[0]) + tail);
    assert(tail[0] == ',');
    assert(tail != "\n]"@);
    assert(json_entry(es[0]).len() >= "  {\n    \"timestamp\": \""@.len());
    lemma_prefix(",\n"@, json_items(es.drop_first()) + "\n]"@);
}

/// Decoding a rendered item run closed by the array's final line
/// yields the entries back exactly.
#[verifier::spinoff_prover]
proof fn lemma_decode_items(es: Seq<LogEntryView>)
    requires
        es.len() >= 1,
    ensures
        decode_items(json_items(es) + "\n]"@) == Some(es),
    decreases es.len(),
{
    if es.len() == 1 {
        assert(json_items(es) == json_entry(es[0]));
        lemma_decode_one(es[0], "\n]"@);
        assert(decode_items(json_entry(es[0]) + "\n]"@) == Some(seq![es[0]]));
        assert(seq![es[0]] =~= es);
    } else {
        lemma_decode_items_step(es);
        let s = json_items(es) + "\n]"@;
        lemma_decode_items(es.drop_first());
        assert(decode_items(s) == Some(seq![es[0]] + es.drop_first()));
        assert(seq![es[0]] + es.drop_first() =~= es);
    }
}

/// Round trip: the JSON rendering of an entry sequence, decoded back
/// into key/value records, reproduces the original `timestamp`,
/// `level` and `message` values exactly.
pub proof fn lemma_json_round_trip(entries: Seq<LogEntryView>)
    ensures
        decode_entries(json_of(entries)) == Some(entries),
{
    reveal_strlit("[]");
    reveal_strlit("[\n");
    if entries.len() == 0 {
        assert(decode_entries(json_of(entries)) == Some(Seq::<LogEntryView>::empty()));
        assert(entries =~= Seq::<LogEntryView>::empty());
    } else {
        let s = "[\n"@ + json_items(entries) + "\n]"@;
        assert(json_of(entries) == s);
        assert(s =~= "[\n"@ + (json_items(entries) + "\n]"@));
        lemma_prefix("[\n"@, json_items(entries) + "\n]"@);
        assert(s[1] == '\n');
        assert(s != "[]"@);
        assert(s.skip(2) == json_items(entries) + "\n]"@);
        lemma_decode_items(entries);
    }
}

} // verus!
