//! The report's serialization format: a fixed, pretty-printed JSON shape
//! rendered and parsed by the library itself, with a proof that parsing
//! a rendered report yields the same report back.

use vstd::prelude::*;
use crate::report::{ExerciseResult, GradeResult};
use crate::text::str_chars;
use vstd::string::StrSliceExecFns;

verus! {

/// The mathematical value of one serialized exercise entry.
pub ghost struct EntryModel {
    pub name: Seq<char>,
    pub result: bool,
}

/// The mathematical value of a serialized report.
pub ghost struct ReportModel {
    pub entries: Seq<EntryModel>,
    pub total: nat,
    pub succeeds: nat,
    pub failures: nat,
    pub time: nat,
}

/// The models of a sequence of exercise results.
pub open spec fn entry_models(es: Seq<ExerciseResult>) -> Seq<EntryModel> {
    es.map_values(|e: ExerciseResult| EntryModel { name: e.name@, result: e.result })
}

/// The model a report serializes as.
pub open spec fn model_of(r: GradeResult) -> ReportModel {
    ReportModel {
        entries: entry_models(r.exercises@),
        total: r.statistics.total_exercations as nat,
        succeeds: r.statistics.total_succeeds as nat,
        failures: r.statistics.total_failures as nat,
        time: r.statistics.total_time as nat,
    }
}

// ---------------------------------------------------------------------
// The fixed pieces of the format.
// ---------------------------------------------------------------------

pub open spec fn piece_head() -> Seq<char> {
    "{\n  \"exercises\": "@
}

pub open spec fn piece_list_empty() -> Seq<char> {
    "[]"@
}

pub open spec fn piece_list_open() -> Seq<char> {
    "[\n"@
}

pub open spec fn piece_list_close() -> Seq<char> {
    "\n  ]"@
}

pub open spec fn piece_sep() -> Seq<char> {
    ",\n"@
}

pub open spec fn piece_item_open() -> Seq<char> {
    "    {\n      \"name\": \""@
}

pub open spec fn piece_item_mid() -> Seq<char> {
    ",\n      \"result\": "@
}

pub open spec fn piece_item_close() -> Seq<char> {
    "\n    }"@
}

pub open spec fn piece_stats_total() -> Seq<char> {
    ",\n  \"statistics\": {\n    \"total_exercations\": "@
}

pub open spec fn piece_stats_succeeds() -> Seq<char> {
    ",\n    \"total_succeeds\": "@
}

pub open spec fn piece_stats_failures() -> Seq<char> {
    ",\n    \"total_failures\": "@
}

pub open spec fn piece_stats_time() -> Seq<char> {
    ",\n    \"total_time\": "@
}

pub open spec fn piece_tail() -> Seq<char> {
    "\n  }\n}"@
}

pub open spec fn piece_true() -> Seq<char> {
    "true"@
}

pub open spec fn piece_false() -> Seq<char> {
    "false"@
}

// ---------------------------------------------------------------------
// Rendering, as a specification.
// ---------------------------------------------------------------------

/// The decimal digit character for a value below ten.
pub open spec fn dec_digit(d: nat) -> char {
    if d == 0 {
        '0'
    } else if d == 1 {
        '1'
    } else if d == 2 {
        '2'
    } else if d == 3 {
        '3'
    } else if d == 4 {
        '4'
    } else if d == 5 {
        '5'
    } else if d == 6 {
        '6'
    } else if d == 7 {
        '7'
    } else if d == 8 {
        '8'
    } else {
        '9'
    }
}

/// The decimal representation of a number, most significant digit
/// first, with no leading zeros.
pub open spec fn dec_rep(n: nat) -> Seq<char>
    decreases n,
{
    if n < 10 {
        seq![dec_digit(n)]
    } else {
        dec_rep(n / 10).push(dec_digit(n % 10))
    }
}

/// How one character appears inside a JSON string: quote and backslash
/// escaped, everything else as itself.
pub open spec fn escape_char(c: char) -> Seq<char> {
    if c == '"' {
        seq!['\\', '"']
    } else if c == '\\' {
        seq!['\\', '\\']
    } else {
        seq![c]
    }
}

/// A whole string's characters, escaped.
pub open spec fn escape_str(s: Seq<char>) -> Seq<char>
    decreases s.len(),
{
    if s.len() == 0 {
        Seq::<char>::empty()
    } else {
        escape_char(s[0]) + escape_str(s.drop_first())
    }
}

/// The rendering of a boolean.
pub open spec fn bool_rep(b: bool) -> Seq<char> {
    if b {
        piece_true()
    } else {
        piece_false()
    }
}

/// The rendering of one exercise entry.
pub open spec fn render_entry(e: EntryModel) -> Seq<char> {
    piece_item_open() + escape_str(e.name) + seq!['"'] + piece_item_mid() + bool_rep(e.result)
        + piece_item_close()
}

/// The rendering of every entry after the first, each preceded by the
/// separator.
pub open spec fn render_entries_rest(es: Seq<EntryModel>) -> Seq<char>
    decreases es.len(),
{
    if es.len() == 0 {
        Seq::<char>::empty()
    } else {
        piece_sep() + render_entry(es[0]) + render_entries_rest(es.drop_first())
    }
}

/// The rendering of the exercises list.
pub open spec fn render_list(es: Seq<EntryModel>) -> Seq<char> {
    if es.len() == 0 {
        piece_list_empty()
    } else {
        piece_list_open() + render_entry(es[0]) + render_entries_rest(es.drop_first())
            + piece_list_close()
    }
}

/// The rendering of a whole report.
pub open spec fn render_report(m: ReportModel) -> Seq<char> {
    piece_head() + render_list(m.entries) + piece_stats_total() + dec_rep(m.total)
        + piece_stats_succeeds() + dec_rep(m.succeeds) + piece_stats_failures() + dec_rep(
        m.failures,
    ) + piece_stats_time() + dec_rep(m.time) + piece_tail()
}

// ---------------------------------------------------------------------
// Rendering, executably.
// ---------------------------------------------------------------------

/// Appending one more character escapes it after the rest.
proof fn lemma_escape_snoc(s: Seq<char>, c: char)
    ensures
        escape_str(s.push(c)) == escape_str(s) + escape_char(c),
    decreases s.len(),
{
    if s.len() == 0 {
        assert(s.push(c)[0] == c);
        assert(s.push(c).drop_first() =~= Seq::<char>::empty());
        assert(escape_str(Seq::<char>::empty()) == Seq::<char>::empty());
        assert(escape_str(s.push(c)) == escape_char(c) + Seq::<char>::empty());
        assert(escape_str(s.push(c)) =~= escape_str(s) + escape_char(c));
    } else {
        assert(s.push(c)[0] == s[0]);
        assert(s.push(c).drop_first() =~= s.drop_first().push(c));
        lemma_escape_snoc(s.drop_first(), c);
        assert(escape_str(s.push(c)) == escape_char(s[0]) + escape_str(s.drop_first().push(c)));
        assert(escape_str(s) == escape_char(s[0]) + escape_str(s.drop_first()));
        assert(escape_str(s.push(c)) =~= escape_str(s) + escape_char(c));
    }
}

/// Appending one more entry renders it, with a separator, after the
/// rest.
proof fn lemma_entries_rest_snoc(es: Seq<EntryModel>, e: EntryModel)
    ensures
        render_entries_rest(es.push(e)) == render_entries_rest(es) + piece_sep() + render_entry(
            e,
        ),
    decreases es.len(),
{
    if es.len() == 0 {
        assert(es.push(e)[0] == e);
        assert(es.push(e).drop_first() =~= Seq::<EntryModel>::empty());
        assert(render_entries_rest(Seq::<EntryModel>::empty()) == Seq::<char>::empty());
        assert(render_entries_rest(es.push(e)) == piece_sep() + render_entry(e) + Seq::<
            char,
        >::empty());
        assert(render_entries_rest(es.push(e)) =~= render_entries_rest(es) + piece_sep()
            + render_entry(e));
    } else {
        assert(es.push(e)[0] == es[0]);
        assert(es.push(e).drop_first() =~= es.drop_first().push(e));
        lemma_entries_rest_snoc(es.drop_first(), e);
        assert(render_entries_rest(es.push(e)) == piece_sep() + render_entry(es[0])
            + render_entries_rest(es.drop_first().push(e)));
        assert(render_entries_rest(es) == piece_sep() + render_entry(es[0])
            + render_entries_rest(es.drop_first()));
        assert(render_entries_rest(es.push(e)) =~= render_entries_rest(es) + piece_sep()
            + render_entry(e));
    }
}

/// Appends the characters of a string slice.
fn push_str_chars(out: &mut Vec<char>, s: &str)
    ensures
        final(out)@ == old(out)@ + s@,
{
    let n = s.unicode_len();
    let mut i: usize = 0;
    while i < n
        invariant
            i <= n,
            n == s@.len(),
            out@ == old(out)@ + s@.take(i as int),
        decreases n - i,
    {
        out.push(s.get_char(i));
        assert(out@ =~= old(out)@ + s@.take(i + 1));
        i = i + 1;
    }
    assert(out@ =~= old(out)@ + s@);
}

/// The digit character for a value below ten.
fn dec_digit_exec(d: u64) -> (c: char)
    requires
        d < 10,
    ensures
        c == dec_digit(d as nat),
{
    if d == 0 {
        '0'
    } else if d == 1 {
        '1'
    } else if d == 2 {
        '2'
    } else if d == 3 {
        '3'
    } else if d == 4 {
        '4'
    } else if d == 5 {
        '5'
    } else if d == 6 {
        '6'
    } else if d == 7 {
        '7'
    } else if d == 8 {
        '8'
    } else {
        '9'
    }
}

/// Appends the decimal representation of a number.
fn push_u64_dec(out: &mut Vec<char>, n: u64)
    ensures
        final(out)@ == old(out)@ + dec_rep(n as nat),
    decreases n,
{
    if n < 10 {
        out.push(dec_digit_exec(n));
        assert(out@ =~= old(out)@ + dec_rep(n as nat));
    } else {
        push_u64_dec(out, n / 10);
        out.push(dec_digit_exec(n % 10));
        assert(out@ =~= old(out)@ + dec_rep(n as nat));
    }
}

/// Appends a string's characters in escaped form.
fn push_escaped(out: &mut Vec<char>, s: &str)
    ensures
        final(out)@ == old(out)@ + escape_str(s@),
{
    let n = s.unicode_len();
    let mut i: usize = 0;
    assert(escape_str(s@.take(0)) =~= Seq::<char>::empty());
    assert(out@ =~= old(out)@ + escape_str(s@.take(0)));
    while i < n
        invariant
            i <= n,
            n == s@.len(),
            out@ == old(out)@ + escape_str(s@.take(i as int)),
        decreases n - i,
    {
        let c = s.get_char(i);
        if c == '"' {
            out.push('\\');
            out.push('"');
        } else if c == '\\' {
            out.push('\\');
            out.push('\\');
        } else {
            out.push(c);
        }
        proof {
            lemma_escape_snoc(s@.take(i as int), s@[i as int]);
            assert(s@.take(i + 1) =~= s@.take(i as int).push(s@[i as int]));
            assert(out@ =~= old(out)@ + escape_str(s@.take(i + 1)));
        }
        i = i + 1;
    }
    assert(s@.take(n as int) =~= s@);
}

/// Renders a report into its serialized characters.
pub fn render_report_chars(r: &GradeResult) -> (out: Vec<char>)
    ensures
        out@ == render_report(model_of(*r)),
{
    let ghost m = model_of(*r);
    let mut out: Vec<char> = Vec::new();
    push_str_chars(&mut out, "{\n  \"exercises\": ");
    assert(out@ =~= piece_head());

    let k = r.exercises.len();
    if k == 0 {
        push_str_chars(&mut out, "[]");
        assert(m.entries.len() == 0);
        assert(out@ =~= piece_head() + render_list(m.entries));
    } else {
        push_str_chars(&mut out, "[\n");
        push_entry(&mut out, &r.exercises[0]);
        assert(m.entries[0] == (EntryModel { name: r.exercises@[0].name@, result: r.exercises@[0].result }));
        let mut i: usize = 1;
        assert(m.entries.subrange(1, 1) =~= Seq::<EntryModel>::empty());
        assert(out@ =~= piece_head() + piece_list_open() + render_entry(m.entries[0])
            + render_entries_rest(m.entries.subrange(1, 1)));
        while i < k
            invariant
                1 <= i <= k,
                k == r.exercises@.len(),
                m == model_of(*r),
                m.entries.len() == k,
                out@ == piece_head() + piece_list_open() + render_entry(m.entries[0])
                    + render_entries_rest(m.entries.subrange(1, i as int)),
            decreases k - i,
        {
            let ghost prev = out@;
            push_str_chars(&mut out, ",\n");
            push_entry(&mut out, &r.exercises[i]);
            proof {
                assert(m.entries[i as int] == (EntryModel {
                    name: r.exercises@[i as int].name@,
                    result: r.exercises@[i as int].result,
                }));
                lemma_entries_rest_snoc(m.entries.subrange(1, i as int), m.entries[i as int]);
                assert(m.entries.subrange(1, i + 1) =~= m.entries.subrange(1, i as int).push(
                    m.entries[i as int],
                ));
                assert(out@ =~= piece_head() + piece_list_open() + render_entry(m.entries[0])
                    + render_entries_rest(m.entries.subrange(1, i + 1)));
            }
            i = i + 1;
        }
        push_str_chars(&mut out, "\n  ]");
        proof {
            assert(m.entries.subrange(1, k as int) =~= m.entries.drop_first());
            assert(out@ =~= piece_head() + render_list(m.entries));
        }
    }

    push_str_chars(&mut out, ",\n  \"statistics\": {\n    \"total_exercations\": ");
    let total64: u64 = r.statistics.total_exercations as u64;
    push_u64_dec(&mut out, total64);
    push_str_chars(&mut out, ",\n    \"total_succeeds\": ");
    push_u64_dec(&mut out, r.statistics.total_succeeds as u64);
    push_str_chars(&mut out, ",\n    \"total_failures\": ");
    push_u64_dec(&mut out, r.statistics.total_failures as u64);
    push_str_chars(&mut out, ",\n    \"total_time\": ");
    push_u64_dec(&mut out, r.statistics.total_time);
    push_str_chars(&mut out, "\n  }\n}");
    assert(out@ =~= render_report(m));
    out
}

/// Renders one exercise entry.
fn push_entry(out: &mut Vec<char>, e: &ExerciseResult)
    ensures
        final(out)@ == old(out)@ + render_entry(
            (EntryModel { name: e.name@, result: e.result }),
        ),
{
    push_str_chars(out, "    {\n      \"name\": \"");
    push_escaped(out, e.name.as_str());
    out.push('"');
    push_str_chars(out, ",\n      \"result\": ");
    if e.result {
        push_str_chars(out, "true");
    } else {
        push_str_chars(out, "false");
    }
    push_str_chars(out, "\n    }");
    assert(out@ =~= old(out)@ + render_entry((EntryModel { name: e.name@, result: e.result })));
}

/// Relies on String's FromIterator over chars: collecting a vector of
/// characters yields the string of exactly those characters, in order.
#[verifier::external_body]
fn chars_to_string(v: Vec<char>) -> (r: String)
    ensures
        r@ == v@,
{
    v.into_iter().collect()
}

/// Renders a report to its serialized JSON text.
pub fn render_report_json(r: &GradeResult) -> (out: String)
    ensures
        out@ == render_report(model_of(*r)),
{
    chars_to_string(render_report_chars(r))
}

// ---------------------------------------------------------------------
// Parsing, as a specification. Each parser consumes from the front of
// its input and yields the parsed value with the remaining input.
// ---------------------------------------------------------------------

/// Consumes an exact literal.
pub open spec fn sp_lit(s: Seq<char>, lit: Seq<char>) -> Option<Seq<char>> {
    if lit.len() <= s.len() && s.take(lit.len() as int) == lit {
        Some(s.skip(lit.len() as int))
    } else {
        None
    }
}

/// Consumes a string body up to and including its closing quote,
/// undoing the two escapes the renderer writes.
pub open spec fn sp_string_body(s: Seq<char>) -> Option<(Seq<char>, Seq<char>)>
    decreases s.len(),
{
    if s.len() == 0 {
        None
    } else if s[0] == '"' {
        Some((Seq::<char>::empty(), s.drop_first()))
    } else if s[0] == '\\' {
        if s.len() >= 2 && (s[1] == '"' || s[1] == '\\') {
            match sp_string_body(s.skip(2)) {
                Some(p) => Some((seq![s[1]] + p.0, p.1)),
                None => None,
            }
        } else {
            None
        }
    } else {
        match sp_string_body(s.drop_first()) {
            Some(p) => Some((seq![s[0]] + p.0, p.1)),
            None => None,
        }
    }
}

/// A decimal digit character.
pub open spec fn is_digit(c: char) -> bool {
    c == '0' || c == '1' || c == '2' || c == '3' || c == '4' || c == '5' || c == '6' || c == '7'
        || c == '8' || c == '9'
}

/// The value of a decimal digit character.
pub open spec fn digit_val(c: char) -> nat {
    if c == '0' {
        0
    } else if c == '1' {
        1
    } else if c == '2' {
        2
    } else if c == '3' {
        3
    } else if c == '4' {
        4
    } else if c == '5' {
        5
    } else if c == '6' {
        6
    } else if c == '7' {
        7
    } else if c == '8' {
        8
    } else {
        9
    }
}

/// Splits off the maximal run of leading digits.
pub open spec fn sp_digits(s: Seq<char>) -> (Seq<char>, Seq<char>)
    decreases s.len(),
{
    if s.len() > 0 && is_digit(s[0]) {
        let p = sp_digits(s.drop_first());
        (seq![s[0]] + p.0, p.1)
    } else {
        (Seq::<char>::empty(), s)
    }
}

/// The value of a digit run, most significant digit first.
pub open spec fn digits_val(run: Seq<char>) -> nat
    decreases run.len(),
{
    if run.len() == 0 {
        0
    } else {
        digits_val(run.drop_last()) * 10 + digit_val(run.last())
    }
}

/// Consumes a number: a non-empty digit run whose value fits the
/// largest time field.
pub open spec fn sp_number(s: Seq<char>) -> Option<(nat, Seq<char>)> {
    let p = sp_digits(s);
    if p.0.len() == 0 {
        None
    } else if digits_val(p.0) > u64::MAX {
        None
    } else {
        Some((digits_val(p.0), p.1))
    }
}

/// Consumes a rendered boolean.
pub open spec fn sp_bool(s: Seq<char>) -> Option<(bool, Seq<char>)> {
    if sp_lit(s, piece_true()) is Some {
        Some((true, sp_lit(s, piece_true()).unwrap()))
    } else if sp_lit(s, piece_false()) is Some {
        Some((false, sp_lit(s, piece_false()).unwrap()))
    } else {
        None
    }
}

/// Consumes one rendered entry.
pub open spec fn sp_entry(s: Seq<char>) -> Option<(EntryModel, Seq<char>)> {
    match sp_lit(s, piece_item_open()) {
        None => None,
        Some(r1) => match sp_string_body(r1) {
            None => None,
            Some(p) => match sp_lit(p.1, piece_item_mid()) {
                None => None,
                Some(r2) => match sp_bool(r2) {
                    None => None,
                    Some(q) => match sp_lit(q.1, piece_item_close()) {
                        None => None,
                        Some(r3) => Some(((EntryModel { name: p.0, result: q.0 }), r3)),
                    },
                },
            },
        },
    }
}

/// A successful string-body parse consumes at least the closing quote.
proof fn lemma_sp_string_body_shrink(s: Seq<char>)
    ensures
        match sp_string_body(s) {
            Some(p) => p.1.len() < s.len(),
            None => true,
        },
    decreases s.len(),
{
    if s.len() == 0 {
    } else if s[0] == '"' {
    } else if s[0] == '\\' {
        if s.len() >= 2 && (s[1] == '"' || s[1] == '\\') {
            lemma_sp_string_body_shrink(s.skip(2));
        }
    } else {
        lemma_sp_string_body_shrink(s.drop_first());
    }
}

/// A successful entry parse consumes at least one character.
proof fn lemma_sp_entry_shrink(s: Seq<char>)
    ensures
        match sp_entry(s) {
            Some(p) => p.1.len() < s.len(),
            None => true,
        },
{
    if sp_entry(s) is Some {
        proof_piece_lens();
        let r1 = sp_lit(s, piece_item_open()).unwrap();
        lemma_sp_string_body_shrink(r1);
    }
}

/// The fixed pieces are not empty, and begin as the parsers need them
/// to.
proof fn proof_piece_lens()
    ensures
        piece_item_open().len() > 0,
        piece_item_open()[0] == ' ',
        piece_item_mid().len() > 0,
        piece_item_mid()[0] == ',',
        piece_item_close().len() == 6,
        piece_item_close()[0] == '\n',
        piece_sep().len() == 2,
        piece_sep()[0] == ',',
        piece_sep()[1] == '\n',
        piece_list_empty().len() == 2,
        piece_list_empty()[0] == '[',
        piece_list_empty()[1] == ']',
        piece_list_open().len() == 2,
        piece_list_open()[0] == '[',
        piece_list_open()[1] == '\n',
        piece_list_close().len() == 4,
        piece_list_close()[0] == '\n',
        piece_true().len() == 4,
        piece_true()[0] == 't',
        piece_false().len() == 5,
        piece_false()[0] == 'f',
        piece_stats_total().len() > 0,
        piece_stats_total()[0] == ',',
        piece_stats_succeeds().len() > 0,
        piece_stats_succeeds()[0] == ',',
        piece_stats_failures().len() > 0,
        piece_stats_failures()[0] == ',',
        piece_stats_time().len() > 0,
        piece_stats_time()[0] == ',',
        piece_tail().len() == 6,
        piece_tail()[0] == '\n',
        piece_head().len() > 0,
{
    reveal_strlit("    {\n      \"name\": \"");
    reveal_strlit(",\n      \"result\": ");
    reveal_strlit("\n    }");
    reveal_strlit(",\n");
    reveal_strlit("[]");
    reveal_strlit("[\n");
    reveal_strlit("\n  ]");
    reveal_strlit("true");
    reveal_strlit("false");
    reveal_strlit(",\n  \"statistics\": {\n    \"total_exercations\": ");
    reveal_strlit(",\n    \"total_succeeds\": ");
    reveal_strlit(",\n    \"total_failures\": ");
    reveal_strlit(",\n    \"total_time\": ");
    reveal_strlit("\n  }\n}");
    reveal_strlit("{\n  \"exercises\": ");
}

/// Consumes the entries after the first: as long as a separator
/// follows, another entry must.
pub open spec fn sp_entries_more(s: Seq<char>) -> Option<(Seq<EntryModel>, Seq<char>)>
    decreases s.len(),
    via sp_entries_more_dec
{
    match sp_lit(s, piece_sep()) {
        None => Some((Seq::<EntryModel>::empty(), s)),
        Some(r1) => match sp_entry(r1) {
            None => None,
            Some(p) => match sp_entries_more(p.1) {
                None => None,
                Some(q) => Some((seq![p.0] + q.0, q.1)),
            },
        },
    }
}

#[via_fn]
proof fn sp_entries_more_dec(s: Seq<char>) {
    proof_piece_lens();
    if sp_lit(s, piece_sep()) is Some {
        let r1 = sp_lit(s, piece_sep()).unwrap();
        lemma_sp_entry_shrink(r1);
    }
}

/// Consumes the exercises list.
pub open spec fn sp_list(s: Seq<char>) -> Option<(Seq<EntryModel>, Seq<char>)> {
    if sp_lit(s, piece_list_empty()) is Some {
        Some((Seq::<EntryModel>::empty(), sp_lit(s, piece_list_empty()).unwrap()))
    } else {
        match sp_lit(s, piece_list_open()) {
            None => None,
            Some(r1) => match sp_entry(r1) {
                None => None,
                Some(p) => match sp_entries_more(p.1) {
                    None => None,
                    Some(q) => match sp_lit(q.1, piece_list_close()) {
                        None => None,
                        Some(r2) => Some((seq![p.0] + q.0, r2)),
                    },
                },
            },
        }
    }
}

/// Parses a whole serialized report. The input must be exactly one
/// report in the renderer's format, with every statistic in range of
/// its field.
pub open spec fn sp_report(s: Seq<char>) -> Option<ReportModel> {
    match sp_lit(s, piece_head()) {
        None => None,
        Some(r1) => match sp_list(r1) {
            None => None,
            Some(es) => match sp_lit(es.1, piece_stats_total()) {
                None => None,
                Some(r2) => match sp_number(r2) {
                    None => None,
                    Some(total) => match sp_lit(total.1, piece_stats_succeeds()) {
                        None => None,
                        Some(r3) => match sp_number(r3) {
                            None => None,
                            Some(succeeds) => match sp_lit(succeeds.1, piece_stats_failures()) {
                                None => None,
                                Some(r4) => match sp_number(r4) {
                                    None => None,
                                    Some(failures) => match sp_lit(
                                        failures.1,
                                        piece_stats_time(),
                                    ) {
                                        None => None,
                                        Some(r5) => match sp_number(r5) {
                                            None => None,
                                            Some(time) => match sp_lit(time.1, piece_tail()) {
                                                None => None,
                                                Some(r6) => {
                                                    if r6.len() == 0 && total.0 <= usize::MAX
                                                        && succeeds.0 <= usize::MAX && failures.0
                                                        <= usize::MAX {
                                                        Some(
                                                            (ReportModel {
                                                                entries: es.0,
                                                                total: total.0,
                                                                succeeds: succeeds.0,
                                                                failures: failures.0,
                                                                time: time.0,
                                                            }),
                                                        )
                                                    } else {
                                                        None
                                                    }
                                                },
                                            },
                                        },
                                    },
                                },
                            },
                        },
                    },
                },
            },
        },
    }
}

// ---------------------------------------------------------------------
// The round trip: parsing a rendered report yields the same report.
// ---------------------------------------------------------------------

/// A literal parses off the front of exactly what it was prepended to.
proof fn lemma_sp_lit_exact(lit: Seq<char>, rest: Seq<char>)
    ensures
        sp_lit(lit + rest, lit) == Some(rest),
{
    let s = lit + rest;
    assert(s.take(lit.len() as int) =~= lit);
    assert(s.skip(lit.len() as int) =~= rest);
}

/// Unescaping undoes escaping: a string body parse of an escaped name,
/// its closing quote, and a remainder yields the name and the
/// remainder.
proof fn lemma_string_body_round_trip(name: Seq<char>, rest: Seq<char>)
    ensures
        sp_string_body(escape_str(name) + seq!['"'] + rest) == Some((name, rest)),
    decreases name.len(),
{
    let s = escape_str(name) + seq!['"'] + rest;
    if name.len() == 0 {
        assert(s =~= seq!['"'] + rest);
        assert(s[0] == '"');
        assert(s.drop_first() =~= rest);
        assert(name =~= Seq::<char>::empty());
    } else {
        let c = name[0];
        let tail = name.drop_first();
        assert(escape_str(name) == escape_char(c) + escape_str(tail));
        let inner = escape_str(tail) + seq!['"'] + rest;
        lemma_string_body_round_trip(tail, rest);
        if c == '"' {
            assert(s =~= seq!['\\', '"'] + inner);
            assert(s[0] == '\\');
            assert(s[1] == '"');
            assert(s.len() >= 2);
            assert(s.skip(2) =~= inner);
            assert(seq![s[1]] + tail =~= name);
        } else if c == '\\' {
            assert(s =~= seq!['\\', '\\'] + inner);
            assert(s[0] == '\\');
            assert(s[1] == '\\');
            assert(s.len() >= 2);
            assert(s.skip(2) =~= inner);
            assert(seq![s[1]] + tail =~= name);
        } else {
            assert(s =~= seq![c] + inner);
            assert(s[0] == c);
            assert(s.drop_first() =~= inner);
            assert(seq![s[0]] + tail =~= name);
        }
    }
}

/// Every character of a decimal representation is a digit, and there is
/// at least one.
proof fn lemma_dec_rep_digits(n: nat)
    ensures
        dec_rep(n).len() > 0,
        forall|i: int| 0 <= i < dec_rep(n).len() ==> is_digit(#[trigger] dec_rep(n)[i]),
    decreases n,
{
    if n < 10 {
        assert(is_digit(dec_digit(n)));
    } else {
        lemma_dec_rep_digits(n / 10);
        assert(is_digit(dec_digit(n % 10)));
        assert forall|i: int| 0 <= i < dec_rep(n).len() implies is_digit(
            #[trigger] dec_rep(n)[i],
        ) by {
            if i < dec_rep(n / 10).len() {
                assert(dec_rep(n)[i] == dec_rep(n / 10)[i]);
            } else {
                assert(dec_rep(n)[i] == dec_digit(n % 10));
            }
        }
    }
}

/// The digit splitter takes exactly a leading digit run when what
/// follows is not a digit.
proof fn lemma_sp_digits_split(run: Seq<char>, rest: Seq<char>)
    requires
        forall|i: int| 0 <= i < run.len() ==> is_digit(#[trigger] run[i]),
        rest.len() == 0 || !is_digit(rest[0]),
    ensures
        sp_digits(run + rest) == (run, rest),
    decreases run.len(),
{
    let s = run + rest;
    if run.len() == 0 {
        assert(s =~= rest);
        assert(run =~= Seq::<char>::empty());
        if s.len() > 0 {
            assert(!is_digit(s[0]));
        }
    } else {
        assert(s[0] == run[0]);
        assert(is_digit(s[0]));
        assert(s.drop_first() =~= run.drop_first() + rest);
        lemma_sp_digits_split(run.drop_first(), rest);
        assert(seq![s[0]] + run.drop_first() =~= run);
    }
}

/// Reading back a decimal representation recovers the number.
proof fn lemma_digits_val_dec_rep(n: nat)
    ensures
        digits_val(dec_rep(n)) == n,
    decreases n,
{
    if n < 10 {
        let run = dec_rep(n);
        assert(run.drop_last() =~= Seq::<char>::empty());
        assert(run.last() == dec_digit(n));
        assert(digits_val(Seq::<char>::empty()) == 0);
        assert(digits_val(run) == digits_val(run.drop_last()) * 10 + digit_val(run.last()));
        assert(digit_val(dec_digit(n)) == n);
    } else {
        lemma_digits_val_dec_rep(n / 10);
        let run = dec_rep(n);
        assert(run.drop_last() =~= dec_rep(n / 10));
        assert(run.last() == dec_digit(n % 10));
        assert(digits_val(run) == digits_val(run.drop_last()) * 10 + digit_val(run.last()));
        assert(digit_val(dec_digit(n % 10)) == n % 10);
        assert((n / 10) * 10 + n % 10 == n);
    }
}

/// A rendered number parses back to itself when what follows is not a
/// digit.
proof fn lemma_number_round_trip(n: nat, rest: Seq<char>)
    requires
        n <= u64::MAX,
        rest.len() > 0,
        !is_digit(rest[0]),
    ensures
        sp_number(dec_rep(n) + rest) == Some((n, rest)),
{
    lemma_dec_rep_digits(n);
    lemma_sp_digits_split(dec_rep(n), rest);
    lemma_digits_val_dec_rep(n);
}

/// A rendered boolean parses back to itself.
proof fn lemma_bool_round_trip(b: bool, rest: Seq<char>)
    ensures
        sp_bool(bool_rep(b) + rest) == Some((b, rest)),
{
    proof_piece_lens();
    if b {
        lemma_sp_lit_exact(piece_true(), rest);
    } else {
        let s = piece_false() + rest;
        assert(s[0] == 'f');
        if sp_lit(s, piece_true()) is Some {
            assert(s.take(piece_true().len() as int)[0] == piece_true()[0]);
            assert(false);
        }
        lemma_sp_lit_exact(piece_false(), rest);
    }
}

/// A rendered entry parses back to itself.
proof fn lemma_entry_round_trip(e: EntryModel, rest: Seq<char>)
    ensures
        sp_entry(render_entry(e) + rest) == Some((e, rest)),
{
    let s = render_entry(e) + rest;
    let after_name = piece_item_mid() + bool_rep(e.result) + piece_item_close() + rest;
    let r1 = escape_str(e.name) + seq!['"'] + after_name;
    assert(s =~= piece_item_open() + r1);
    lemma_sp_lit_exact(piece_item_open(), r1);
    lemma_string_body_round_trip(e.name, after_name);
    let r2 = bool_rep(e.result) + (piece_item_close() + rest);
    assert(after_name =~= piece_item_mid() + r2);
    lemma_sp_lit_exact(piece_item_mid(), r2);
    lemma_bool_round_trip(e.result, piece_item_close() + rest);
    lemma_sp_lit_exact(piece_item_close(), rest);
}

/// The rendered entries after the first parse back to themselves when
/// what follows cannot start another separator.
proof fn lemma_entries_more_round_trip(es: Seq<EntryModel>, rest: Seq<char>)
    requires
        rest.len() > 0,
        rest[0] != ',',
    ensures
        sp_entries_more(render_entries_rest(es) + rest) == Some((es, rest)),
    decreases es.len(),
{
    proof_piece_lens();
    let s = render_entries_rest(es) + rest;
    if es.len() == 0 {
        assert(s =~= rest);
        if sp_lit(s, piece_sep()) is Some {
            assert(s.take(piece_sep().len() as int)[0] == piece_sep()[0]);
            assert(false);
        }
        assert(es =~= Seq::<EntryModel>::empty());
    } else {
        let tail_render = render_entries_rest(es.drop_first()) + rest;
        let entry_render = render_entry(es[0]) + tail_render;
        assert(s =~= piece_sep() + entry_render);
        lemma_sp_lit_exact(piece_sep(), entry_render);
        lemma_entry_round_trip(es[0], tail_render);
        lemma_entries_more_round_trip(es.drop_first(), rest);
        assert(seq![es[0]] + es.drop_first() =~= es);
    }
}

/// A rendered exercises list parses back to itself.
proof fn lemma_list_round_trip(es: Seq<EntryModel>, rest: Seq<char>)
    ensures
        sp_list(render_list(es) + rest) == Some((es, rest)),
{
    proof_piece_lens();
    let s = render_list(es) + rest;
    if es.len() == 0 {
        assert(s =~= piece_list_empty() + rest);
        lemma_sp_lit_exact(piece_list_empty(), rest);
    } else {
        let close_render = piece_list_close() + rest;
        let more_render = render_entries_rest(es.drop_first()) + close_render;
        let entry_render = render_entry(es[0]) + more_render;
        assert(s =~= piece_list_open() + entry_render);
        if sp_lit(s, piece_list_empty()) is Some {
            assert(s.take(piece_list_empty().len() as int)[1] == piece_list_empty()[1]);
            assert(s[1] == piece_list_open()[1]);
            assert(false);
        }
        lemma_sp_lit_exact(piece_list_open(), entry_render);
        lemma_entry_round_trip(es[0], more_render);
        assert(close_render[0] == '\n');
        lemma_entries_more_round_trip(es.drop_first(), close_render);
        lemma_sp_lit_exact(piece_list_close(), rest);
        assert(seq![es[0]] + es.drop_first() =~= es);
    }
}

/// Parsing a rendered report model yields it back, whenever its
/// statistics fit their fields.
#[verifier::rlimit(100)]
pub proof fn lemma_report_round_trip_model(m: ReportModel)
    requires
        m.total <= usize::MAX,
        m.succeeds <= usize::MAX,
        m.failures <= usize::MAX,
        m.time <= u64::MAX,
    ensures
        sp_report(render_report(m)) == Some(m),
{
    proof_piece_lens();
    let s = render_report(m);
    let after_time = piece_tail();
    let time_render = dec_rep(m.time) + after_time;
    let after_failures = piece_stats_time() + time_render;
    let failures_render = dec_rep(m.failures) + after_failures;
    let after_succeeds = piece_stats_failures() + failures_render;
    let succeeds_render = dec_rep(m.succeeds) + after_succeeds;
    let after_total = piece_stats_succeeds() + succeeds_render;
    let total_render = dec_rep(m.total) + after_total;
    let after_list = piece_stats_total() + total_render;
    let list_render = render_list(m.entries) + after_list;
    assert(s =~= piece_head() + list_render);
    lemma_sp_lit_exact(piece_head(), list_render);
    lemma_list_round_trip(m.entries, after_list);
    lemma_sp_lit_exact(piece_stats_total(), total_render);
    assert(after_total[0] == ',');
    assert(!is_digit(after_total[0]));
    lemma_number_round_trip(m.total, after_total);
    lemma_sp_lit_exact(piece_stats_succeeds(), succeeds_render);
    assert(after_succeeds[0] == ',');
    lemma_number_round_trip(m.succeeds, after_succeeds);
    lemma_sp_lit_exact(piece_stats_failures(), failures_render);
    assert(after_failures[0] == ',');
    lemma_number_round_trip(m.failures, after_failures);
    lemma_sp_lit_exact(piece_stats_time(), time_render);
    assert(after_time[0] == '\n');
    assert(!is_digit(after_time[0]));
    lemma_number_round_trip(m.time, after_time);
    assert(piece_tail() + Seq::<char>::empty() =~= piece_tail());
    lemma_sp_lit_exact(piece_tail(), Seq::<char>::empty());
}

/// The round trip for whole reports: parsing the rendered form of any
/// report yields a structurally identical report model.
pub proof fn lemma_report_round_trip(r: GradeResult)
    ensures
        sp_report(render_report(model_of(r))) == Some(model_of(r)),
{
    lemma_report_round_trip_model(model_of(r));
}

// ---------------------------------------------------------------------
// Parsing, executably.
// ---------------------------------------------------------------------

/// Consumes the literal `lit` at position `i`, yielding the position
/// after it.
fn expect_lit(v: &Vec<char>, i: usize, lit: &str) -> (r: Option<usize>)
    requires
        i <= v@.len(),
    ensures
        match r {
            Some(j) => {
                &&& j == i + lit@.len()
                &&& j <= v@.len()
                &&& sp_lit(v@.skip(i as int), lit@) == Some(v@.skip(j as int))
            },
            None => sp_lit(v@.skip(i as int), lit@) is None,
        },
{
    let n = lit.unicode_len();
    let vn = v.len();
    if n > vn - i {
        assert(v@.skip(i as int).len() < lit@.len());
        return None;
    }
    let mut k: usize = 0;
    while k < n
        invariant
            k <= n,
            n == lit@.len(),
            vn == v@.len(),
            i + n <= vn,
            forall|t: int| 0 <= t < k ==> v@[i + t] == lit@[t],
        decreases n - k,
    {
        if v[i + k] != lit.get_char(k) {
            assert(v@.skip(i as int).take(n as int)[k as int] != lit@[k as int]);
            return None;
        }
        k = k + 1;
    }
    assert(v@.skip(i as int).take(n as int) =~= lit@);
    assert(v@.skip(i as int).skip(n as int) =~= v@.skip(i + n));
    Some(i + n)
}

/// Consumes a string body from position `i`, yielding the unescaped
/// characters and the position after the closing quote.
fn parse_string_body(v: &Vec<char>, i: usize) -> (r: Option<(Vec<char>, usize)>)
    requires
        i <= v@.len(),
    ensures
        match r {
            Some(p) => {
                &&& i <= p.1 <= v@.len()
                &&& sp_string_body(v@.skip(i as int)) == Some((p.0@, v@.skip(p.1 as int)))
            },
            None => sp_string_body(v@.skip(i as int)) is None,
        },
{
    let mut acc: Vec<char> = Vec::new();
    let mut cur: usize = i;
    loop
        invariant
            i <= cur <= v@.len(),
            match sp_string_body(v@.skip(cur as int)) {
                Some(p) => sp_string_body(v@.skip(i as int)) == Some((acc@ + p.0, p.1)),
                None => sp_string_body(v@.skip(i as int)) is None,
            },
        decreases v@.len() - cur,
    {
        if cur == v.len() {
            assert(v@.skip(cur as int).len() == 0);
            return None;
        }
        let c = v[cur];
        assert(v@.skip(cur as int)[0] == v@[cur as int]);
        if c == '"' {
            proof {
                assert(v@.skip(cur as int).drop_first() =~= v@.skip(cur + 1));
                let p = sp_string_body(v@.skip(cur as int)).unwrap();
                assert(acc@ + p.0 =~= acc@);
            }
            return Some((acc, cur + 1));
        }
        if c == '\\' {
            if cur + 1 == v.len() {
                assert(v@.skip(cur as int).len() == 1);
                return None;
            }
            let c2 = v[cur + 1];
            assert(v@.skip(cur as int)[1] == v@[cur as int + 1]);
            if c2 == '"' || c2 == '\\' {
                let ghost prev = acc@;
                acc.push(c2);
                proof {
                    assert(v@.skip(cur as int).skip(2) =~= v@.skip(cur + 2));
                    if sp_string_body(v@.skip(cur + 2)) is Some {
                        let p = sp_string_body(v@.skip(cur + 2)).unwrap();
                        assert(sp_string_body(v@.skip(cur as int)) == Some(
                            (seq![c2] + p.0, p.1),
                        ));
                        assert(prev + (seq![c2] + p.0) =~= acc@ + p.0);
                    }
                }
                cur = cur + 2;
            } else {
                return None;
            }
        } else {
            let ghost prev = acc@;
            acc.push(c);
            proof {
                assert(v@.skip(cur as int).drop_first() =~= v@.skip(cur + 1));
                if sp_string_body(v@.skip(cur + 1)) is Some {
                    let p = sp_string_body(v@.skip(cur + 1)).unwrap();
                    assert(sp_string_body(v@.skip(cur as int)) == Some((seq![c] + p.0, p.1)));
                    assert(prev + (seq![c] + p.0) =~= acc@ + p.0);
                }
            }
            cur = cur + 1;
        }
    }
}

/// What the digit splitter yields: a run of digits followed by the
/// rest, which starts with no digit.
proof fn lemma_sp_digits_characterize(s: Seq<char>)
    ensures
        ({
            let p = sp_digits(s);
            &&& s == p.0 + p.1
            &&& forall|k: int| 0 <= k < p.0.len() ==> is_digit(#[trigger] p.0[k])
            &&& (p.1.len() == 0 || !is_digit(p.1[0]))
        }),
    decreases s.len(),
{
    let p = sp_digits(s);
    if s.len() > 0 && is_digit(s[0]) {
        lemma_sp_digits_characterize(s.drop_first());
        let q = sp_digits(s.drop_first());
        assert(s =~= seq![s[0]] + (q.0 + q.1));
        assert(s =~= p.0 + p.1);
    } else {
        assert(s =~= p.0 + p.1);
    }
}

/// A digit run's value only grows as the run extends.
proof fn lemma_digits_val_take_le(run: Seq<char>, k: int)
    requires
        0 <= k <= run.len(),
    ensures
        digits_val(run.take(k)) <= digits_val(run),
    decreases run.len() - k,
{
    if k == run.len() {
        assert(run.take(k) =~= run);
    } else {
        assert(run.take(k + 1).drop_last() =~= run.take(k));
        assert(run.take(k + 1).last() == run[k]);
        assert(digits_val(run.take(k + 1)) == digits_val(run.take(k)) * 10 + digit_val(run[k]));
        lemma_digits_val_take_le(run, k + 1);
    }
}

/// Decides whether a character is a decimal digit.
fn is_digit_exec(c: char) -> (r: bool)
    ensures
        r == is_digit(c),
{
    c == '0' || c == '1' || c == '2' || c == '3' || c == '4' || c == '5' || c == '6' || c == '7'
        || c == '8' || c == '9'
}

/// The value of a digit character.
fn digit_val_exec(c: char) -> (r: u64)
    requires
        is_digit(c),
    ensures
        r == digit_val(c),
{
    if c == '0' {
        0
    } else if c == '1' {
        1
    } else if c == '2' {
        2
    } else if c == '3' {
        3
    } else if c == '4' {
        4
    } else if c == '5' {
        5
    } else if c == '6' {
        6
    } else if c == '7' {
        7
    } else if c == '8' {
        8
    } else {
        9
    }
}

/// Consumes a number at position `i`.
fn parse_number_u64(v: &Vec<char>, i: usize) -> (r: Option<(u64, usize)>)
    requires
        i <= v@.len(),
    ensures
        match r {
            Some(p) => {
                &&& i <= p.1 <= v@.len()
                &&& sp_number(v@.skip(i as int)) == Some((p.0 as nat, v@.skip(p.1 as int)))
            },
            None => sp_number(v@.skip(i as int)) is None,
        },
{
    proof {
        lemma_sp_digits_characterize(v@.skip(i as int));
    }
    let ghost s = v@.skip(i as int);
    let ghost run = sp_digits(s).0;
    let ghost rest = sp_digits(s).1;
    let mut acc: u64 = 0;
    let mut cur: usize = i;
    loop
        invariant
            i <= cur <= v@.len(),
            s == v@.skip(i as int),
            run == sp_digits(s).0,
            rest == sp_digits(s).1,
            s == run + rest,
            forall|k: int| 0 <= k < run.len() ==> is_digit(#[trigger] run[k]),
            rest.len() == 0 || !is_digit(rest[0]),
            cur - i <= run.len(),
            forall|t: int| i <= t < cur ==> is_digit(#[trigger] v@[t]),
            acc == digits_val(run.take(cur - i)),
        decreases v@.len() - cur,
    {
        let at_end = cur == v.len();
        let mut next_digit = false;
        let mut c: char = '0';
        if !at_end {
            c = v[cur];
            assert(s[cur - i] == v@[cur as int]);
            next_digit = is_digit_exec(c);
        }
        if at_end || !next_digit {
            // the run ends exactly here
            proof {
                if (cur - i) < run.len() {
                    assert(run[cur - i] == s[cur - i]);
                    assert(is_digit(s[cur - i]));
                    if at_end {
                        assert(s.len() == cur - i);
                        assert(false);
                    } else {
                        assert(false);
                    }
                }
                assert(cur - i == run.len());
                assert(run.take(cur - i) =~= run);
            }
            if cur == i {
                assert(run.len() == 0);
                return None;
            }
            assert(run.len() > 0);
            assert(digits_val(run) == acc);
            assert(s.skip(run.len() as int) =~= rest);
            assert(v@.skip(cur as int) =~= s.skip(cur - i));
            return Some((acc, cur));
        }
        // c is one more digit of the run
        proof {
            if (cur - i) >= run.len() {
                assert(rest[cur - i - run.len()] == s[cur - i]);
                assert(rest[0] == s[run.len() as int]);
                assert(is_digit(s[run.len() as int])) by {
                    assert(forall|t: int| i <= t < cur ==> is_digit(#[trigger] v@[t]));
                    if run.len() < cur - i {
                        assert(v@[i + run.len()] == s[run.len() as int]);
                    }
                }
                assert(false);
            }
            assert(cur - i < run.len());
            assert(run[cur - i] == s[cur - i]);
        }
        let d = digit_val_exec(c);
        if acc > (u64::MAX - d) / 10 {
            // the run's value cannot fit
            proof {
                assert(run.take(cur - i + 1).drop_last() =~= run.take(cur - i));
                assert(run.take(cur - i + 1).last() == run[cur - i]);
                assert(digits_val(run.take(cur - i + 1)) == acc * 10 + digit_val(c));
                assert(acc * 10 + digit_val(c) > u64::MAX) by {
                    assert(acc >= (u64::MAX - d) / 10 + 1);
                    assert(((u64::MAX - d) / 10 + 1) * 10 > u64::MAX - d) by (nonlinear_arith)
                        requires
                            d <= 9,
                    ;
                    assert(acc * 10 >= ((u64::MAX - d) / 10 + 1) * 10) by (nonlinear_arith)
                        requires
                            acc >= (u64::MAX - d) / 10 + 1,
                    ;
                }
                lemma_digits_val_take_le(run, cur - i + 1);
                assert(digits_val(run) > u64::MAX);
            }
            return None;
        }
        proof {
            assert(acc * 10 + d <= u64::MAX) by (nonlinear_arith)
                requires
                    acc <= (u64::MAX - d) / 10,
                    d <= 9,
            ;
            assert(run.take(cur - i + 1).drop_last() =~= run.take(cur - i));
            assert(run.take(cur - i + 1).last() == run[cur - i]);
        }
        acc = acc * 10 + d;
        cur = cur + 1;
    }
}

/// Consumes a rendered boolean at position `i`.
fn parse_bool(v: &Vec<char>, i: usize) -> (r: Option<(bool, usize)>)
    requires
        i <= v@.len(),
    ensures
        match r {
            Some(p) => {
                &&& i <= p.1 <= v@.len()
                &&& sp_bool(v@.skip(i as int)) == Some((p.0, v@.skip(p.1 as int)))
            },
            None => sp_bool(v@.skip(i as int)) is None,
        },
{
    match expect_lit(v, i, "true") {
        Some(j) => Some((true, j)),
        None => match expect_lit(v, i, "false") {
            Some(j) => Some((false, j)),
            None => None,
        },
    }
}

/// Consumes one rendered entry at position `i`.
fn parse_entry(v: &Vec<char>, i: usize) -> (r: Option<(ExerciseResult, usize)>)
    requires
        i <= v@.len(),
    ensures
        match r {
            Some(p) => {
                &&& i <= p.1 <= v@.len()
                &&& sp_entry(v@.skip(i as int)) == Some(
                    ((EntryModel { name: p.0.name@, result: p.0.result }), v@.skip(p.1 as int)),
                )
            },
            None => sp_entry(v@.skip(i as int)) is None,
        },
{
    let j1 = match expect_lit(v, i, "    {\n      \"name\": \"") {
        Some(j) => j,
        None => {
            return None;
        },
    };
    let parsed_name = match parse_string_body(v, j1) {
        Some(p) => p,
        None => {
            return None;
        },
    };
    let name_chars = parsed_name.0;
    let j2 = parsed_name.1;
    let j3 = match expect_lit(v, j2, ",\n      \"result\": ") {
        Some(j) => j,
        None => {
            return None;
        },
    };
    let parsed_bool = match parse_bool(v, j3) {
        Some(p) => p,
        None => {
            return None;
        },
    };
    let b = parsed_bool.0;
    let j4 = parsed_bool.1;
    let j5 = match expect_lit(v, j4, "\n    }") {
        Some(j) => j,
        None => {
            return None;
        },
    };
    let name = chars_to_string(name_chars);
    Some((ExerciseResult { name: name, result: b }, j5))
}

/// Consumes the rendered exercises list at position `i`.
fn parse_list(v: &Vec<char>, i: usize) -> (r: Option<(Vec<ExerciseResult>, usize)>)
    requires
        i <= v@.len(),
    ensures
        match r {
            Some(p) => {
                &&& i <= p.1 <= v@.len()
                &&& sp_list(v@.skip(i as int)) == Some((entry_models(p.0@), v@.skip(p.1 as int)))
            },
            None => sp_list(v@.skip(i as int)) is None,
        },
{
    proof {
        proof_piece_lens();
    }
    match expect_lit(v, i, "[]") {
        Some(j) => {
            let es: Vec<ExerciseResult> = Vec::new();
            assert(entry_models(es@) =~= Seq::<EntryModel>::empty());
            return Some((es, j));
        },
        None => {
        },
    }
    let j1 = match expect_lit(v, i, "[\n") {
        Some(j) => j,
        None => {
            return None;
        },
    };
    let parsed_first = match parse_entry(v, j1) {
        Some(p) => p,
        None => {
            return None;
        },
    };
    let j2 = parsed_first.1;
    let ghost first_model = EntryModel {
        name: parsed_first.0.name@,
        result: parsed_first.0.result,
    };
    let mut es: Vec<ExerciseResult> = Vec::new();
    es.push(parsed_first.0);
    let mut cur: usize = j2;
    assert(entry_models(es@.drop_first()) =~= Seq::<EntryModel>::empty());
    loop
        invariant
            i <= j2,
            j2 <= cur <= v@.len(),
            es@.len() >= 1,
            first_model == (EntryModel { name: es@[0].name@, result: es@[0].result }),
            sp_lit(v@.skip(i as int), piece_list_empty()) is None,
            sp_lit(v@.skip(i as int), piece_list_open()) == Some(v@.skip(j1 as int)),
            sp_entry(v@.skip(j1 as int)) == Some((first_model, v@.skip(j2 as int))),
            i <= j1 <= v@.len(),
            match sp_entries_more(v@.skip(cur as int)) {
                Some(q) => sp_entries_more(v@.skip(j2 as int)) == Some(
                    (entry_models(es@.drop_first()) + q.0, q.1),
                ),
                None => sp_entries_more(v@.skip(j2 as int)) is None,
            },
        decreases v@.len() - cur,
    {
        proof {
            proof_piece_lens();
        }
        match expect_lit(v, cur, ",\n") {
            None => {
                proof {
                    assert(sp_entries_more(v@.skip(cur as int)) == Some(
                        (Seq::<EntryModel>::empty(), v@.skip(cur as int)),
                    ));
                    let q0 = sp_entries_more(v@.skip(cur as int)).unwrap();
                    assert(entry_models(es@.drop_first()) + q0.0 =~= entry_models(
                        es@.drop_first(),
                    ));
                }
                let j3 = match expect_lit(v, cur, "\n  ]") {
                    Some(j) => j,
                    None => {
                        return None;
                    },
                };
                proof {
                    assert(seq![first_model] + entry_models(es@.drop_first()) =~= entry_models(
                        es@,
                    ));
                }
                return Some((es, j3));
            },
            Some(j) => {
                let parsed_next = match parse_entry(v, j) {
                    Some(p) => p,
                    None => {
                        return None;
                    },
                };
                let j4 = parsed_next.1;
                let ghost next_model = EntryModel {
                    name: parsed_next.0.name@,
                    result: parsed_next.0.result,
                };
                let ghost prev = es@;
                es.push(parsed_next.0);
                proof {
                    lemma_sp_entry_shrink(v@.skip(j as int));
                    assert(es@.drop_first() =~= prev.drop_first().push(es@.last()));
                    assert(entry_models(es@.drop_first()) =~= entry_models(
                        prev.drop_first(),
                    ).push(next_model));
                    if sp_entries_more(v@.skip(j4 as int)) is Some {
                        let q = sp_entries_more(v@.skip(j4 as int)).unwrap();
                        assert(sp_entries_more(v@.skip(cur as int)) == Some(
                            (seq![next_model] + q.0, q.1),
                        ));
                        assert(entry_models(prev.drop_first()) + (seq![next_model] + q.0)
                            =~= entry_models(es@.drop_first()) + q.0);
                    } else {
                        assert(sp_entries_more(v@.skip(cur as int)) is None);
                    }
                }
                cur = j4;
            },
        }
    }
}

/// Parses serialized report text. Succeeds exactly on the renderer's
/// output format, yielding a report whose model is the parsed one.
pub fn parse_report_json(s: &str) -> (r: Option<GradeResult>)
    ensures
        match r {
            Some(g) => sp_report(s@) == Some(model_of(g)),
            None => sp_report(s@) is None,
        },
{
    let v = str_chars(s);
    assert(v@.skip(0) =~= s@);
    let j1 = match expect_lit(&v, 0, "{\n  \"exercises\": ") {
        Some(j) => j,
        None => {
            return None;
        },
    };
    let parsed_list = match parse_list(&v, j1) {
        Some(p) => p,
        None => {
            return None;
        },
    };
    let es = parsed_list.0;
    let j2 = parsed_list.1;
    let j3 = match expect_lit(&v, j2, ",\n  \"statistics\": {\n    \"total_exercations\": ") {
        Some(j) => j,
        None => {
            return None;
        },
    };
    let parsed_total = match parse_number_u64(&v, j3) {
        Some(p) => p,
        None => {
            return None;
        },
    };
    if parsed_total.0 > usize::MAX as u64 {
        return None;
    }
    let total: usize = parsed_total.0 as usize;
    let j4 = match expect_lit(&v, parsed_total.1, ",\n    \"total_succeeds\": ") {
        Some(j) => j,
        None => {
            return None;
        },
    };
    let parsed_succeeds = match parse_number_u64(&v, j4) {
        Some(p) => p,
        None => {
            return None;
        },
    };
    if parsed_succeeds.0 > usize::MAX as u64 {
        return None;
    }
    let succeeds: usize = parsed_succeeds.0 as usize;
    let j5 = match expect_lit(&v, parsed_succeeds.1, ",\n    \"total_failures\": ") {
        Some(j) => j,
        None => {
            return None;
        },
    };
    let parsed_failures = match parse_number_u64(&v, j5) {
        Some(p) => p,
        None => {
            return None;
        },
    };
    if parsed_failures.0 > usize::MAX as u64 {
        return None;
    }
    let failures: usize = parsed_failures.0 as usize;
    let j6 = match expect_lit(&v, parsed_failures.1, ",\n    \"total_time\": ") {
        Some(j) => j,
        None => {
            return None;
        },
    };
    let parsed_time = match parse_number_u64(&v, j6) {
        Some(p) => p,
        None => {
            return None;
        },
    };
    let j7 = match expect_lit(&v, parsed_time.1, "\n  }\n}") {
        Some(j) => j,
        None => {
            return None;
        },
    };
    if j7 != v.len() {
        assert(v@.skip(j7 as int).len() != 0);
        return None;
    }
    assert(v@.skip(j7 as int).len() == 0);
    let statistics = crate::report::Statistics {
        total_exercations: total,
        total_succeeds: succeeds,
        total_failures: failures,
        total_time: parsed_time.0,
    };
    let g = GradeResult { exercises: es, statistics: statistics };
    Some(g)
}

} // verus!
