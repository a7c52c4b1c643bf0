//! Properties of the parser and of the export, stated over their models.
use vstd::prelude::*;
use crate::export::{display_name, exportable, export_line, export_lines, export_text, is_name_char, sanitized};
use crate::map::{MapFileView, ParseError, Stage, SymbolView};
use crate::number::{decimal, digit_char, hex_u64};
use crate::parse::{
    entry_marker, initial_state, lemma_run_first, is_data_line, parse_map, publics_marker, run, step,
    ScanState,
};
use crate::scan::{class_of, section_of, symbol_of};
use crate::text::{contains_seq, crlf_lines, lemma_pieces_nonempty, pieces, words};

verus! {

/// Scanning `a + b` is scanning `a`, then `b` from where `a` left off.
pub proof fn lemma_run_append(st: ScanState, a: Seq<Seq<char>>, b: Seq<Seq<char>>)
    ensures
        run(st, a + b) == match run(st, a) {
            Ok(s) => run(s, b),
            Err(e) => Err(e),
        },
    decreases a.len(),
{
    if a.len() > 0 {
        assert((a + b)[0] == a[0]);
        assert((a + b).drop_first() =~= a.drop_first() + b);
        match step(st, a[0]) {
            Ok(s) => lemma_run_append(s, a.drop_first(), b),
            Err(_) => {},
        }
    } else {
        assert(a + b =~= b);
    }
}

/// A stored RVA is `0` when the raw value is `0`, and otherwise the raw value
/// less the load address, which it does not exceed.
pub proof fn lemma_symbol_rva(line: Seq<char>, stage: Stage, n: usize, load: u64)
    requires
        symbol_of(line, stage, n, load) is Ok,
    ensures
        words(line).len() >= 3,
        hex_u64(words(line)[2]) is Some,
        ({
            let raw = hex_u64(words(line)[2])->Some_0;
            let rva = symbol_of(line, stage, n, load)->Ok_0.rva;
            &&& raw == 0 ==> rva == 0
            &&& raw != 0 ==> raw >= load && rva == raw - load
        }),
{
    reveal(symbol_of);
}

proof fn lemma_symbol_fits(line: Seq<char>, stage: Stage, n: usize, load: u64)
    requires
        symbol_of(line, stage, n, load) is Ok,
    ensures
        symbol_of(line, stage, n, load)->Ok_0.rva + load <= u64::MAX,
{
    lemma_symbol_rva(line, stage, n, load);
}

/// Every symbol gathered so far has an absolute address that fits.
pub open spec fn addresses_fit(st: ScanState) -> bool {
    &&& st.stage == Stage::Header ==> st.functions.len() == 0 && st.static_symbols.len() == 0
    &&& forall|i: int|
        0 <= i < st.functions.len() ==> (#[trigger] st.functions[i]).rva + st.load->Some_0
            <= u64::MAX
    &&& forall|i: int|
        0 <= i < st.static_symbols.len() ==> (#[trigger] st.static_symbols[i]).rva
            + st.load->Some_0 <= u64::MAX
}

proof fn lemma_step_fits(st: ScanState, line: Seq<char>)
    requires
        addresses_fit(st),
        step(st, line) is Ok,
    ensures
        addresses_fit(step(st, line)->Ok_0),
{
    reveal(step);
    let n = (st.line_no + 1) as usize;
    match st.stage {
        Stage::Header => {},
        Stage::Sections => {},
        Stage::Functions => {
            if is_data_line(line) && symbol_of(line, Stage::Functions, n, st.load->Some_0) is Ok {
                lemma_symbol_fits(line, Stage::Functions, n, st.load->Some_0);
            }
        },
        Stage::StaticSymbols => {
            if is_data_line(line) && symbol_of(line, Stage::StaticSymbols, n, st.load->Some_0) is Ok {
                lemma_symbol_fits(line, Stage::StaticSymbols, n, st.load->Some_0);
            }
        },
    }
}

proof fn lemma_run_fits(st: ScanState, lines: Seq<Seq<char>>)
    requires
        addresses_fit(st),
        run(st, lines) is Ok,
    ensures
        addresses_fit(run(st, lines)->Ok_0),
    decreases lines.len(),
{
    if lines.len() > 0 {
        lemma_step_fits(st, lines[0]);
        lemma_run_fits(step(st, lines[0])->Ok_0, lines.drop_first());
    }
}

/// Every map file that parsing gives can be exported: each `rva + load`
/// address fits in a `u64`.
pub proof fn lemma_parsed_is_exportable(input: Seq<char>)
    requires
        parse_map(input) is Ok,
    ensures
        exportable(parse_map(input)->Ok_0),
{
    lemma_run_fits(initial_state(), crlf_lines(input));
}

/// Exporting `a + b` gives the lines of `a`, then those of `b`.
pub proof fn lemma_export_lines_append(load: u64, a: Seq<SymbolView>, b: Seq<SymbolView>)
    ensures
        export_lines(load, a + b) == export_lines(load, a) + export_lines(load, b),
    decreases b.len(),
{
    if b.len() == 0 {
        assert(a + b =~= a);
        assert(export_lines(load, a) + Seq::<char>::empty() =~= export_lines(load, a));
    } else {
        assert((a + b).drop_last() =~= a + b.drop_last());
        assert((a + b).last() == b.last());
        lemma_export_lines_append(load, a, b.drop_last());
        assert(export_lines(load, a) + export_lines(load, b.drop_last()) + export_line(load, b.last())
            =~= export_lines(load, a) + (export_lines(load, b.drop_last()) + export_line(load, b.last())));
    }
}

/// The export is one line per record of the public symbols followed by the
/// static symbols, in input order, and nothing else.
pub proof fn lemma_export_order(m: MapFileView)
    ensures
        export_text(m) == export_lines(m.preferred_load_addr, m.functions + m.static_symbols),
{
    lemma_export_lines_append(m.preferred_load_addr, m.functions, m.static_symbols);
}

proof fn lemma_bad_class_row(line: Seq<char>, n: usize)
    requires
        words(line).len() >= 4,
        class_of(words(line)[3]) is None,
    ensures
        section_of(line, n) is Err,
{
    reveal(section_of);
    let t = words(line);
    assert(3 <= 3 < t.len() && class_of(t[3]) is None);
}

proof fn lemma_bad_class_step(st: ScanState, line: Seq<char>)
    requires
        st.stage == Stage::Sections,
        !contains_seq(line, publics_marker()),
        is_data_line(line),
        words(line).len() >= 4,
        class_of(words(line)[3]) is None,
    ensures
        step(st, line) is Err,
{
    reveal(step);
    lemma_bad_class_row(line, (st.line_no + 1) as usize);
}

proof fn lemma_run_stops(st: ScanState, line: Seq<char>, after: Seq<Seq<char>>)
    requires
        step(st, line) is Err,
    ensures
        run(st, seq![line] + after) is Err,
{
    assert((seq![line] + after)[0] == line);
}

/// A sections-table line that holds data and whose fourth token is neither
/// `CODE` nor `DATA` makes the whole parse fail, whatever follows it.
pub proof fn lemma_bad_class_fails(
    input: Seq<char>,
    before: Seq<Seq<char>>,
    line: Seq<char>,
    after: Seq<Seq<char>>,
)
    requires
        crlf_lines(input) == before + seq![line] + after,
        run(initial_state(), before) is Ok,
        run(initial_state(), before)->Ok_0.stage == Stage::Sections,
        !contains_seq(line, publics_marker()),
        is_data_line(line),
        words(line).len() >= 4,
        class_of(words(line)[3]) is None,
    ensures
        parse_map(input) is Err,
{
    let st = run(initial_state(), before)->Ok_0;
    let rest = seq![line] + after;
    lemma_bad_class_step(st, line);
    lemma_run_stops(st, line, after);
    lemma_run_append(initial_state(), before, rest);
    assert(before + seq![line] + after =~= before + rest);
    assert(run(initial_state(), crlf_lines(input)) is Err);
}


/// How many of `lines` carry a record.
pub open spec fn data_line_count(lines: Seq<Seq<char>>) -> nat {
    lines.filter(|l: Seq<char>| is_data_line(l)).len()
}

/// The number of records that `st` holds in the table of `stage`.
pub open spec fn table_len(st: ScanState, stage: Stage) -> nat {
    match stage {
        Stage::Sections => st.sections.len(),
        Stage::Functions => st.functions.len(),
        Stage::StaticSymbols => st.static_symbols.len(),
        Stage::Header => 0,
    }
}

/// `line` does not end the table of `stage`.
pub open spec fn stays_in_table(stage: Stage, line: Seq<char>) -> bool {
    &&& stage == Stage::Sections ==> !contains_seq(line, publics_marker())
    &&& stage == Stage::Functions ==> !contains_seq(line, entry_marker())
}

proof fn lemma_run_ok_prefix(st: ScanState, a: Seq<Seq<char>>, b: Seq<Seq<char>>)
    requires
        run(st, a + b) is Ok,
    ensures
        run(st, a) is Ok,
        run(run(st, a)->Ok_0, b) == run(st, a + b),
{
    lemma_run_append(st, a, b);
}

proof fn lemma_run_one(st: ScanState, line: Seq<char>)
    ensures
        run(st, seq![line]) == step(st, line),
{
    lemma_run_first(st, line, Seq::empty());
    assert(seq![line] + Seq::<Seq<char>>::empty() =~= seq![line]);
    if let Ok(s) = step(st, line) {
        assert(run(s, Seq::<Seq<char>>::empty()) == Ok::<ScanState, ParseError>(s));
    }
}

proof fn lemma_table_step(st: ScanState, line: Seq<char>)
    requires
        st.stage != Stage::Header,
        stays_in_table(st.stage, line),
        step(st, line) is Ok,
    ensures
        step(st, line)->Ok_0.stage == st.stage,
        step(st, line)->Ok_0.load == st.load,
        forall|x: Stage|
            #[trigger] table_len(step(st, line)->Ok_0, x) == table_len(st, x) + if x == st.stage
                && is_data_line(line) {
                1nat
            } else {
                0nat
            },
{
    reveal(step);
}

proof fn lemma_table_rows(st: ScanState, lines: Seq<Seq<char>>)
    requires
        st.stage != Stage::Header,
        run(st, lines) is Ok,
        forall|i: int| 0 <= i < lines.len() ==> stays_in_table(st.stage, #[trigger] lines[i]),
    ensures
        run(st, lines)->Ok_0.stage == st.stage,
        run(st, lines)->Ok_0.load == st.load,
        forall|x: Stage|
            #[trigger] table_len(run(st, lines)->Ok_0, x) == table_len(st, x) + if x == st.stage {
                data_line_count(lines)
            } else {
                0
            },
    decreases lines.len(),
{
    reveal(Seq::filter);
    if lines.len() == 0 {
        assert(lines.filter(|l: Seq<char>| is_data_line(l)) =~= Seq::<Seq<char>>::empty());
    } else {
        let init = lines.drop_last();
        let last = lines.last();
        assert(init + seq![last] =~= lines);
        lemma_run_ok_prefix(st, init, seq![last]);
        lemma_table_rows(st, init);
        let s = run(st, init)->Ok_0;
        lemma_run_one(s, last);
        assert(stays_in_table(st.stage, lines[lines.len() - 1]));
        lemma_table_step(s, last);
        assert(lines.filter(|l: Seq<char>| is_data_line(l)) == if is_data_line(last) {
            init.filter(|l: Seq<char>| is_data_line(l)).push(last)
        } else {
            init.filter(|l: Seq<char>| is_data_line(l))
        });
        let r = run(st, lines)->Ok_0;
        assert forall|x: Stage|
            #[trigger] table_len(r, x) == table_len(st, x) + if x == st.stage {
                data_line_count(lines)
            } else {
                0
            } by {
            assert(table_len(r, x) == table_len(s, x) + if x == st.stage && is_data_line(last) {
                1nat
            } else {
                0nat
            });
        }
    }
}

proof fn lemma_header_rows(st: ScanState, lines: Seq<Seq<char>>)
    requires
        st.stage == Stage::Header,
        lines.len() > 0,
        st.line_no + lines.len() == 7,
        st.sections.len() == 0 && st.functions.len() == 0 && st.static_symbols.len() == 0,
        run(st, lines) is Ok,
    ensures
        run(st, lines)->Ok_0.stage == Stage::Sections,
        run(st, lines)->Ok_0.sections.len() == 0,
        run(st, lines)->Ok_0.functions.len() == 0,
        run(st, lines)->Ok_0.static_symbols.len() == 0,
    decreases lines.len(),
{
    reveal(step);
    let s = step(st, lines[0])->Ok_0;
    if lines.len() > 1 {
        lemma_header_rows(s, lines.drop_first());
    } else {
        assert(lines.drop_first() =~= Seq::<Seq<char>>::empty());
        assert(run(s, Seq::<Seq<char>>::empty()) == Ok::<ScanState, ParseError>(s));
    }
}

proof fn lemma_switch_step(st: ScanState, line: Seq<char>)
    requires
        st.stage == Stage::Sections && contains_seq(line, publics_marker()) || st.stage
            == Stage::Functions && contains_seq(line, entry_marker()),
        step(st, line) is Ok,
    ensures
        step(st, line)->Ok_0.stage == if st.stage == Stage::Sections {
            Stage::Functions
        } else {
            Stage::StaticSymbols
        },
        forall|x: Stage| #[trigger] table_len(step(st, line)->Ok_0, x) == table_len(st, x),
{
    reveal(step);
}

/// In a MAP file laid out as a 7-line header, the sections table, the
/// `Publics by Value` line, the public symbol table, the `entry point at`
/// line and the static symbol table, a successful parse holds as many
/// records of each table as the table has lines that carry data.
pub proof fn lemma_record_counts(
    input: Seq<char>,
    header: Seq<Seq<char>>,
    sections: Seq<Seq<char>>,
    publics_line: Seq<char>,
    functions: Seq<Seq<char>>,
    entry_line: Seq<char>,
    statics: Seq<Seq<char>>,
)
    requires
        crlf_lines(input) == header + sections + seq![publics_line] + functions + seq![entry_line]
            + statics,
        header.len() == 7,
        forall|i: int| 0 <= i < sections.len() ==> !contains_seq(#[trigger] sections[i], publics_marker()),
        contains_seq(publics_line, publics_marker()),
        forall|i: int| 0 <= i < functions.len() ==> !contains_seq(#[trigger] functions[i], entry_marker()),
        contains_seq(entry_line, entry_marker()),
        parse_map(input) is Ok,
    ensures
        parse_map(input)->Ok_0.sections.len() == data_line_count(sections),
        parse_map(input)->Ok_0.functions.len() == data_line_count(functions),
        parse_map(input)->Ok_0.static_symbols.len() == data_line_count(statics),
{
    let i0 = initial_state();
    let a1 = header + sections;
    let a2 = a1 + seq![publics_line];
    let a3 = a2 + functions;
    let a4 = a3 + seq![entry_line];
    let all = a4 + statics;
    assert(run(i0, all) is Ok);
    lemma_run_ok_prefix(i0, a4, statics);
    lemma_run_ok_prefix(i0, a3, seq![entry_line]);
    lemma_run_ok_prefix(i0, a2, functions);
    lemma_run_ok_prefix(i0, a1, seq![publics_line]);
    lemma_run_ok_prefix(i0, header, sections);

    lemma_header_rows(i0, header);
    let s0 = run(i0, header)->Ok_0;
    assert(forall|i: int| 0 <= i < sections.len() ==> stays_in_table(s0.stage, #[trigger] sections[i]));
    lemma_table_rows(s0, sections);
    let s1 = run(i0, a1)->Ok_0;
    lemma_run_one(s1, publics_line);
    lemma_switch_step(s1, publics_line);
    let s2 = run(i0, a2)->Ok_0;
    assert(forall|i: int| 0 <= i < functions.len() ==> stays_in_table(s2.stage, #[trigger] functions[i]));
    lemma_table_rows(s2, functions);
    let s3 = run(i0, a3)->Ok_0;
    lemma_run_one(s3, entry_line);
    lemma_switch_step(s3, entry_line);
    let s4 = run(i0, a4)->Ok_0;
    lemma_table_rows(s4, statics);
    let s5 = run(i0, all)->Ok_0;
    assert(table_len(s0, Stage::Sections) == 0);
    assert(table_len(s0, Stage::Functions) == 0);
    assert(table_len(s0, Stage::StaticSymbols) == 0);
    assert(table_len(s5, Stage::Sections) == data_line_count(sections));
    assert(table_len(s5, Stage::Functions) == data_line_count(functions));
    assert(table_len(s5, Stage::StaticSymbols) == data_line_count(statics));
}


proof fn lemma_pieces_single(x: Seq<char>, sep: char)
    requires
        !x.contains(sep),
    ensures
        pieces(x, sep) == seq![x],
    decreases x.len(),
{
    if x.len() > 0 {
        assert(!x.drop_last().contains(sep)) by {
            if x.drop_last().contains(sep) {
                let k = choose|k: int| 0 <= k < x.drop_last().len() && x.drop_last()[k] == sep;
                assert(x[k] == sep);
            }
        }
        lemma_pieces_single(x.drop_last(), sep);
        assert(x[x.len() - 1] != sep);
        assert(x.drop_last().push(x.last()) =~= x);
    } else {
        assert(x =~= Seq::<char>::empty());
    }
}

proof fn lemma_pieces_concat(a: Seq<char>, b: Seq<char>, sep: char)
    requires
        a.len() == 0 || a.last() == sep,
    ensures
        pieces(a + b, sep) == pieces(a, sep).drop_last() + pieces(b, sep),
    decreases b.len(),
{
    if b.len() == 0 {
        assert(a + b =~= a);
        if a.len() == 0 {
            assert(pieces(a, sep).drop_last() + pieces(b, sep) =~= pieces(a, sep));
        } else {
            let p = pieces(a.drop_last(), sep);
            assert(pieces(a, sep) == p.push(Seq::empty()));
            assert(pieces(a, sep).drop_last() + pieces(b, sep) =~= pieces(a, sep));
        }
    } else {
        lemma_pieces_concat(a, b.drop_last(), sep);
        assert((a + b).drop_last() =~= a + b.drop_last());
        assert((a + b).last() == b.last());
        let x = pieces(a, sep).drop_last();
        let y = pieces(b.drop_last(), sep);
        assert(y.len() >= 1) by {
            lemma_pieces_nonempty(b.drop_last(), sep);
        }
        if b.last() == sep {
            assert((x + y).push(Seq::empty()) =~= x + y.push(Seq::empty()));
        } else {
            assert((x + y).update((x + y).len() - 1, (x + y).last().push(b.last())) =~= x + y.update(
                y.len() - 1,
                y.last().push(b.last()),
            ));
        }
    }
}

proof fn lemma_decimal_digits(n: nat)
    ensures
        forall|i: int| 0 <= i < decimal(n).len() ==> '0' <= #[trigger] decimal(n)[i] && decimal(n)[i] <= '9',
    decreases n,
{
    let d = (n % 10) as nat;
    assert('0' <= digit_char(d) && digit_char(d) <= '9') by {
        let t = seq!['0', '1', '2', '3', '4', '5', '6', '7', '8', '9'];
        assert(forall|k: int| 0 <= k < 10 ==> '0' <= #[trigger] t[k] && t[k] <= '9');
    }
    if n >= 10 {
        lemma_decimal_digits(n / 10);
        let p = decimal(n / 10);
        assert(decimal(n) == p.push(digit_char(d)));
        assert forall|i: int| 0 <= i < decimal(n).len() implies '0' <= #[trigger] decimal(n)[i]
            && decimal(n)[i] <= '9' by {
            if i < p.len() {
                assert(decimal(n)[i] == p[i]);
            }
        }
    } else {
        assert(d == n);
        assert(decimal(n) == seq![digit_char(d)]);
    }
}

/// The text of a record's output line without its line feed.
pub open spec fn line_body(load: u64, s: SymbolView) -> Seq<char> {
    decimal((s.rva + load) as nat) + seq![' '] + sanitized(display_name(s.symbol))
}

proof fn lemma_line_body(load: u64, s: SymbolView)
    ensures
        export_line(load, s) == line_body(load, s) + seq!['\n'],
        !line_body(load, s).contains('\n'),
        pieces(line_body(load, s), ' ')[0] == decimal((s.rva + load) as nat),
{
    let d = decimal((s.rva + load) as nat);
    let name = sanitized(display_name(s.symbol));
    lemma_decimal_digits((s.rva + load) as nat);
    assert(forall|i: int| 0 <= i < name.len() ==> is_name_char(#[trigger] name[i]) || name[i] == '_');
    let b = line_body(load, s);
    assert(b == d + seq![' '] + name);
    assert(!b.contains('\n')) by {
        if b.contains('\n') {
            let k = choose|k: int| 0 <= k < b.len() && b[k] == '\n';
            if k < d.len() {
                assert(b[k] == d[k]);
            } else if k > d.len() {
                assert(b[k] == name[k - d.len() - 1]);
            }
        }
    }
    assert(!d.contains(' ')) by {
        if d.contains(' ') {
            let k = choose|k: int| 0 <= k < d.len() && d[k] == ' ';
        }
    }
    lemma_pieces_single(d, ' ');
    let ds = d + seq![' '];
    assert(ds.drop_last() =~= d);
    lemma_pieces_concat(ds, name, ' ');
    assert(d + seq![' '] + name == ds + name);
}

proof fn lemma_export_pieces(load: u64, recs: Seq<SymbolView>)
    ensures
        export_lines(load, recs).len() == 0 || export_lines(load, recs).last() == '\n',
        pieces(export_lines(load, recs), '\n') == recs.map_values(|r: SymbolView| line_body(load, r)).push(
            Seq::empty(),
        ),
    decreases recs.len(),
{
    if recs.len() == 0 {
        assert(recs.map_values(|r: SymbolView| line_body(load, r)).push(Seq::empty()) =~= seq![
            Seq::<char>::empty(),
        ]);
    } else {
        let init = recs.drop_last();
        let last = recs.last();
        lemma_export_pieces(load, init);
        lemma_line_body(load, last);
        let body = line_body(load, last);
        let line = body + seq!['\n'];
        lemma_pieces_single(body, '\n');
        assert(line.drop_last() =~= body);
        assert(pieces(line, '\n') == seq![body, Seq::<char>::empty()]);
        lemma_pieces_concat(export_lines(load, init), line, '\n');
        assert(recs.map_values(|r: SymbolView| line_body(load, r)).push(Seq::empty()) =~= init.map_values(
            |r: SymbolView| line_body(load, r),
        ).push(Seq::empty()).drop_last() + seq![body, Seq::<char>::empty()]);
    }
}

/// Split at line feeds, the export holds one line per record, public symbols
/// then static symbols, and nothing after the last line feed; the first
/// space-separated field of each line is the decimal absolute address
/// `rva + load address` of its record.
pub proof fn lemma_export_address_lines(m: MapFileView)
    ensures
        ({
            let recs = m.functions + m.static_symbols;
            let lines = pieces(export_text(m), '\n');
            &&& lines.len() == recs.len() + 1
            &&& lines.last() == Seq::<char>::empty()
            &&& forall|k: int|
                0 <= k < recs.len() ==> pieces(#[trigger] lines[k], ' ')[0] == decimal(
                    (recs[k].rva + m.preferred_load_addr) as nat,
                )
        }),
{
    let recs = m.functions + m.static_symbols;
    let load = m.preferred_load_addr;
    lemma_export_order(m);
    lemma_export_pieces(load, recs);
    assert forall|k: int| 0 <= k < recs.len() implies pieces(
        #[trigger] pieces(export_text(m), '\n')[k],
        ' ',
    )[0] == decimal((recs[k].rva + load) as nat) by {
        lemma_line_body(load, recs[k]);
    }
}


/// `rec`'s RVA is what the RVA law gives for the raw value in the third token
/// of `line`, under load address `load`.
pub open spec fn rva_read_from(rec: SymbolView, load: u64, line: Seq<char>) -> bool {
    &&& words(line).len() >= 3
    &&& hex_u64(words(line)[2]) is Some
    &&& hex_u64(words(line)[2])->Some_0 == 0 ==> rec.rva == 0
    &&& hex_u64(words(line)[2])->Some_0 != 0 ==> hex_u64(words(line)[2])->Some_0 >= load
        && rec.rva == hex_u64(words(line)[2])->Some_0 - load
}

/// Each of `recs` has its RVA from one of `lines`.
pub open spec fn rvas_from_lines(recs: Seq<SymbolView>, load: u64, lines: Seq<Seq<char>>) -> bool {
    forall|k: int|
        0 <= k < recs.len() ==> exists|j: int|
            0 <= j < lines.len() && rva_read_from(#[trigger] recs[k], load, lines[j])
}

/// What holds of a scan state for the RVA law.
pub open spec fn rva_inv(st: ScanState, lines: Seq<Seq<char>>) -> bool {
    &&& st.stage == Stage::Header ==> st.functions.len() == 0 && st.static_symbols.len() == 0
    &&& rvas_from_lines(st.functions, st.load->Some_0, lines)
    &&& rvas_from_lines(st.static_symbols, st.load->Some_0, lines)
}

proof fn lemma_rva_push(recs: Seq<SymbolView>, load: u64, lines: Seq<Seq<char>>, rec: SymbolView, j: int)
    requires
        rvas_from_lines(recs, load, lines),
        0 <= j < lines.len(),
        rva_read_from(rec, load, lines[j]),
    ensures
        rvas_from_lines(recs.push(rec), load, lines),
{
    assert forall|k: int| 0 <= k < recs.push(rec).len() implies exists|i: int|
        0 <= i < lines.len() && rva_read_from(#[trigger] recs.push(rec)[k], load, lines[i]) by {
        if k < recs.len() {
            assert(recs.push(rec)[k] == recs[k]);
        } else {
            assert(recs.push(rec)[k] == rec);
        }
    }
}

proof fn lemma_rva_step(st: ScanState, lines: Seq<Seq<char>>, p: int)
    requires
        0 <= p < lines.len(),
        rva_inv(st, lines),
        step(st, lines[p]) is Ok,
    ensures
        rva_inv(step(st, lines[p])->Ok_0, lines),
{
    reveal(step);
    let line = lines[p];
    let n = (st.line_no + 1) as usize;
    let load = st.load->Some_0;
    match st.stage {
        Stage::Functions => {
            if !contains_seq(line, entry_marker()) && is_data_line(line) {
                lemma_symbol_rva(line, Stage::Functions, n, load);
                lemma_rva_push(st.functions, load, lines, symbol_of(line, Stage::Functions, n, load)->Ok_0, p);
            }
        },
        Stage::StaticSymbols => {
            if is_data_line(line) {
                lemma_symbol_rva(line, Stage::StaticSymbols, n, load);
                lemma_rva_push(st.static_symbols, load, lines, symbol_of(line, Stage::StaticSymbols, n, load)->Ok_0, p);
            }
        },
        _ => {},
    }
}

proof fn lemma_rva_run(st: ScanState, lines: Seq<Seq<char>>, p: int)
    requires
        0 <= p <= lines.len(),
        rva_inv(st, lines),
        run(st, lines.subrange(p, lines.len() as int)) is Ok,
    ensures
        rva_inv(run(st, lines.subrange(p, lines.len() as int))->Ok_0, lines),
    decreases lines.len() - p,
{
    let rest = lines.subrange(p, lines.len() as int);
    if p < lines.len() {
        assert(rest[0] == lines[p]);
        assert(rest.drop_first() =~= lines.subrange(p + 1, lines.len() as int));
        lemma_rva_step(st, lines, p);
        lemma_rva_run(step(st, lines[p])->Ok_0, lines, p + 1);
    }
}

/// Every public and static symbol of a parsed file has its RVA from the raw
/// value in the third token of one of the input lines: `0` stays `0`, and any
/// other value is at least the file's preferred load address and has it taken
/// off.
pub proof fn lemma_parsed_rvas(input: Seq<char>)
    requires
        parse_map(input) is Ok,
    ensures
        rvas_from_lines(
            parse_map(input)->Ok_0.functions,
            parse_map(input)->Ok_0.preferred_load_addr,
            crlf_lines(input),
        ),
        rvas_from_lines(
            parse_map(input)->Ok_0.static_symbols,
            parse_map(input)->Ok_0.preferred_load_addr,
            crlf_lines(input),
        ),
{
    let lines = crlf_lines(input);
    assert(lines.subrange(0, lines.len() as int) =~= lines);
    lemma_rva_run(initial_state(), lines, 0);
}

} // verus!
