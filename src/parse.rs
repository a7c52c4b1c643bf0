//! The stage-driven scan of a whole MAP file.
use vstd::prelude::*;
use crate::map::{
    Address, Field, MapFile, MapFileView, ParseError, Section, SectionView, Stage, Symbol,
    SymbolView, section_views, symbol_views,
};
use crate::scan::{
    entry_scan, load_address_of, parse_entry_point, parse_load_address, parse_section_line,
    parse_symbol_line, parse_timestamp, section_of, symbol_of, timestamp_of,
};
use crate::text::{
    chars_of, contains_seq, crlf_lines, find_seq, has_char, lines_from, slice_of, string_of,
    trim_bounds, trimmed, words,
};

verus! {

/// What the scan has gathered after `line_no` lines.
pub struct ScanState {
    pub stage: Stage,
    pub line_no: nat,
    pub file_name: Option<Seq<char>>,
    pub timestamp: Option<Seq<char>>,
    pub load: Option<u64>,
    pub entry: Option<Address>,
    pub sections: Seq<SectionView>,
    pub functions: Seq<SymbolView>,
    pub static_symbols: Seq<SymbolView>,
}

/// The state before the first line.
pub open spec fn initial_state() -> ScanState {
    ScanState {
        stage: Stage::Header,
        line_no: 0,
        file_name: None,
        timestamp: None,
        load: None,
        entry: None,
        sections: Seq::empty(),
        functions: Seq::empty(),
        static_symbols: Seq::empty(),
    }
}

/// The line that ends the sections table.
pub open spec fn publics_marker() -> Seq<char> {
    "Publics by Value"@
}

/// The line that ends the public symbol table and names the entry point.
pub open spec fn entry_marker() -> Seq<char> {
    "entry point at"@
}

/// A table line that carries a record rather than a caption or a blank.
pub open spec fn is_data_line(line: Seq<char>) -> bool {
    line.contains('0')
}

/// The line after `st`, with nothing else changed.
pub open spec fn next_line(st: ScanState) -> ScanState {
    ScanState { line_no: st.line_no + 1, ..st }
}

/// A header line: lines 1, 3 and 5 give the file name, the timestamp and the
/// load address; line 7 ends the header.
pub open spec fn step_header(st: ScanState, line: Seq<char>) -> Result<ScanState, ParseError> {
    let n = st.line_no + 1;
    let st1 = next_line(st);
    if n == 1 {
        Ok(ScanState { file_name: Some(trimmed(line)), ..st1 })
    } else if n == 3 {
        match timestamp_of(line) {
            Some(t) => Ok(ScanState { timestamp: Some(t), ..st1 }),
            None => Err(ParseError::MissingTimestamp),
        }
    } else if n == 5 {
        match load_address_of(line) {
            Some(a) => Ok(ScanState { load: Some(a), ..st1 }),
            None => Err(ParseError::MissingLoadAddress),
        }
    } else if n == 7 {
        Ok(ScanState { stage: Stage::Sections, ..st1 })
    } else {
        Ok(st1)
    }
}

/// A line of the sections table.
pub open spec fn step_sections(st: ScanState, line: Seq<char>) -> Result<ScanState, ParseError> {
    let st1 = next_line(st);
    if contains_seq(line, publics_marker()) {
        Ok(ScanState { stage: Stage::Functions, ..st1 })
    } else if !is_data_line(line) {
        Ok(st1)
    } else {
        match section_of(line, st1.line_no as usize) {
            Ok(s) => Ok(ScanState { sections: st.sections.push(s), ..st1 }),
            Err(e) => Err(e),
        }
    }
}

/// A line of the public symbol table.
pub open spec fn step_functions(st: ScanState, line: Seq<char>) -> Result<ScanState, ParseError> {
    let st1 = next_line(st);
    if contains_seq(line, entry_marker()) {
        match entry_scan(words(line), st.entry, st1.line_no as usize) {
            Ok(e) => Ok(ScanState { stage: Stage::StaticSymbols, entry: e, ..st1 }),
            Err(e) => Err(e),
        }
    } else if !is_data_line(line) {
        Ok(st1)
    } else {
        match symbol_of(line, Stage::Functions, st1.line_no as usize, st.load->Some_0) {
            Ok(s) => Ok(ScanState { functions: st.functions.push(s), ..st1 }),
            Err(e) => Err(e),
        }
    }
}

/// A line of the static symbol table.
pub open spec fn step_static_symbols(st: ScanState, line: Seq<char>) -> Result<ScanState, ParseError> {
    let st1 = next_line(st);
    if !is_data_line(line) {
        Ok(st1)
    } else {
        match symbol_of(line, Stage::StaticSymbols, st1.line_no as usize, st.load->Some_0) {
            Ok(s) => Ok(ScanState { static_symbols: st.static_symbols.push(s), ..st1 }),
            Err(e) => Err(e),
        }
    }
}

/// The effect of one more line on the scan.
#[verifier::opaque]
pub open spec fn step(st: ScanState, line: Seq<char>) -> Result<ScanState, ParseError> {
    match st.stage {
        Stage::Header => step_header(st, line),
        Stage::Sections => step_sections(st, line),
        Stage::Functions => step_functions(st, line),
        Stage::StaticSymbols => step_static_symbols(st, line),
    }
}

/// The scan of `lines` from `st`, stopping at the first error.
pub open spec fn run(st: ScanState, lines: Seq<Seq<char>>) -> Result<ScanState, ParseError>
    decreases lines.len(),
{
    if lines.len() == 0 {
        Ok(st)
    } else {
        match step(st, lines[0]) {
            Ok(s) => run(s, lines.drop_first()),
            Err(e) => Err(e),
        }
    }
}

/// The map file that a finished scan describes, if it found every header field
/// and the entry point.
pub open spec fn finish(st: ScanState) -> Result<MapFileView, ParseError> {
    if st.file_name is None {
        Err(ParseError::NotFound { field: Field::FileName })
    } else if st.entry is None {
        Err(ParseError::NotFound { field: Field::EntryPoint })
    } else if st.load is None {
        Err(ParseError::NotFound { field: Field::LoadAddress })
    } else if st.timestamp is None {
        Err(ParseError::NotFound { field: Field::Timestamp })
    } else {
        Ok(
            MapFileView {
                file_name: st.file_name->Some_0,
                entrypoint: st.entry->Some_0,
                preferred_load_addr: st.load->Some_0,
                timestamp: st.timestamp->Some_0,
                sections: st.sections,
                functions: st.functions,
                static_symbols: st.static_symbols,
            },
        )
    }
}

/// What parsing the MAP file text `input` gives.
pub open spec fn parse_map(input: Seq<char>) -> Result<MapFileView, ParseError> {
    match run(initial_state(), crlf_lines(input)) {
        Ok(st) => finish(st),
        Err(e) => Err(e),
    }
}

pub open spec fn opt_view(o: Option<String>) -> Option<Seq<char>> {
    match o {
        Some(s) => Some(s@),
        None => None,
    }
}

/// The scan in progress.
pub(crate) struct Scanner {
    pub(crate) stage: Stage,
    pub(crate) line_no: usize,
    pub(crate) file_name: Option<String>,
    pub(crate) timestamp: Option<String>,
    pub(crate) load: Option<u64>,
    pub(crate) entry: Option<Address>,
    pub(crate) sections: Vec<Section>,
    pub(crate) functions: Vec<Symbol>,
    pub(crate) static_symbols: Vec<Symbol>,
}

impl Scanner {
    pub(crate) open spec fn model(&self) -> ScanState {
        ScanState {
            stage: self.stage,
            line_no: self.line_no as nat,
            file_name: opt_view(self.file_name),
            timestamp: opt_view(self.timestamp),
            load: self.load,
            entry: self.entry,
            sections: section_views(self.sections@),
            functions: symbol_views(self.functions@),
            static_symbols: symbol_views(self.static_symbols@),
        }
    }

    /// The load address is known before the first table line.
    pub(crate) open spec fn wf(&self) -> bool {
        &&& self.stage == Stage::Header ==> self.line_no <= 6 && (self.line_no >= 5
            ==> self.load is Some)
        &&& self.stage != Stage::Header ==> self.load is Some
    }

    pub(crate) fn new() -> (r: Scanner)
        ensures
            r.model() == initial_state(),
            r.wf(),
    {
        let r = Scanner {
            stage: Stage::Header,
            line_no: 0,
            file_name: None,
            timestamp: None,
            load: None,
            entry: None,
            sections: Vec::new(),
            functions: Vec::new(),
            static_symbols: Vec::new(),
        };
        assert(r.model().sections =~= Seq::<SectionView>::empty());
        assert(r.model().functions =~= Seq::<SymbolView>::empty());
        assert(r.model().static_symbols =~= Seq::<SymbolView>::empty());
        r
    }

    /// Takes in the next line.
    pub(crate) fn feed(&mut self, line: &Vec<char>) -> (r: Result<(), ParseError>)
        requires
            old(self).wf(),
            old(self).line_no < usize::MAX,
        ensures
            match step(old(self).model(), line@) {
                Ok(s) => r is Ok && final(self).model() == s && final(self).wf(),
                Err(e) => r == Err::<(), ParseError>(e),
            },
            r is Ok ==> final(self).line_no == old(self).line_no + 1,
    {
        reveal(step);
        match self.stage {
            Stage::Header => self.feed_header(line),
            Stage::Sections => self.feed_section(line),
            Stage::Functions => self.feed_function(line),
            Stage::StaticSymbols => self.feed_static_symbol(line),
        }
    }

    fn feed_header(&mut self, line: &Vec<char>) -> (r: Result<(), ParseError>)
        requires
            old(self).wf(),
            old(self).line_no < usize::MAX,
            old(self).stage == Stage::Header,
        ensures
            match step(old(self).model(), line@) {
                Ok(s) => r is Ok && final(self).model() == s && final(self).wf(),
                Err(e) => r == Err::<(), ParseError>(e),
            },
            r is Ok ==> final(self).line_no == old(self).line_no + 1,
    {
        reveal(step);
        let n = self.line_no + 1;
        self.line_no = n;
        if n == 1 {
            let (a, b) = trim_bounds(line);
            self.file_name = Some(string_of(line, a, b));
        } else if n == 3 {
            match parse_timestamp(line) {
                Some(t) => {
                    self.timestamp = Some(t);
                },
                None => {
                    return Err(ParseError::MissingTimestamp);
                },
            }
        } else if n == 5 {
            match parse_load_address(line) {
                Some(a) => {
                    self.load = Some(a);
                },
                None => {
                    return Err(ParseError::MissingLoadAddress);
                },
            }
        } else if n == 7 {
            self.stage = Stage::Sections;
        }
        Ok(())
    }

    fn feed_section(&mut self, line: &Vec<char>) -> (r: Result<(), ParseError>)
        requires
            old(self).wf(),
            old(self).line_no < usize::MAX,
            old(self).stage == Stage::Sections,
        ensures
            match step(old(self).model(), line@) {
                Ok(s) => r is Ok && final(self).model() == s && final(self).wf(),
                Err(e) => r == Err::<(), ParseError>(e),
            },
            r is Ok ==> final(self).line_no == old(self).line_no + 1,
    {
        reveal(step);
        let n = self.line_no + 1;
        self.line_no = n;
        if find_seq(line, &chars_of("Publics by Value")).is_some() {
            self.stage = Stage::Functions;
            return Ok(());
        }
        if !has_char(line, '0') {
            return Ok(());
        }
        match parse_section_line(line, n) {
            Ok(s) => {
                let ghost before = section_views(self.sections@);
                let ghost sv = s@;
                self.sections.push(s);
                assert(section_views(self.sections@) =~= before.push(sv));
                Ok(())
            },
            Err(e) => Err(e),
        }
    }

    fn feed_function(&mut self, line: &Vec<char>) -> (r: Result<(), ParseError>)
        requires
            old(self).wf(),
            old(self).line_no < usize::MAX,
            old(self).stage == Stage::Functions,
        ensures
            match step(old(self).model(), line@) {
                Ok(s) => r is Ok && final(self).model() == s && final(self).wf(),
                Err(e) => r == Err::<(), ParseError>(e),
            },
            r is Ok ==> final(self).line_no == old(self).line_no + 1,
    {
        reveal(step);
        let n = self.line_no + 1;
        self.line_no = n;
        if find_seq(line, &chars_of("entry point at")).is_some() {
            match parse_entry_point(line, self.entry, n) {
                Ok(e) => {
                    self.entry = e;
                    self.stage = Stage::StaticSymbols;
                    return Ok(());
                },
                Err(e) => {
                    return Err(e);
                },
            }
        }
        if !has_char(line, '0') {
            return Ok(());
        }
        let load = self.load.unwrap();
        match parse_symbol_line(line, Stage::Functions, n, load) {
            Ok(s) => {
                let ghost before = symbol_views(self.functions@);
                let ghost sv = s@;
                self.functions.push(s);
                assert(symbol_views(self.functions@) =~= before.push(sv));
                Ok(())
            },
            Err(e) => Err(e),
        }
    }

    fn feed_static_symbol(&mut self, line: &Vec<char>) -> (r: Result<(), ParseError>)
        requires
            old(self).wf(),
            old(self).line_no < usize::MAX,
            old(self).stage == Stage::StaticSymbols,
        ensures
            match step(old(self).model(), line@) {
                Ok(s) => r is Ok && final(self).model() == s && final(self).wf(),
                Err(e) => r == Err::<(), ParseError>(e),
            },
            r is Ok ==> final(self).line_no == old(self).line_no + 1,
    {
        reveal(step);
        let n = self.line_no + 1;
        self.line_no = n;
        if !has_char(line, '0') {
            return Ok(());
        }
        let load = self.load.unwrap();
        match parse_symbol_line(line, Stage::StaticSymbols, n, load) {
            Ok(s) => {
                let ghost before = symbol_views(self.static_symbols@);
                let ghost sv = s@;
                self.static_symbols.push(s);
                assert(symbol_views(self.static_symbols@) =~= before.push(sv));
                Ok(())
            },
            Err(e) => Err(e),
        }
    }

    /// The map file gathered so far, if every header field and the entry
    /// point were found.
    pub(crate) fn finish(self) -> (r: Result<MapFile, ParseError>)
        ensures
            match r {
                Ok(m) => finish(self.model()) == Ok::<MapFileView, ParseError>(m@),
                Err(e) => finish(self.model()) == Err::<MapFileView, ParseError>(e),
            },
    {
        let file_name = match self.file_name {
            Some(f) => f,
            None => {
                return Err(ParseError::NotFound { field: Field::FileName });
            },
        };
        let entrypoint = match self.entry {
            Some(e) => e,
            None => {
                return Err(ParseError::NotFound { field: Field::EntryPoint });
            },
        };
        let preferred_load_addr = match self.load {
            Some(l) => l,
            None => {
                return Err(ParseError::NotFound { field: Field::LoadAddress });
            },
        };
        let timestamp = match self.timestamp {
            Some(t) => t,
            None => {
                return Err(ParseError::NotFound { field: Field::Timestamp });
            },
        };
        Ok(
            MapFile {
                file_name,
                entrypoint,
                preferred_load_addr,
                timestamp,
                sections: self.sections,
                functions: self.functions,
                static_symbols: self.static_symbols,
            },
        )
    }
}


/// Scanning a line and then `rest` is one step followed by the rest.
pub proof fn lemma_run_first(st: ScanState, line: Seq<char>, rest: Seq<Seq<char>>)
    ensures
        run(st, seq![line] + rest) == match step(st, line) {
            Ok(s) => run(s, rest),
            Err(e) => Err(e),
        },
{
    assert((seq![line] + rest)[0] == line);
    assert((seq![line] + rest).drop_first() =~= rest);
}

impl MapFile {
    /// Parses the text of a MAP file whose lines end in CR LF.
    pub fn load(input: &str) -> (r: Result<MapFile, ParseError>)
        ensures
            match r {
                Ok(m) => parse_map(input@) == Ok::<MapFileView, ParseError>(m@),
                Err(e) => parse_map(input@) == Err::<MapFileView, ParseError>(e),
            },
    {
        let s = chars_of(input);
        let len = s.len();
        let mut sc = Scanner::new();
        let mut start: usize = 0;
        let mut i: usize = 0;
        while i < len && i + 1 < len
            invariant
                len == s@.len(),
                s@ == input@,
                start <= i <= len,
                i >= len ==> i + 1 >= len,
                2 * sc.line_no <= start,
                sc.wf(),
                run(initial_state(), crlf_lines(s@)) == run(sc.model(), lines_from(s@, start as int, i as int)),
            decreases len - i,
        {
            if s[i] == '\r' && s[i + 1] == '\n' {
                let line = slice_of(&s, start, i);
                proof {
                    lemma_run_first(sc.model(), line@, lines_from(s@, i + 2, i + 2));
                }
                match sc.feed(&line) {
                    Ok(()) => {},
                    Err(e) => {
                        return Err(e);
                    },
                }
                i = i + 2;
                start = i;
            } else {
                i = i + 1;
            }
        }
        let line = slice_of(&s, start, len);
        proof {
            lemma_run_first(sc.model(), line@, Seq::empty());
            assert(seq![line@] + Seq::<Seq<char>>::empty() =~= seq![line@]);
        }
        match sc.feed(&line) {
            Ok(()) => {},
            Err(e) => {
                return Err(e);
            },
        }
        sc.finish()
    }
}

} // verus!
