//! Reading single lines of a MAP file: addresses, section rows, symbol rows
//! and the header fields.
use vstd::prelude::*;
use crate::map::{Address, Class, Field, LibObject, LibObjectView, ParseError, Section, SectionView, Stage, Symbol, SymbolView};
use crate::number::{dec_u16, hex_u64, parse_dec_u16, parse_hex};
use crate::text::{contains_digit, has_digit, first_index, first_occurrence, find_char, last_index, rfind_char, chars_of, contains_seq, find_seq, pieces, same_chars, seqs_of, split_on, split_words, string_of, words};

verus! {

/// What the `seg:addr` token `tok` denotes: a decimal segment and a
/// hexadecimal offset, or the part that could not be read.
pub open spec fn address_of(tok: Seq<char>) -> Result<Address, Field> {
    let parts = pieces(tok, ':');
    if parts.len() < 2 {
        Err(Field::Address)
    } else {
        match dec_u16(parts[0]) {
            None => Err(Field::Segment),
            Some(seg) => match hex_u64(parts[1]) {
                None => Err(Field::Address),
                Some(addr) => Ok(Address { seg, addr }),
            },
        }
    }
}

/// Reads a `seg:addr` token.
pub fn parse_address(tok: &Vec<char>) -> (r: Result<Address, Field>)
    ensures
        r == address_of(tok@),
{
    let parts = split_on(tok, ':');
    if parts.len() < 2 {
        return Err(Field::Address);
    }
    let seg = parse_dec_u16(&parts[0], 0, parts[0].len());
    assert(parts[0]@.subrange(0, parts[0]@.len() as int) =~= parts[0]@);
    assert(parts[1]@.subrange(0, parts[1]@.len() as int) =~= parts[1]@);
    assert(seqs_of(parts@)[0] == parts@[0]@ && seqs_of(parts@)[1] == parts@[1]@);
    match seg {
        None => Err(Field::Segment),
        Some(seg) => match parse_hex(&parts[1], 0, parts[1].len()) {
            None => Err(Field::Address),
            Some(addr) => Ok(Address { seg, addr }),
        },
    }
}

/// The class that a token names.
pub open spec fn class_of(tok: Seq<char>) -> Option<Class> {
    if tok == "CODE"@ {
        Some(Class::Code)
    } else if tok == "DATA"@ {
        Some(Class::Data)
    } else {
        None
    }
}

fn parse_class(tok: &Vec<char>) -> (r: Option<Class>)
    ensures
        r == class_of(tok@),
{
    if same_chars(tok, &chars_of("CODE")) {
        Some(Class::Code)
    } else if same_chars(tok, &chars_of("DATA")) {
        Some(Class::Data)
    } else {
        None
    }
}

/// The fields of a section row, in the order in which they stand.
pub open spec fn section_field(k: int) -> Field {
    if k == 0 {
        Field::Address
    } else if k == 1 {
        Field::Length
    } else if k == 2 {
        Field::Name
    } else {
        Field::Class
    }
}

/// What the section row `line` (line number `n`) denotes. The tokens are
/// `seg:addr`, a hexadecimal length with a one-character unit suffix, a name,
/// and the class; every token from the fourth on must be a class, the last
/// one counts.
#[verifier::opaque]
pub open spec fn section_of(line: Seq<char>, n: usize) -> Result<SectionView, ParseError> {
    let t = words(line);
    if t.len() >= 1 && address_of(t[0]) is Err {
        Err(ParseError::InvalidNumber { stage: Stage::Sections, line: n, field: address_of(t[0])->Err_0 })
    } else if t.len() >= 2 && hex_u64(t[1].drop_last()) is None {
        Err(ParseError::InvalidNumber { stage: Stage::Sections, line: n, field: Field::Length })
    } else if exists|i: int| 3 <= i < t.len() && class_of(#[trigger] t[i]) is None {
        Err(ParseError::UnrecognizedClass { line: n })
    } else if t.len() < 4 {
        Err(ParseError::MissingField { stage: Stage::Sections, line: n, field: section_field(t.len() as int) })
    } else {
        Ok(
            SectionView {
                name: t[2],
                class: class_of(t.last())->Some_0,
                addr: address_of(t[0])->Ok_0,
                len: hex_u64(t[1].drop_last())->Some_0,
            },
        )
    }
}

/// Reads a section row.
pub fn parse_section_line(line: &Vec<char>, n: usize) -> (r: Result<Section, ParseError>)
    ensures
        match r {
            Ok(s) => section_of(line@, n) == Ok::<SectionView, ParseError>(s@),
            Err(e) => section_of(line@, n) == Err::<SectionView, ParseError>(e),
        },
{
    reveal(section_of);
    let t = split_words(line);
    let ghost w = words(line@);
    assert(forall|i: int| 0 <= i < t@.len() ==> w[i] == t@[i]@);
    let mut addr = Address { seg: 0, addr: 0 };
    if t.len() >= 1 {
        match parse_address(&t[0]) {
            Err(f) => {
                return Err(ParseError::InvalidNumber { stage: Stage::Sections, line: n, field: f });
            },
            Ok(a) => {
                addr = a;
            },
        }
    }
    let mut len: u64 = 0;
    if t.len() >= 2 {
        let l = &t[1];
        assert(l@.subrange(0, l@.len() - 1) =~= l@.drop_last());
        match parse_hex(l, 0, l.len() - 1) {
            None => {
                return Err(ParseError::InvalidNumber { stage: Stage::Sections, line: n, field: Field::Length });
            },
            Some(v) => {
                len = v;
            },
        }
    }
    let mut class = Class::Code;
    let mut i: usize = 3;
    while i < t.len()
        invariant
            3 <= i,
            i <= t@.len() || t@.len() < 3,
            seqs_of(t@) == w,
            w == words(line@),
            forall|j: int| 0 <= j < t@.len() ==> t@[j]@.len() > 0,
            forall|j: int| 3 <= j < i && j < t@.len() ==> class_of(#[trigger] w[j]) is Some,
            i > 3 && i <= t@.len() ==> class_of(w[i - 1]) == Some(class),
            t@.len() >= 1 ==> address_of(w[0]) == Ok::<Address, Field>(addr),
            t@.len() >= 2 ==> hex_u64(w[1].drop_last()) == Some(len),
        decreases t@.len() - i,
    {
        match parse_class(&t[i]) {
            None => {
                reveal(section_of);
                assert(w[i as int] == t@[i as int]@);
                assert(class_of(w[i as int]) is None);
                return Err(ParseError::UnrecognizedClass { line: n });
            },
            Some(c) => {
                class = c;
            },
        }
        i += 1;
    }
    if t.len() < 4 {
        let field = if t.len() == 0 {
            Field::Address
        } else if t.len() == 1 {
            Field::Length
        } else if t.len() == 2 {
            Field::Name
        } else {
            Field::Class
        };
        return Err(ParseError::MissingField { stage: Stage::Sections, line: n, field });
    }
    let name = string_of(&t[2], 0, t[2].len());
    assert(t[2]@.subrange(0, t[2]@.len() as int) =~= t[2]@);
    Ok(Section { name, class, addr, len })
}


/// The stored RVA for the raw value `raw` read from a row, given the preferred
/// load address: `0` stays `0`; any other value has the load address taken
/// off, and one below the load address is rejected.
pub open spec fn rva_of(raw: u64, load: u64) -> Option<u64> {
    if raw == 0 {
        Some(0)
    } else if raw >= load {
        Some((raw - load) as u64)
    } else {
        None
    }
}

/// Converts a raw RVA as read from a row into one relative to the load address.
pub fn rva_from_raw(raw: u64, load: u64) -> (r: Option<u64>)
    ensures
        r == rva_of(raw, load),
        raw == 0 ==> r == Some(0u64),
        raw != 0 && raw >= load ==> r == Some((raw - load) as u64) && r->Some_0 + load == raw,
        raw != 0 && raw < load ==> r is None,
{
    if raw == 0 {
        Some(0)
    } else if raw >= load {
        Some(raw - load)
    } else {
        None
    }
}

/// The provenance that a `lib:object` or `object` token names: only the
/// first two `:`-separated parts count.
pub open spec fn libobj_of(tok: Seq<char>) -> LibObjectView {
    let p = pieces(tok, ':');
    if p.len() == 1 {
        LibObjectView::LibObj(None, p[0])
    } else {
        LibObjectView::LibObj(Some(p[0]), p[1])
    }
}

/// The marker of an absolute symbol.
pub open spec fn absolute_marker() -> Seq<char> {
    "<absolute>"@
}

/// Flags and provenance read from the tokens after the RVA: a token holding
/// the absolute marker makes the symbol absolute, a one-character token is a
/// flag, any other token is the provenance; a later provenance replaces an
/// earlier one.
pub open spec fn tail_of(toks: Seq<Seq<char>>) -> (Seq<char>, Option<LibObjectView>)
    decreases toks.len(),
{
    if toks.len() == 0 {
        (Seq::empty(), None)
    } else {
        let (flags, lo) = tail_of(toks.drop_last());
        let x = toks.last();
        if contains_seq(x, absolute_marker()) {
            (flags, Some(LibObjectView::Absolute))
        } else if x.len() == 1 {
            (flags.push(x[0]), lo)
        } else {
            (flags, Some(libobj_of(x)))
        }
    }
}

/// The fields of a symbol row, in the order in which they stand.
pub open spec fn symbol_field(k: int) -> Field {
    if k == 0 {
        Field::Address
    } else if k == 1 {
        Field::Symbol
    } else {
        Field::Rva
    }
}

/// What the symbol row `line` (line number `n`, read in table `stage`) denotes
/// when the preferred load address is `load`. The tokens are `seg:addr`, the
/// symbol, the hexadecimal RVA plus base, then flags and provenance.
#[verifier::opaque]
pub open spec fn symbol_of(line: Seq<char>, stage: Stage, n: usize, load: u64) -> Result<SymbolView, ParseError> {
    let t = words(line);
    if t.len() >= 1 && address_of(t[0]) is Err {
        Err(ParseError::InvalidNumber { stage, line: n, field: address_of(t[0])->Err_0 })
    } else if t.len() >= 3 && hex_u64(t[2]) is None {
        Err(ParseError::InvalidNumber { stage, line: n, field: Field::Rva })
    } else if t.len() >= 3 && rva_of(hex_u64(t[2])->Some_0, load) is None {
        Err(ParseError::RvaBelowLoadAddress { stage, line: n })
    } else if t.len() < 3 {
        Err(ParseError::MissingField { stage, line: n, field: symbol_field(t.len() as int) })
    } else if tail_of(t.subrange(3, t.len() as int)).1 is None {
        Err(ParseError::MissingField { stage, line: n, field: Field::LibObject })
    } else {
        Ok(
            SymbolView {
                symbol: t[1],
                addr: address_of(t[0])->Ok_0,
                rva: rva_of(hex_u64(t[2])->Some_0, load)->Some_0,
                flags: tail_of(t.subrange(3, t.len() as int)).0,
                libobj: tail_of(t.subrange(3, t.len() as int)).1->Some_0,
            },
        )
    }
}

fn parse_libobj(tok: &Vec<char>) -> (r: LibObject)
    ensures
        r@ == libobj_of(tok@),
{
    let parts = split_on(tok, ':');
    assert(seqs_of(parts@)[0] == parts@[0]@);
    assert(parts[0]@.subrange(0, parts[0]@.len() as int) =~= parts[0]@);
    let obj_index: usize = if parts.len() == 1 { 0 } else { 1 };
    assert(seqs_of(parts@)[obj_index as int] == parts@[obj_index as int]@);
    assert(parts[obj_index as int]@.subrange(0, parts[obj_index as int]@.len() as int) =~= parts[obj_index as int]@);
    let obj = string_of(&parts[obj_index], 0, parts[obj_index].len());
    if parts.len() == 1 {
        LibObject::LibObj(None, obj)
    } else {
        LibObject::LibObj(Some(string_of(&parts[0], 0, parts[0].len())), obj)
    }
}

pub open spec fn opt_libobj_view(o: Option<LibObject>) -> Option<LibObjectView> {
    match o {
        Some(l) => Some(l@),
        None => None,
    }
}

/// Reads a row of the public or of the static symbol table.
pub fn parse_symbol_line(line: &Vec<char>, stage: Stage, n: usize, load: u64) -> (r: Result<Symbol, ParseError>)
    ensures
        match r {
            Ok(s) => symbol_of(line@, stage, n, load) == Ok::<SymbolView, ParseError>(s@),
            Err(e) => symbol_of(line@, stage, n, load) == Err::<SymbolView, ParseError>(e),
        },
{
    reveal(symbol_of);
    let t = split_words(line);
    let ghost w = words(line@);
    assert(forall|i: int| 0 <= i < t@.len() ==> w[i] == t@[i]@);
    let mut addr = Address { seg: 0, addr: 0 };
    if t.len() >= 1 {
        match parse_address(&t[0]) {
            Err(f) => {
                return Err(ParseError::InvalidNumber { stage, line: n, field: f });
            },
            Ok(a) => {
                addr = a;
            },
        }
    }
    if t.len() < 3 {
        let field = if t.len() == 0 {
            Field::Address
        } else if t.len() == 1 {
            Field::Symbol
        } else {
            Field::Rva
        };
        return Err(ParseError::MissingField { stage, line: n, field });
    }
    assert(t[2]@.subrange(0, t[2]@.len() as int) =~= t[2]@);
    let rva = match parse_hex(&t[2], 0, t[2].len()) {
        None => {
            return Err(ParseError::InvalidNumber { stage, line: n, field: Field::Rva });
        },
        Some(raw) => match rva_from_raw(raw, load) {
            None => {
                return Err(ParseError::RvaBelowLoadAddress { stage, line: n });
            },
            Some(v) => v,
        },
    };
    let marker = chars_of("<absolute>");
    let mut flags: Vec<char> = Vec::new();
    let mut libobj: Option<LibObject> = None;
    let mut i: usize = 3;
    while i < t.len()
        invariant
            3 <= i <= t@.len(),
            seqs_of(t@) == w,
            w == words(line@),
            marker@ == absolute_marker(),
            (flags@, opt_libobj_view(libobj)) == tail_of(w.subrange(3, i as int)),
        decreases t@.len() - i,
    {
        let tok = &t[i];
        assert(w.subrange(3, i + 1).drop_last() =~= w.subrange(3, i as int));
        assert(w.subrange(3, i + 1).last() == tok@);
        if find_seq(tok, &marker).is_some() {
            libobj = Some(LibObject::Absolute);
        } else if tok.len() == 1 {
            flags.push(tok[0]);
        } else {
            libobj = Some(parse_libobj(tok));
        }
        i += 1;
    }
    match libobj {
        None => Err(ParseError::MissingField { stage, line: n, field: Field::LibObject }),
        Some(libobj) => {
            let symbol = string_of(&t[1], 0, t[1].len());
            assert(t[1]@.subrange(0, t[1]@.len() as int) =~= t[1]@);
            Ok(Symbol { symbol, addr, rva: crate::map::Rva(rva), flags, libobj })
        },
    }
}


/// The timestamp of header line 3: the text after the first `(` and before the
/// character that precedes the last `)`.
pub open spec fn timestamp_of(line: Seq<char>) -> Option<Seq<char>> {
    match (first_index(line, '('), last_index(line, ')')) {
        (Some(b), Some(e)) => if b + 1 <= e - 1 {
            Some(line.subrange(b + 1, e - 1))
        } else {
            None
        },
        _ => None,
    }
}

/// Reads the timestamp of header line 3.
pub fn parse_timestamp(line: &Vec<char>) -> (r: Option<String>)
    ensures
        match r {
            Some(t) => timestamp_of(line@) == Some(t@),
            None => timestamp_of(line@) is None,
        },
{
    let b = find_char(line, '(');
    let e = rfind_char(line, ')');
    match (b, e) {
        (Some(b), Some(e)) => if e >= 1 && b < e - 1 {
            Some(string_of(line, b + 1, e - 1))
        } else {
            None
        },
        _ => None,
    }
}

/// The marker that precedes the load address on header line 5.
pub open spec fn load_marker() -> Seq<char> {
    "is "@
}

/// The preferred load address of header line 5: the hexadecimal number after
/// the first `is `, up to the end of the line.
pub open spec fn load_address_of(line: Seq<char>) -> Option<u64> {
    match first_occurrence(line, load_marker()) {
        Some(i) => hex_u64(line.subrange(i + load_marker().len(), line.len() as int)),
        None => None,
    }
}

/// Reads the preferred load address of header line 5.
pub fn parse_load_address(line: &Vec<char>) -> (r: Option<u64>)
    ensures
        r == load_address_of(line@),
{
    let marker = chars_of("is ");
    let n = line.len();
    match find_seq(line, &marker) {
        Some(i) => parse_hex(line, i + marker.len(), n),
        None => None,
    }
}

/// The entry point named on the `entry point at` line (line number `n`):
/// every token holding a digit is read as `seg:addr`, the last one counts; with
/// no such token it stays `prev`.
pub open spec fn entry_scan(toks: Seq<Seq<char>>, prev: Option<Address>, n: usize) -> Result<Option<Address>, ParseError>
    decreases toks.len(),
{
    if toks.len() == 0 {
        Ok(prev)
    } else {
        match entry_scan(toks.drop_last(), prev, n) {
            Err(e) => Err(e),
            Ok(p) => if contains_digit(toks.last()) {
                match address_of(toks.last()) {
                    Ok(a) => Ok(Some(a)),
                    Err(f) => Err(ParseError::InvalidNumber { stage: Stage::Functions, line: n, field: f }),
                }
            } else {
                Ok(p)
            },
        }
    }
}

/// Reads the entry point from the `entry point at` line.
pub fn parse_entry_point(line: &Vec<char>, prev: Option<Address>, n: usize) -> (r: Result<Option<Address>, ParseError>)
    ensures
        r == entry_scan(words(line@), prev, n),
{
    let t = split_words(line);
    let ghost w = words(line@);
    let mut cur = prev;
    let mut i: usize = 0;
    while i < t.len()
        invariant
            i <= t@.len(),
            seqs_of(t@) == w,
            w == words(line@),
            entry_scan(w.take(i as int), prev, n) == Ok::<Option<Address>, ParseError>(cur),
        decreases t@.len() - i,
    {
        assert(w.take(i + 1).drop_last() =~= w.take(i as int));
        assert(w.take(i + 1).last() == t@[i as int]@);
        if has_digit(&t[i]) {
            match parse_address(&t[i]) {
                Ok(a) => {
                    cur = Some(a);
                },
                Err(f) => {
                    assert(entry_scan(w.take(i + 1), prev, n) is Err);
                    proof {
                        lemma_entry_scan_err_stays(w, i + 1, prev, n);
                    }
                    return Err(ParseError::InvalidNumber { stage: Stage::Functions, line: n, field: f });
                },
            }
        }
        i += 1;
    }
    assert(w.take(t@.len() as int) =~= w);
    Ok(cur)
}

proof fn lemma_entry_scan_err_stays(w: Seq<Seq<char>>, k: int, prev: Option<Address>, n: usize)
    requires
        0 <= k <= w.len(),
        entry_scan(w.take(k), prev, n) is Err,
    ensures
        entry_scan(w, prev, n) == entry_scan(w.take(k), prev, n),
    decreases w.len() - k,
{
    if k < w.len() {
        assert(w.take(k + 1).drop_last() =~= w.take(k));
        lemma_entry_scan_err_stays(w, k + 1, prev, n);
    } else {
        assert(w.take(k) =~= w);
    }
}

} // verus!
