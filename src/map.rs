//! The records of a MAP file and their mathematical models.
use vstd::prelude::*;

verus! {

/// A segment:offset pair as the linker prints it.
#[derive(Clone, Copy, Debug, PartialEq, Eq, Structural)]
pub struct Address {
    pub seg: u16,
    pub addr: u64,
}

/// A virtual address relative to the preferred load address; `0` stands for
/// "no RVA" (absolute symbols).
#[derive(Clone, Copy, Debug, PartialEq, Eq, Structural)]
pub struct Rva(pub u64);

/// The class of a section.
#[derive(Clone, Copy, Debug, PartialEq, Eq, Structural)]
pub enum Class {
    Code,
    Data,
}

/// Where a symbol comes from: a library and object file (the library may be
/// absent), or nowhere, for an absolute symbol.
#[derive(Debug)]
pub enum LibObject {
    LibObj(Option<String>, String),
    Absolute,
}

/// Model of a [`LibObject`].
pub enum LibObjectView {
    LibObj(Option<Seq<char>>, Seq<char>),
    Absolute,
}

impl View for LibObject {
    type V = LibObjectView;

    open spec fn view(&self) -> LibObjectView {
        match self {
            LibObject::LibObj(lib, obj) => LibObjectView::LibObj(
                match lib {
                    Some(l) => Some(l@),
                    None => None,
                },
                obj@,
            ),
            LibObject::Absolute => LibObjectView::Absolute,
        }
    }
}

/// One linker output region.
#[derive(Debug)]
pub struct Section {
    pub name: String,
    pub class: Class,
    pub addr: Address,
    pub len: u64,
}

/// Model of a [`Section`].
pub struct SectionView {
    pub name: Seq<char>,
    pub class: Class,
    pub addr: Address,
    pub len: u64,
}

impl View for Section {
    type V = SectionView;

    open spec fn view(&self) -> SectionView {
        SectionView { name: self.name@, class: self.class, addr: self.addr, len: self.len }
    }
}

/// One row of the public or of the static symbol table.
#[derive(Debug)]
pub struct Symbol {
    pub symbol: String,
    pub addr: Address,
    pub rva: Rva,
    pub flags: Vec<char>,
    pub libobj: LibObject,
}

/// A row of the "Publics by Value" table.
pub type Function = Symbol;

/// A row of the static symbols table.
pub type StaticSymbol = Symbol;

/// Model of a [`Symbol`].
pub struct SymbolView {
    pub symbol: Seq<char>,
    pub addr: Address,
    pub rva: u64,
    pub flags: Seq<char>,
    pub libobj: LibObjectView,
}

impl View for Symbol {
    type V = SymbolView;

    open spec fn view(&self) -> SymbolView {
        SymbolView {
            symbol: self.symbol@,
            addr: self.addr,
            rva: self.rva.0,
            flags: self.flags@,
            libobj: self.libobj@,
        }
    }
}

/// A whole parsed MAP file.
#[derive(Debug)]
pub struct MapFile {
    pub file_name: String,
    pub entrypoint: Address,
    pub preferred_load_addr: u64,
    pub timestamp: String,
    pub sections: Vec<Section>,
    pub functions: Vec<Function>,
    pub static_symbols: Vec<StaticSymbol>,
}

/// Model of a [`MapFile`].
pub struct MapFileView {
    pub file_name: Seq<char>,
    pub entrypoint: Address,
    pub preferred_load_addr: u64,
    pub timestamp: Seq<char>,
    pub sections: Seq<SectionView>,
    pub functions: Seq<SymbolView>,
    pub static_symbols: Seq<SymbolView>,
}

/// The models of a sequence of sections.
pub open spec fn section_views(v: Seq<Section>) -> Seq<SectionView> {
    v.map_values(|s: Section| s@)
}

/// The models of a sequence of symbols.
pub open spec fn symbol_views(v: Seq<Symbol>) -> Seq<SymbolView> {
    v.map_values(|s: Symbol| s@)
}

impl View for MapFile {
    type V = MapFileView;

    open spec fn view(&self) -> MapFileView {
        MapFileView {
            file_name: self.file_name@,
            entrypoint: self.entrypoint,
            preferred_load_addr: self.preferred_load_addr,
            timestamp: self.timestamp@,
            sections: section_views(self.sections@),
            functions: symbol_views(self.functions@),
            static_symbols: symbol_views(self.static_symbols@),
        }
    }
}

/// The table that the scanner is reading.
#[derive(Clone, Copy, Debug, PartialEq, Eq, Structural)]
pub enum Stage {
    Header,
    Sections,
    Functions,
    StaticSymbols,
}

/// A field of the header or of a record.
#[derive(Clone, Copy, Debug, PartialEq, Eq, Structural)]
pub enum Field {
    FileName,
    Timestamp,
    LoadAddress,
    EntryPoint,
    Segment,
    Address,
    Length,
    Name,
    Class,
    Symbol,
    Rva,
    LibObject,
}

/// Why a MAP file could not be parsed. `line` is the 1-based line number.
#[derive(Clone, Copy, Debug, PartialEq, Eq, Structural)]
pub enum ParseError {
    /// Line 3 has no parenthesised timestamp.
    MissingTimestamp,
    /// Line 5 has no `is ` followed by a hexadecimal load address.
    MissingLoadAddress,
    /// A numeric token of a record could not be read.
    InvalidNumber { stage: Stage, line: usize, field: Field },
    /// A record line lacks one of its fields.
    MissingField { stage: Stage, line: usize, field: Field },
    /// A section's class is neither `CODE` nor `DATA`.
    UnrecognizedClass { line: usize },
    /// A non-zero RVA lies below the preferred load address.
    RvaBelowLoadAddress { stage: Stage, line: usize },
    /// The input ended without providing a header field or the entry point.
    NotFound { field: Field },
}

} // verus!
