//! The symbol graph: documents, declared symbols and occurrences.
use vstd::prelude::*;

verus! {

/// The classification of a declared symbol that the analysis distinguishes.
#[derive(PartialEq, Eq, Structural, Clone, Copy, Debug)]
pub enum SymbolKind {
    Method,
    Function,
    Trait,
    Other,
}

/// The bit of an occurrence's role mask that marks a definition site.
pub const DEFINITION_ROLE: i32 = 1;

/// A declared symbol.
#[derive(Debug)]
pub struct SymbolInformation {
    /// Globally unique identifier.
    pub symbol: String,
    /// Human-readable name; not unique.
    pub display_name: String,
    pub kind: SymbolKind,
    /// Path of the file the declaration is associated with, when known.
    pub file_hint: Option<String>,
}

/// One recorded appearance of a symbol.
#[derive(Debug)]
pub struct Occurrence {
    pub symbol: String,
    /// Bitmask of roles; see [`DEFINITION_ROLE`].
    pub symbol_roles: i32,
    /// Zero-based line on which the occurrence starts.
    pub start_line: u32,
}

/// A source file of the index.
#[derive(Debug)]
pub struct Document {
    pub relative_path: String,
    pub symbols: Vec<SymbolInformation>,
    pub occurrences: Vec<Occurrence>,
}

/// The decoded index.
#[derive(Debug)]
pub struct SymbolGraph {
    pub documents: Vec<Document>,
}

/// Mathematical model of a [`SymbolInformation`].
pub struct SymbolModel {
    pub symbol: Seq<char>,
    pub display_name: Seq<char>,
    pub kind: SymbolKind,
    pub file_hint: Option<Seq<char>>,
}

/// Mathematical model of an [`Occurrence`].
pub struct OccurrenceModel {
    pub symbol: Seq<char>,
    pub roles: i32,
    pub line: u32,
}

/// Mathematical model of a [`Document`].
pub struct DocumentModel {
    pub path: Seq<char>,
    pub symbols: Seq<SymbolModel>,
    pub occurrences: Seq<OccurrenceModel>,
}

pub open spec fn opt_view(o: Option<String>) -> Option<Seq<char>> {
    match o {
        Some(s) => Some(s@),
        None => None,
    }
}

impl View for SymbolInformation {
    type V = SymbolModel;

    open spec fn view(&self) -> SymbolModel {
        SymbolModel {
            symbol: self.symbol@,
            display_name: self.display_name@,
            kind: self.kind,
            file_hint: opt_view(self.file_hint),
        }
    }
}

impl View for Occurrence {
    type V = OccurrenceModel;

    open spec fn view(&self) -> OccurrenceModel {
        OccurrenceModel { symbol: self.symbol@, roles: self.symbol_roles, line: self.start_line }
    }
}

impl View for Document {
    type V = DocumentModel;

    open spec fn view(&self) -> DocumentModel {
        DocumentModel {
            path: self.relative_path@,
            symbols: self.symbols@.map_values(|s: SymbolInformation| s@),
            occurrences: self.occurrences@.map_values(|o: Occurrence| o@),
        }
    }
}

impl View for SymbolGraph {
    type V = Seq<DocumentModel>;

    open spec fn view(&self) -> Seq<DocumentModel> {
        self.documents@.map_values(|d: Document| d@)
    }
}

/// Whether a role mask carries the definition bit.
pub open spec fn is_definition(roles: i32) -> bool {
    roles & DEFINITION_ROLE != 0
}

/// Returns whether the occurrence marks the symbol's definition site.
pub fn occurrence_is_definition(o: &Occurrence) -> (r: bool)
    ensures
        r == is_definition(o.symbol_roles),
{
    o.symbol_roles & DEFINITION_ROLE != 0
}

} // verus!
