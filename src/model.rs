//! Mathematical description of the analysis: what each pass keeps.
use vstd::prelude::*;
use crate::graph::{DocumentModel, OccurrenceModel, SymbolKind, SymbolModel, is_definition};

verus! {

/// Every declared symbol of the graph, document by document.
pub open spec fn flat_symbols(docs: Seq<DocumentModel>) -> Seq<SymbolModel>
    decreases docs.len(),
{
    if docs.len() == 0 {
        Seq::empty()
    } else {
        flat_symbols(docs.drop_last()) + docs.last().symbols
    }
}

/// Every occurrence of the graph, document by document.
pub open spec fn flat_occurrences(docs: Seq<DocumentModel>) -> Seq<OccurrenceModel>
    decreases docs.len(),
{
    if docs.len() == 0 {
        Seq::empty()
    } else {
        flat_occurrences(docs.drop_last()) + docs.last().occurrences
    }
}

pub open spec fn is_callable(k: SymbolKind) -> bool {
    k == SymbolKind::Method || k == SymbolKind::Function
}

/// Methods and functions by id; a later declaration of an id replaces an earlier one.
pub open spec fn declarations(syms: Seq<SymbolModel>) -> Map<Seq<char>, SymbolModel>
    decreases syms.len(),
{
    if syms.len() == 0 {
        Map::empty()
    } else {
        let m = declarations(syms.drop_last());
        let s = syms.last();
        if is_callable(s.kind) {
            m.insert(s.symbol, s)
        } else {
            m
        }
    }
}

/// The display names of every trait.
pub open spec fn trait_names(syms: Seq<SymbolModel>) -> Set<Seq<char>> {
    Set::new(
        |n: Seq<char>|
            exists|i: int|
                0 <= i < syms.len() && #[trigger] syms[i].kind == SymbolKind::Trait
                    && syms[i].display_name == n,
    )
}

/// `v` lists exactly the entries of `m`, each id once.
pub open spec fn lists(v: Seq<SymbolModel>, m: Map<Seq<char>, SymbolModel>) -> bool {
    &&& forall|i: int, j: int|
        0 <= i < j < v.len() ==> #[trigger] v[i].symbol != #[trigger] v[j].symbol
    &&& forall|i: int| 0 <= i < v.len() ==> #[trigger] m.contains_key(v[i].symbol)
        && m[v[i].symbol] == v[i]
    &&& forall|k: Seq<char>|
        #[trigger] m.contains_key(k) ==> exists|i: int| 0 <= i < v.len() && v[i].symbol == k
}

/// Some occurrence of `id` lacks the definition bit.
pub open spec fn has_use(occs: Seq<OccurrenceModel>, id: Seq<char>) -> bool {
    exists|i: int| 0 <= i < occs.len() && #[trigger] occs[i].symbol == id && !is_definition(occs[i].roles)
}

/// `needle` occurs as a contiguous part of `hay`.
pub open spec fn contains_seq(hay: Seq<char>, needle: Seq<char>) -> bool {
    exists|i: int|
        0 <= i && i + needle.len() <= hay.len() && #[trigger] hay.subrange(i, i + needle.len())
            == needle
}

/// The candidate matches none of the never-called patterns: test code, an entry
/// point, a method that a trait may dispatch to.
pub open spec fn passes_heuristics(c: SymbolModel, traits: Set<Seq<char>>) -> bool {
    &&& !contains_seq(c.symbol, "test"@)
    &&& c.display_name != "main"@
    &&& match c.file_hint {
        Some(h) => !contains_seq(h, "test"@),
        None => true,
    }
    &&& forall|t: Seq<char>| #[trigger] traits.contains(t) ==> !contains_seq(c.symbol, t)
}

/// The number of lines that contain `name`.
pub open spec fn line_hits(lines: Seq<Seq<char>>, name: Seq<char>) -> nat
    decreases lines.len(),
{
    if lines.len() == 0 {
        0
    } else {
        line_hits(lines.drop_last(), name) + if contains_seq(lines.last(), name) {
            1nat
        } else {
            0nat
        }
    }
}

} // verus!
