//! The whole analysis: collection, the three passes, location and grouping.
use vstd::prelude::*;
use crate::collect::{collect_declarations, names, view_all};
use crate::graph::{DocumentModel, SymbolGraph, SymbolModel};
use crate::locate::{flat_sites, ids_of, locate_definitions, sweep};
use crate::model::{declarations, flat_occurrences, flat_symbols, has_use, line_hits, passes_heuristics, trait_names};
use crate::passes::{apply_heuristics, corroborate_textually, eliminate_referenced, lines_view};
use crate::report::{group_findings, is_report, report_view, FileFindings};

verus! {

/// The ids of the graph's methods and functions.
pub open spec fn declared_ids(docs: Seq<DocumentModel>) -> Set<Seq<char>> {
    declarations(flat_symbols(docs)).dom()
}

/// The candidates left after the first pass: no occurrence uses them.
pub open spec fn unreferenced_ids(docs: Seq<DocumentModel>) -> Set<Seq<char>> {
    declared_ids(docs).filter(|k: Seq<char>| !has_use(flat_occurrences(docs), k))
}

/// The candidates left after the second pass: none of the never-called patterns.
pub open spec fn filtered_ids(docs: Seq<DocumentModel>) -> Set<Seq<char>> {
    unreferenced_ids(docs).filter(
        |k: Seq<char>|
            passes_heuristics(declarations(flat_symbols(docs))[k], trait_names(flat_symbols(docs))),
    )
}

/// The candidates left after the third pass: the display name is on at most one
/// scanned line.
pub open spec fn surviving_ids(docs: Seq<DocumentModel>, lines: Seq<Seq<char>>) -> Set<Seq<char>> {
    filtered_ids(docs).filter(
        |k: Seq<char>| line_hits(lines, declarations(flat_symbols(docs))[k].display_name) <= 1,
    )
}

/// The findings: each surviving candidate at its first definition site.
pub open spec fn unused_findings(docs: Seq<DocumentModel>, lines: Seq<Seq<char>>) -> Seq<(Seq<char>, u32)> {
    sweep(flat_sites(docs), surviving_ids(docs, lines)).0
}

/// The ids that are reported.
pub open spec fn reported_ids(docs: Seq<DocumentModel>, lines: Seq<Seq<char>>) -> Set<Seq<char>> {
    sweep(flat_sites(docs), surviving_ids(docs, lines)).1
}

/// The outcome of a run: the findings grouped by file, and how many there are.
#[derive(Debug)]
pub struct Report {
    pub files: Vec<FileFindings>,
    pub total: usize,
}

proof fn lemma_filter_member(v: Seq<SymbolModel>, p: spec_fn(SymbolModel) -> bool, x: SymbolModel)
    ensures
        v.filter(p).contains(x) <==> v.contains(x) && p(x),
{
    broadcast use vstd::seq_lib::group_filter_ensures;

    if v.filter(p).contains(x) {
        v.lemma_filter_contains_rev(p, x);
        let j = choose|j: int| 0 <= j < v.filter(p).len() && v.filter(p)[j] == x;
        assert(p(v.filter(p)[j]));
    }
    if v.contains(x) && p(x) {
        let i = choose|i: int| 0 <= i < v.len() && v[i] == x;
        assert(v.filter(p).contains(v[i]));
    }
}

/// Runs the analysis on a graph and on the lines of the scanned source files.
pub fn find_unused(graph: &SymbolGraph, lines: &Vec<String>) -> (r: Report)
    ensures
        is_report(report_view(r.files@), unused_findings(graph@, lines_view(lines@))),
        r.total == unused_findings(graph@, lines_view(lines@)).len(),
{
    let ghost docs = graph@;
    let ghost lv = lines_view(lines@);
    let ghost m = declarations(flat_symbols(docs));
    let ghost traits = trait_names(flat_symbols(docs));
    let (declared, trait_list) = collect_declarations(graph);
    let unreferenced = eliminate_referenced(graph, &declared);
    let filtered = apply_heuristics(&unreferenced, &trait_list);
    let surviving = corroborate_textually(&filtered, lines);
    proof {
        let c0 = view_all(declared@);
        let p1 = |c: SymbolModel| !has_use(flat_occurrences(docs), c.symbol);
        let p2 = |c: SymbolModel| passes_heuristics(c, names(trait_list@));
        let p3 = |c: SymbolModel| line_hits(lv, c.display_name) <= 1;
        let c1 = c0.filter(p1);
        let c2 = c1.filter(p2);
        let c3 = c2.filter(p3);
        assert(view_all(surviving@) == c3);
        assert forall|k: Seq<char>| ids_of(c3).contains(k) == surviving_ids(docs, lv).contains(k) by {
            if ids_of(c3).contains(k) {
                let i = choose|i: int| 0 <= i < c3.len() && #[trigger] c3[i].symbol == k;
                let x = c3[i];
                assert(c3.contains(x));
                lemma_filter_member(c2, p3, x);
                lemma_filter_member(c1, p2, x);
                lemma_filter_member(c0, p1, x);
                let j = choose|j: int| 0 <= j < c0.len() && c0[j] == x;
                assert(m.contains_key(c0[j].symbol));
            }
            if surviving_ids(docs, lv).contains(k) {
                assert(m.contains_key(k));
                let j = choose|j: int| 0 <= j < c0.len() && c0[j].symbol == k;
                let x = c0[j];
                assert(c0.contains(x));
                lemma_filter_member(c0, p1, x);
                lemma_filter_member(c1, p2, x);
                lemma_filter_member(c2, p3, x);
                let i = choose|i: int| 0 <= i < c3.len() && c3[i] == x;
                assert(c3[i].symbol == k);
            }
        }
        assert(ids_of(c3) =~= surviving_ids(docs, lv));
    }
    let found = locate_definitions(graph, &surviving);
    let total = found.len();
    let files = group_findings(found);
    Report { files, total }
}

} // verus!
