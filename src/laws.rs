//! Properties of the analysis, stated over its mathematical model and proved.
use vstd::prelude::*;
use vstd::relations::{sorted_by, total_ordering};
use vstd::seq_lib::lemma_sorted_unique;
use crate::graph::{DocumentModel, OccurrenceModel, SymbolModel, is_definition};
use crate::locate::sweep;
use crate::model::{contains_seq, declarations, flat_occurrences, flat_symbols, has_use, line_hits, trait_names};
use crate::order::{lemma_path_lt_irreflexive, lemma_path_lt_transitive, path_lt};
use crate::pipeline::{declared_ids, filtered_ids, reported_ids, surviving_ids, unreferenced_ids};
use crate::report::{has_finding_in, has_group_for, is_report, lines_at};

verus! {

/// Each pass only shrinks the candidate set: what survives the third pass
/// survived the second, what survives the second survived the first, and what
/// survives the first was declared.
pub proof fn lemma_candidates_shrink(docs: Seq<DocumentModel>, lines: Seq<Seq<char>>)
    ensures
        surviving_ids(docs, lines).subset_of(filtered_ids(docs)),
        filtered_ids(docs).subset_of(unreferenced_ids(docs)),
        unreferenced_ids(docs).subset_of(declared_ids(docs)),
{
}

/// A pass that keeps the candidates meeting a test keeps nothing that was not
/// a candidate before.
pub proof fn lemma_pass_shrinks(v: Seq<SymbolModel>, keep: spec_fn(SymbolModel) -> bool, x: SymbolModel)
    ensures
        v.filter(keep).contains(x) ==> v.contains(x) && keep(x),
{
    broadcast use vstd::seq_lib::group_filter_ensures;

    if v.filter(keep).contains(x) {
        v.lemma_filter_contains_rev(keep, x);
        let j = choose|j: int| 0 <= j < v.filter(keep).len() && v.filter(keep)[j] == x;
        assert(keep(v.filter(keep)[j]));
    }
}

/// The sweep locates only ids it was given.
pub proof fn lemma_sweep_locates_given(sites: Seq<(Seq<char>, OccurrenceModel)>, ids: Set<Seq<char>>)
    ensures
        sweep(sites, ids).1.subset_of(ids),
    decreases sites.len(),
{
    if sites.len() > 0 {
        lemma_sweep_locates_given(sites.drop_last(), ids);
    }
}

/// Every finding of the sweep is the definition site, (path, line), of an id
/// that the sweep located.
pub proof fn lemma_findings_are_located_definitions(
    sites: Seq<(Seq<char>, OccurrenceModel)>,
    ids: Set<Seq<char>>,
    i: int,
)
    requires
        0 <= i < sweep(sites, ids).0.len(),
    ensures
        exists|j: int|
            0 <= j < sites.len() && (#[trigger] sites[j]).0 == sweep(sites, ids).0[i].0
                && sites[j].1.line == sweep(sites, ids).0[i].1 && is_definition(sites[j].1.roles)
                && sweep(sites, ids).1.contains(sites[j].1.symbol),
    decreases sites.len(),
{
    let rest = sites.drop_last();
    let (found, located) = sweep(rest, ids);
    if i < found.len() {
        lemma_findings_are_located_definitions(rest, ids, i);
        let j = choose|j: int|
            0 <= j < rest.len() && (#[trigger] rest[j]).0 == found[i].0 && rest[j].1.line == found[i].1
                && is_definition(rest[j].1.roles) && located.contains(rest[j].1.symbol);
        assert(sites[j] == rest[j]);
    } else {
        assert(sites[sites.len() - 1] == sites.last());
    }
}

/// A symbol with any occurrence that lacks the definition bit is never
/// reported, however many definition sites it has.
pub proof fn lemma_used_never_reported(docs: Seq<DocumentModel>, lines: Seq<Seq<char>>, k: Seq<char>)
    requires
        has_use(flat_occurrences(docs), k),
    ensures
        !reported_ids(docs, lines).contains(k),
{
    lemma_sweep_locates_given(crate::locate::flat_sites(docs), surviving_ids(docs, lines));
}

/// Each declaration is stored under its own id.
pub proof fn lemma_declarations_keyed_by_id(syms: Seq<SymbolModel>)
    ensures
        forall|k: Seq<char>| #[trigger] declarations(syms).contains_key(k) ==> declarations(syms)[k].symbol == k,
    decreases syms.len(),
{
    if syms.len() > 0 {
        lemma_declarations_keyed_by_id(syms.drop_last());
    }
}

/// A method or function named exactly `main`, one whose id contains `test`,
/// and one whose id contains the name of a trait of the graph are never
/// reported.
pub proof fn lemma_excluded_never_reported(docs: Seq<DocumentModel>, lines: Seq<Seq<char>>, k: Seq<char>)
    requires
        declarations(flat_symbols(docs)).contains_key(k) && declarations(flat_symbols(docs))[k].display_name
            == "main"@ || contains_seq(k, "test"@) || exists|t: Seq<char>|
            trait_names(flat_symbols(docs)).contains(t) && contains_seq(k, t),
    ensures
        !reported_ids(docs, lines).contains(k),
{
    lemma_declarations_keyed_by_id(flat_symbols(docs));
    lemma_sweep_locates_given(crate::locate::flat_sites(docs), surviving_ids(docs, lines));
}

/// The third pass keeps a candidate whose display name is on exactly one
/// scanned line, and drops one whose display name is on two or more.
pub proof fn lemma_textual_pass(v: Seq<SymbolModel>, lines: Seq<Seq<char>>, x: SymbolModel)
    requires
        v.contains(x),
    ensures
        line_hits(lines, x.display_name) == 1 ==> v.filter(
            |c: SymbolModel| line_hits(lines, c.display_name) <= 1,
        ).contains(x),
        line_hits(lines, x.display_name) >= 2 ==> !v.filter(
            |c: SymbolModel| line_hits(lines, c.display_name) <= 1,
        ).contains(x),
{
    broadcast use vstd::seq_lib::group_filter_ensures;

    let keep = |c: SymbolModel| line_hits(lines, c.display_name) <= 1;
    let i = choose|i: int| 0 <= i < v.len() && v[i] == x;
    if line_hits(lines, x.display_name) == 1 {
        assert(v.filter(keep).contains(v[i]));
    }
    lemma_pass_shrinks(v, keep, x);
}

proof fn lemma_strictly_sorted_unique(a: Seq<Seq<char>>, b: Seq<Seq<char>>)
    requires
        forall|i: int, j: int| 0 <= i < j < a.len() ==> path_lt(#[trigger] a[i], #[trigger] a[j]),
        forall|i: int, j: int| 0 <= i < j < b.len() ==> path_lt(#[trigger] b[i], #[trigger] b[j]),
        forall|x: Seq<char>| a.contains(x) <==> b.contains(x),
    ensures
        a == b,
    decreases a.len(),
{
    if a.len() == 0 || b.len() == 0 {
        if a.len() > 0 {
            assert(a.contains(a[0]));
        }
        if b.len() > 0 {
            assert(b.contains(b[0]));
        }
        assert(a =~= b);
    } else {
        assert(a.contains(a[0]));
        let j = choose|j: int| 0 <= j < b.len() && b[j] == a[0];
        assert(b.contains(b[0]));
        let i = choose|i: int| 0 <= i < a.len() && a[i] == b[0];
        if j > 0 && i > 0 {
            lemma_path_lt_transitive(a[0], b[0], a[0]);
            lemma_path_lt_irreflexive(a[0]);
        } else if j > 0 {
            lemma_path_lt_irreflexive(a[0]);
        } else if i > 0 {
            lemma_path_lt_irreflexive(b[0]);
        }
        assert(a[0] == b[0]);
        let a1 = a.drop_first();
        let b1 = b.drop_first();
        assert forall|x: Seq<char>| a1.contains(x) implies b1.contains(x) by {
            let p = choose|p: int| 0 <= p < a1.len() && a1[p] == x;
            assert(a.contains(a[p + 1]));
            let q = choose|q: int| 0 <= q < b.len() && b[q] == x;
            if q == 0 {
                lemma_path_lt_irreflexive(a[0]);
            }
            assert(b1[q - 1] == x);
        }
        assert forall|x: Seq<char>| b1.contains(x) implies a1.contains(x) by {
            let p = choose|p: int| 0 <= p < b1.len() && b1[p] == x;
            assert(b.contains(b[p + 1]));
            let q = choose|q: int| 0 <= q < a.len() && a[q] == x;
            if q == 0 {
                lemma_path_lt_irreflexive(b[0]);
            }
            assert(a1[q - 1] == x);
        }
        lemma_strictly_sorted_unique(a1, b1);
        assert(a =~= seq![a[0]] + a1);
        assert(b =~= seq![b[0]] + b1);
    }
}

/// Two reports of the same findings are equal: the grouped and ordered
/// output, and so the exit status, depend on the findings alone. Since the
/// findings are a function of the graph and of the scanned lines, running the
/// analysis twice on unchanged inputs gives the same report.
pub proof fn lemma_report_is_unique(
    r1: Seq<(Seq<char>, Seq<u32>)>,
    r2: Seq<(Seq<char>, Seq<u32>)>,
    f: Seq<(Seq<char>, u32)>,
)
    requires
        is_report(r1, f),
        is_report(r2, f),
    ensures
        r1 == r2,
{
    let k1 = r1.map_values(|g: (Seq<char>, Seq<u32>)| g.0);
    let k2 = r2.map_values(|g: (Seq<char>, Seq<u32>)| g.0);
    assert forall|x: Seq<char>| k1.contains(x) implies k2.contains(x) by {
        let i = choose|i: int| 0 <= i < k1.len() && k1[i] == x;
        assert(has_finding_in(f, r1[i].0));
        let k = choose|k: int| 0 <= k < f.len() && #[trigger] f[k].0 == r1[i].0;
        assert(has_group_for(r2, f[k].0));
        let j = choose|j: int| 0 <= j < r2.len() && #[trigger] r2[j].0 == f[k].0;
        assert(k2[j] == x);
    }
    assert forall|x: Seq<char>| k2.contains(x) implies k1.contains(x) by {
        let i = choose|i: int| 0 <= i < k2.len() && k2[i] == x;
        assert(has_finding_in(f, r2[i].0));
        let k = choose|k: int| 0 <= k < f.len() && #[trigger] f[k].0 == r2[i].0;
        assert(has_group_for(r1, f[k].0));
        let j = choose|j: int| 0 <= j < r1.len() && #[trigger] r1[j].0 == f[k].0;
        assert(k1[j] == x);
    }
    assert forall|i: int, j: int| 0 <= i < j < k1.len() implies path_lt(#[trigger] k1[i], #[trigger] k1[j]) by {
        assert(path_lt(r1[i].0, r1[j].0));
    }
    assert forall|i: int, j: int| 0 <= i < j < k2.len() implies path_lt(#[trigger] k2[i], #[trigger] k2[j]) by {
        assert(path_lt(r2[i].0, r2[j].0));
    }
    lemma_strictly_sorted_unique(k1, k2);
    let leq = |a: u32, b: u32| a <= b;
    assert(total_ordering(leq));
    assert forall|i: int| 0 <= i < r1.len() implies r1[i] == r2[i] by {
        assert(k1[i] == k2[i]);
        assert(r1[i].1.to_multiset() == lines_at(f, r1[i].0).to_multiset());
        assert(r2[i].1.to_multiset() == lines_at(f, r2[i].0).to_multiset());
        assert(crate::report::ascending(r1[i].1));
        assert(crate::report::ascending(r2[i].1));
        assert(sorted_by(r1[i].1, leq));
        assert(sorted_by(r2[i].1, leq));
        lemma_sorted_unique(r1[i].1, r2[i].1, leq);
    }
    assert(r1 =~= r2);
}

} // verus!
