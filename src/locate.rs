//! The locator: the definition site of each surviving candidate.
use vstd::prelude::*;
use crate::collect::{names, view_all};
use crate::graph::{Document, DocumentModel, Occurrence, OccurrenceModel, SymbolGraph, SymbolInformation, SymbolModel, is_definition, occurrence_is_definition};
use crate::passes::contains_name;

verus! {

/// Every occurrence of a document, paired with the document's path.
pub open spec fn doc_sites(d: DocumentModel) -> Seq<(Seq<char>, OccurrenceModel)> {
    d.occurrences.map_values(|o: OccurrenceModel| (d.path, o))
}

/// Every occurrence of the graph with its document's path, document by document.
pub open spec fn flat_sites(docs: Seq<DocumentModel>) -> Seq<(Seq<char>, OccurrenceModel)>
    decreases docs.len(),
{
    if docs.len() == 0 {
        Seq::empty()
    } else {
        flat_sites(docs.drop_last()) + doc_sites(docs.last())
    }
}

/// The ids of a list of candidates.
pub open spec fn ids_of(v: Seq<SymbolModel>) -> Set<Seq<char>> {
    Set::new(|k: Seq<char>| exists|i: int| 0 <= i < v.len() && #[trigger] v[i].symbol == k)
}

/// Sweeps the sites in order: the first definition site of each id of `ids`
/// becomes a finding (path, line). Also gives the ids located so far.
pub open spec fn sweep(sites: Seq<(Seq<char>, OccurrenceModel)>, ids: Set<Seq<char>>) -> (
    Seq<(Seq<char>, u32)>,
    Set<Seq<char>>,
)
    decreases sites.len(),
{
    if sites.len() == 0 {
        (Seq::empty(), Set::empty())
    } else {
        let (found, located) = sweep(sites.drop_last(), ids);
        let (path, o) = sites.last();
        if ids.contains(o.symbol) && !located.contains(o.symbol) && is_definition(o.roles) {
            (found.push((path, o.line)), located.insert(o.symbol))
        } else {
            (found, located)
        }
    }
}

/// The findings of the candidates `cands` in the graph.
pub open spec fn findings(docs: Seq<DocumentModel>, cands: Seq<SymbolModel>) -> Seq<(Seq<char>, u32)> {
    sweep(flat_sites(docs), ids_of(cands)).0
}

/// The models of a list of findings.
pub open spec fn findings_view(v: Seq<(String, u32)>) -> Seq<(Seq<char>, u32)> {
    v.map_values(|f: (String, u32)| (f.0@, f.1))
}

proof fn lemma_flat_sites_step(docs: Seq<DocumentModel>, d: int)
    requires
        0 <= d < docs.len(),
    ensures
        flat_sites(docs.take(d + 1)) == flat_sites(docs.take(d)) + doc_sites(docs[d]),
{
    assert(docs.take(d + 1).drop_last() =~= docs.take(d));
}

/// The ids of the candidates.
fn candidate_ids(cands: &Vec<SymbolInformation>) -> (r: Vec<String>)
    ensures
        names(r@) == ids_of(view_all(cands@)),
{
    let mut ids: Vec<String> = Vec::new();
    let mut i: usize = 0;
    while i < cands.len()
        invariant
            i <= cands.len(),
            ids@.len() == i,
            forall|j: int| 0 <= j < i ==> #[trigger] ids@[j]@ == cands@[j].symbol@,
        decreases cands.len() - i,
    {
        ids.push(cands[i].symbol.clone());
        i = i + 1;
    }
    assert forall|k: Seq<char>| names(ids@).contains(k) == ids_of(view_all(cands@)).contains(k) by {
        if names(ids@).contains(k) {
            let j = choose|j: int| 0 <= j < ids@.len() && #[trigger] ids@[j]@ == k;
            assert(view_all(cands@)[j].symbol == k);
        }
        if ids_of(view_all(cands@)).contains(k) {
            let j = choose|j: int| 0 <= j < view_all(cands@).len() && #[trigger] view_all(cands@)[j].symbol == k;
            assert(ids@[j]@ == k);
        }
    }
    assert(names(ids@) =~= ids_of(view_all(cands@)));
    ids
}

/// Sweeps the graph a second time and records, for each candidate, its first
/// definition site as (document path, zero-based line).
pub fn locate_definitions(graph: &SymbolGraph, cands: &Vec<SymbolInformation>) -> (r: Vec<(String, u32)>)
    ensures
        findings_view(r@) == findings(graph@, view_all(cands@)),
{
    let ids = candidate_ids(cands);
    let ghost wanted = ids_of(view_all(cands@));
    let ghost docs = graph@;
    let mut found: Vec<(String, u32)> = Vec::new();
    let mut located: Vec<String> = Vec::new();
    let mut d: usize = 0;
    while d < graph.documents.len()
        invariant
            d <= graph.documents.len(),
            docs == graph@,
            names(ids@) == wanted,
            findings_view(found@) == sweep(flat_sites(docs.take(d as int)), wanted).0,
            names(located@) == sweep(flat_sites(docs.take(d as int)), wanted).1,
        decreases graph.documents.len() - d,
    {
        let doc: &Document = &graph.documents[d];
        let ghost done = flat_sites(docs.take(d as int));
        let mut j: usize = 0;
        while j < doc.occurrences.len()
            invariant
                d < graph.documents.len(),
                doc == &graph.documents@[d as int],
                docs == graph@,
                names(ids@) == wanted,
                j <= doc.occurrences.len(),
                done == flat_sites(docs.take(d as int)),
                findings_view(found@) == sweep(done + doc_sites(docs[d as int]).take(j as int), wanted).0,
                names(located@) == sweep(done + doc_sites(docs[d as int]).take(j as int), wanted).1,
            decreases doc.occurrences.len() - j,
        {
            let o: &Occurrence = &doc.occurrences[j];
            let ghost before = done + doc_sites(docs[d as int]).take(j as int);
            let ghost after = done + doc_sites(docs[d as int]).take(j as int + 1);
            assert(after.drop_last() =~= before);
            assert(after.last() == (doc.relative_path@, o@));
            let ghost old_found = found@;
            let ghost old_located = located@;
            if contains_name(&ids, &o.symbol) && !contains_name(&located, &o.symbol)
                && occurrence_is_definition(o) {
                found.push((doc.relative_path.clone(), o.start_line));
                located.push(o.symbol.clone());
                assert(findings_view(found@) =~= findings_view(old_found).push((doc.relative_path@, o@.line)));
                assert(names(located@) =~= names(old_located).insert(o@.symbol)) by {
                    assert forall|k: Seq<char>| names(located@).contains(k) implies names(old_located).insert(o@.symbol).contains(k) by {
                        let i = choose|i: int| 0 <= i < located@.len() && #[trigger] located@[i]@ == k;
                        if i < old_located.len() {
                            assert(old_located[i]@ == k);
                        }
                    }
                    assert forall|k: Seq<char>| names(old_located).insert(o@.symbol).contains(k) implies names(located@).contains(k) by {
                        if k == o@.symbol {
                            assert(located@[located@.len() - 1]@ == k);
                        } else {
                            let i = choose|i: int| 0 <= i < old_located.len() && #[trigger] old_located[i]@ == k;
                            assert(located@[i]@ == k);
                        }
                    }
                }
            }
            j = j + 1;
        }
        proof {
            assert(doc_sites(docs[d as int]).take(j as int) =~= doc_sites(docs[d as int]));
            lemma_flat_sites_step(docs, d as int);
        }
        d = d + 1;
    }
    assert(docs.take(d as int) =~= docs);
    found
}

} // verus!
