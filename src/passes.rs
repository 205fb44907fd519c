//! The three elimination passes. Each keeps, in order, the candidates that
//! pass its test.
use vstd::prelude::*;
use crate::collect::{clone_symbol, names, view_all};
use crate::graph::{Document, DocumentModel, Occurrence, SymbolGraph, SymbolInformation, SymbolModel, occurrence_is_definition};
use crate::model::{contains_seq, flat_occurrences, has_use, line_hits, passes_heuristics};

verus! {

/// Relies on `str::contains`: true when `needle` occurs as a contiguous part of `hay`.
#[verifier::external_body]
pub(crate) fn text_contains(hay: &str, needle: &str) -> (r: bool)
    ensures
        r == contains_seq(hay@, needle@),
{
    hay.contains(needle)
}

/// Whether one of the strings equals `s`.
pub fn contains_name(v: &Vec<String>, s: &String) -> (r: bool)
    ensures
        r == names(v@).contains(s@),
{
    let mut i: usize = 0;
    while i < v.len()
        invariant
            i <= v.len(),
            forall|j: int| 0 <= j < i ==> v@[j]@ != s@,
        decreases v.len() - i,
    {
        if v[i] == *s {
            assert(names(v@).contains(s@)) by {
                assert(v@[i as int]@ == s@);
            }
            return true;
        }
        i = i + 1;
    }
    false
}

proof fn lemma_flat_occurrences_step(docs: Seq<DocumentModel>, d: int)
    requires
        0 <= d < docs.len(),
    ensures
        flat_occurrences(docs.take(d + 1)) == flat_occurrences(docs.take(d)) + docs[d].occurrences,
{
    assert(docs.take(d + 1).drop_last() =~= docs.take(d));
}

proof fn lemma_filter_step<A>(s: Seq<A>, i: int, p: spec_fn(A) -> bool)
    requires
        0 <= i < s.len(),
    ensures
        s.take(i + 1).filter(p) == if p(s[i]) {
            s.take(i).filter(p).push(s[i])
        } else {
            s.take(i).filter(p)
        },
{
    assert(s.take(i + 1) =~= s.take(i).push(s[i]));
    s.take(i).lemma_filter_push(s[i], p);
}

/// The ids of every occurrence that is not a definition.
pub fn referenced_ids(graph: &SymbolGraph) -> (r: Vec<String>)
    ensures
        forall|k: Seq<char>| names(r@).contains(k) == has_use(flat_occurrences(graph@), k),
{
    let mut used: Vec<String> = Vec::new();
    let ghost docs = graph@;
    let mut d: usize = 0;
    while d < graph.documents.len()
        invariant
            d <= graph.documents.len(),
            docs == graph@,
            forall|k: Seq<char>| names(used@).contains(k) == has_use(flat_occurrences(docs.take(d as int)), k),
        decreases graph.documents.len() - d,
    {
        let doc: &Document = &graph.documents[d];
        let ghost done = flat_occurrences(docs.take(d as int));
        let mut j: usize = 0;
        while j < doc.occurrences.len()
            invariant
                d < graph.documents.len(),
                doc == &graph.documents@[d as int],
                docs == graph@,
                j <= doc.occurrences.len(),
                done == flat_occurrences(docs.take(d as int)),
                forall|k: Seq<char>|
                    names(used@).contains(k) == has_use(done + docs[d as int].occurrences.take(j as int), k),
            decreases doc.occurrences.len() - j,
        {
            let o: &Occurrence = &doc.occurrences[j];
            let ghost before = done + docs[d as int].occurrences.take(j as int);
            let ghost after = done + docs[d as int].occurrences.take(j as int + 1);
            assert(after =~= before.push(o@));
            let ghost old_used = used@;
            let ghost is_use = !crate::graph::is_definition(o.symbol_roles);
            if !occurrence_is_definition(o) {
                used.push(o.symbol.clone());
            }
            assert(is_use ==> used@.len() == old_used.len() + 1 && used@.last()@ == o@.symbol);
            assert(!is_use ==> used@ == old_used);
            assert forall|k: Seq<char>| names(used@).contains(k) == has_use(after, k) by {
                if names(used@).contains(k) {
                    let i = choose|i: int| 0 <= i < used@.len() && #[trigger] used@[i]@ == k;
                    if i < old_used.len() {
                        assert(old_used[i]@ == k);
                        assert(names(old_used).contains(k));
                        let x = choose|x: int| 0 <= x < before.len() && #[trigger] before[x].symbol == k
                            && !crate::graph::is_definition(before[x].roles);
                        assert(after[x] == before[x]);
                    } else {
                        assert(after[before.len() as int] == o@);
                    }
                }
                if has_use(after, k) && !names(used@).contains(k) {
                    let x = choose|x: int| 0 <= x < after.len() && #[trigger] after[x].symbol == k
                        && !crate::graph::is_definition(after[x].roles);
                    if x < before.len() {
                        assert(before[x] == after[x]);
                        assert(has_use(before, k));
                        assert(names(old_used).contains(k));
                        let i = choose|i: int| 0 <= i < old_used.len() && #[trigger] old_used[i]@ == k;
                        assert(used@[i] == old_used[i]);
                    } else {
                        assert(used@[used@.len() - 1]@ == k);
                    }
                }
            }
            j = j + 1;
        }
        proof {
            assert(docs[d as int].occurrences.take(j as int) =~= docs[d as int].occurrences);
            lemma_flat_occurrences_step(docs, d as int);
        }
        d = d + 1;
    }
    assert(docs.take(d as int) =~= docs);
    used
}

/// Pass 1: drops every candidate that has an occurrence without the definition bit.
pub fn eliminate_referenced(graph: &SymbolGraph, cands: &Vec<SymbolInformation>) -> (r: Vec<SymbolInformation>)
    ensures
        view_all(r@) == view_all(cands@).filter(
            |c: SymbolModel| !has_use(flat_occurrences(graph@), c.symbol),
        ),
{
    let used = referenced_ids(graph);
    let ghost p = |c: SymbolModel| !has_use(flat_occurrences(graph@), c.symbol);
    let mut kept: Vec<SymbolInformation> = Vec::new();
    let mut i: usize = 0;
    while i < cands.len()
        invariant
            i <= cands.len(),
            forall|k: Seq<char>| names(used@).contains(k) == has_use(flat_occurrences(graph@), k),
            p == (|c: SymbolModel| !has_use(flat_occurrences(graph@), c.symbol)),
            view_all(kept@) == view_all(cands@).take(i as int).filter(p),
        decreases cands.len() - i,
    {
        let ghost old_kept = view_all(kept@);
        proof {
            lemma_filter_step(view_all(cands@), i as int, p);
        }
        if !contains_name(&used, &cands[i].symbol) {
            kept.push(clone_symbol(&cands[i]));
            assert(view_all(kept@) =~= old_kept.push(cands@[i as int]@));
        }
        i = i + 1;
    }
    assert(view_all(cands@).take(i as int) =~= view_all(cands@));
    kept
}

/// Whether a candidate matches none of the never-called patterns.
pub fn passes_heuristic_filter(c: &SymbolInformation, traits: &Vec<String>) -> (r: bool)
    ensures
        r == passes_heuristics(c@, names(traits@)),
{
    let main_name = "main".to_owned();
    if text_contains(c.symbol.as_str(), "test") || c.display_name == main_name {
        return false;
    }
    match &c.file_hint {
        Some(h) => {
            if text_contains(h.as_str(), "test") {
                return false;
            }
        },
        None => {},
    }
    let mut i: usize = 0;
    while i < traits.len()
        invariant
            i <= traits.len(),
            forall|j: int| 0 <= j < i ==> !contains_seq(c@.symbol, #[trigger] traits@[j]@),
        decreases traits.len() - i,
    {
        if text_contains(c.symbol.as_str(), traits[i].as_str()) {
            assert(names(traits@).contains(traits@[i as int]@));
            return false;
        }
        i = i + 1;
    }
    assert forall|t: Seq<char>| #[trigger] names(traits@).contains(t) implies !contains_seq(c@.symbol, t) by {
        let j = choose|j: int| 0 <= j < traits@.len() && #[trigger] traits@[j]@ == t;
    }
    true
}

/// Pass 2: keeps the candidates that match none of the never-called patterns.
pub fn apply_heuristics(cands: &Vec<SymbolInformation>, traits: &Vec<String>) -> (r: Vec<SymbolInformation>)
    ensures
        view_all(r@) == view_all(cands@).filter(|c: SymbolModel| passes_heuristics(c, names(traits@))),
{
    let ghost p = |c: SymbolModel| passes_heuristics(c, names(traits@));
    let mut kept: Vec<SymbolInformation> = Vec::new();
    let mut i: usize = 0;
    while i < cands.len()
        invariant
            i <= cands.len(),
            p == (|c: SymbolModel| passes_heuristics(c, names(traits@))),
            view_all(kept@) == view_all(cands@).take(i as int).filter(p),
        decreases cands.len() - i,
    {
        let ghost old_kept = view_all(kept@);
        proof {
            lemma_filter_step(view_all(cands@), i as int, p);
        }
        if passes_heuristic_filter(&cands[i], traits) {
            kept.push(clone_symbol(&cands[i]));
            assert(view_all(kept@) =~= old_kept.push(cands@[i as int]@));
        }
        i = i + 1;
    }
    assert(view_all(cands@).take(i as int) =~= view_all(cands@));
    kept
}

/// The views of a list of lines.
pub open spec fn lines_view(v: Seq<String>) -> Seq<Seq<char>> {
    v.map_values(|s: String| s@)
}

/// The number of lines that contain `name` as a literal substring.
pub fn count_lines_containing(lines: &Vec<String>, name: &String) -> (r: usize)
    ensures
        r == line_hits(lines_view(lines@), name@),
{
    let mut n: usize = 0;
    let mut i: usize = 0;
    while i < lines.len()
        invariant
            i <= lines.len(),
            n <= i,
            n == line_hits(lines_view(lines@).take(i as int), name@),
        decreases lines.len() - i,
    {
        assert(lines_view(lines@).take(i as int + 1).drop_last() =~= lines_view(lines@).take(i as int));
        if text_contains(lines[i].as_str(), name.as_str()) {
            n = n + 1;
        }
        i = i + 1;
    }
    assert(lines_view(lines@).take(i as int) =~= lines_view(lines@));
    n
}

/// Pass 3: keeps the candidates whose display name is on at most one of the
/// scanned lines.
pub fn corroborate_textually(cands: &Vec<SymbolInformation>, lines: &Vec<String>) -> (r: Vec<SymbolInformation>)
    ensures
        view_all(r@) == view_all(cands@).filter(
            |c: SymbolModel| line_hits(lines_view(lines@), c.display_name) <= 1,
        ),
{
    let ghost p = |c: SymbolModel| line_hits(lines_view(lines@), c.display_name) <= 1;
    let mut kept: Vec<SymbolInformation> = Vec::new();
    let mut i: usize = 0;
    while i < cands.len()
        invariant
            i <= cands.len(),
            p == (|c: SymbolModel| line_hits(lines_view(lines@), c.display_name) <= 1),
            view_all(kept@) == view_all(cands@).take(i as int).filter(p),
        decreases cands.len() - i,
    {
        let ghost old_kept = view_all(kept@);
        proof {
            lemma_filter_step(view_all(cands@), i as int, p);
        }
        if count_lines_containing(lines, &cands[i].display_name) <= 1 {
            kept.push(clone_symbol(&cands[i]));
            assert(view_all(kept@) =~= old_kept.push(cands@[i as int]@));
        }
        i = i + 1;
    }
    assert(view_all(cands@).take(i as int) =~= view_all(cands@));
    kept
}

} // verus!
