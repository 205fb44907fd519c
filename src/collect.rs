//! The declaration collector: the initial candidates and the trait names.
use vstd::prelude::*;
use crate::graph::{Document, SymbolGraph, SymbolInformation, SymbolKind, SymbolModel, opt_view};
use crate::model::{declarations, flat_symbols, is_callable, lists, trait_names};

verus! {

/// The models of a list of candidates.
pub open spec fn view_all(v: Seq<SymbolInformation>) -> Seq<SymbolModel> {
    v.map_values(|s: SymbolInformation| s@)
}

/// The names of a list of strings.
pub open spec fn names(v: Seq<String>) -> Set<Seq<char>> {
    Set::new(|n: Seq<char>| exists|i: int| 0 <= i < v.len() && #[trigger] v[i]@ == n)
}

/// Copies an optional string.
pub fn clone_opt(o: &Option<String>) -> (r: Option<String>)
    ensures
        opt_view(r) == opt_view(*o),
{
    match o {
        Some(s) => Some(s.clone()),
        None => None,
    }
}

/// Copies a declaration field by field.
pub fn clone_symbol(s: &SymbolInformation) -> (r: SymbolInformation)
    ensures
        r@ == s@,
{
    SymbolInformation {
        symbol: s.symbol.clone(),
        display_name: s.display_name.clone(),
        kind: s.kind,
        file_hint: clone_opt(&s.file_hint),
    }
}

/// The position of the candidate with the given id, if any.
pub fn find_candidate(cands: &Vec<SymbolInformation>, id: &String) -> (r: Option<usize>)
    ensures
        match r {
            Some(i) => i < cands.len() && cands@[i as int].symbol@ == id@,
            None => forall|i: int| 0 <= i < cands.len() ==> cands@[i].symbol@ != id@,
        },
{
    let mut i: usize = 0;
    while i < cands.len()
        invariant
            i <= cands.len(),
            forall|j: int| 0 <= j < i ==> cands@[j].symbol@ != id@,
        decreases cands.len() - i,
    {
        if cands[i].symbol == *id {
            return Some(i);
        }
        i = i + 1;
    }
    None
}

proof fn lemma_flat_symbols_step(docs: Seq<crate::graph::DocumentModel>, d: int)
    requires
        0 <= d < docs.len(),
    ensures
        flat_symbols(docs.take(d + 1)) == flat_symbols(docs.take(d)) + docs[d].symbols,
{
    assert(docs.take(d + 1).drop_last() =~= docs.take(d));
}

proof fn lemma_lists_update(v: Seq<SymbolModel>, m: Map<Seq<char>, SymbolModel>, i: int, s: SymbolModel)
    requires
        lists(v, m),
        0 <= i < v.len(),
        v[i].symbol == s.symbol,
    ensures
        lists(v.update(i, s), m.insert(s.symbol, s)),
{
    let w = v.update(i, s);
    let n = m.insert(s.symbol, s);
    assert forall|k: Seq<char>| #[trigger] n.contains_key(k) implies exists|x: int|
        0 <= x < w.len() && w[x].symbol == k by {
        if k != s.symbol {
            let x = choose|x: int| 0 <= x < v.len() && v[x].symbol == k;
            assert(w[x].symbol == k);
        } else {
            assert(w[i].symbol == k);
        }
    }
}

proof fn lemma_lists_push(v: Seq<SymbolModel>, m: Map<Seq<char>, SymbolModel>, s: SymbolModel)
    requires
        lists(v, m),
        forall|i: int| 0 <= i < v.len() ==> v[i].symbol != s.symbol,
    ensures
        lists(v.push(s), m.insert(s.symbol, s)),
{
    let w = v.push(s);
    let n = m.insert(s.symbol, s);
    assert forall|k: Seq<char>| #[trigger] n.contains_key(k) implies exists|x: int|
        0 <= x < w.len() && w[x].symbol == k by {
        if k != s.symbol {
            let x = choose|x: int| 0 <= x < v.len() && v[x].symbol == k;
            assert(w[x].symbol == k);
        } else {
            assert(w[v.len() as int].symbol == k);
        }
    }
}

/// Collects the methods and functions of the graph as candidates, and the
/// display names of its traits.
pub fn collect_declarations(graph: &SymbolGraph) -> (r: (Vec<SymbolInformation>, Vec<String>))
    ensures
        lists(view_all(r.0@), declarations(flat_symbols(graph@))),
        names(r.1@) == trait_names(flat_symbols(graph@)),
{
    let mut cands: Vec<SymbolInformation> = Vec::new();
    let mut traits: Vec<String> = Vec::new();
    let ghost docs = graph@;
    let mut d: usize = 0;
    while d < graph.documents.len()
        invariant
            d <= graph.documents.len(),
            docs == graph@,
            lists(view_all(cands@), declarations(flat_symbols(docs.take(d as int)))),
            names(traits@) == trait_names(flat_symbols(docs.take(d as int))),
        decreases graph.documents.len() - d,
    {
        let doc: &Document = &graph.documents[d];
        let ghost done = flat_symbols(docs.take(d as int));
        let mut j: usize = 0;
        while j < doc.symbols.len()
            invariant
                d < graph.documents.len(),
                doc == &graph.documents@[d as int],
                docs == graph@,
                j <= doc.symbols.len(),
                done == flat_symbols(docs.take(d as int)),
                lists(view_all(cands@), declarations(done + docs[d as int].symbols.take(j as int))),
                names(traits@) == trait_names(done + docs[d as int].symbols.take(j as int)),
            decreases doc.symbols.len() - j,
        {
            let s: &SymbolInformation = &doc.symbols[j];
            let ghost before = done + docs[d as int].symbols.take(j as int);
            let ghost after = done + docs[d as int].symbols.take(j as int + 1);
            assert(after.drop_last() =~= before);
            assert(after.last() == s@);
            let ghost old_traits = traits@;
            if s.kind == SymbolKind::Trait {
                traits.push(s.display_name.clone());
            }
            assert(names(traits@) =~= trait_names(after)) by {
                assert forall|n: Seq<char>| names(traits@).contains(n) implies trait_names(after).contains(n) by {
                    let i = choose|i: int| 0 <= i < traits@.len() && #[trigger] traits@[i]@ == n;
                    if i < old_traits.len() {
                        assert(names(old_traits).contains(n));
                        let k = choose|k: int| 0 <= k < before.len() && #[trigger] before[k].kind == SymbolKind::Trait
                            && before[k].display_name == n;
                        assert(after[k] == before[k]);
                    } else {
                        assert(after[after.len() - 1] == s@);
                    }
                }
                assert forall|n: Seq<char>| trait_names(after).contains(n) implies names(traits@).contains(n) by {
                    let k = choose|k: int| 0 <= k < after.len() && #[trigger] after[k].kind == SymbolKind::Trait
                        && after[k].display_name == n;
                    if k < before.len() {
                        assert(before[k] == after[k]);
                        assert(trait_names(before).contains(n));
                        let i = choose|i: int| 0 <= i < old_traits.len() && #[trigger] old_traits[i]@ == n;
                        assert(traits@[i] == old_traits[i]);
                    } else {
                        assert(traits@[traits@.len() - 1]@ == n);
                    }
                }
            }
            if s.kind == SymbolKind::Method || s.kind == SymbolKind::Function {
                let c = clone_symbol(s);
                let ghost m = declarations(before);
                assert(declarations(after) == m.insert(s@.symbol, s@));
                match find_candidate(&cands, &s.symbol) {
                    Some(i) => {
                        let ghost old_c = view_all(cands@);
                        cands.set(i, c);
                        assert(view_all(cands@) =~= old_c.update(i as int, s@));
                        proof {
                            lemma_lists_update(old_c, m, i as int, s@);
                        }
                    },
                    None => {
                        let ghost old_c = view_all(cands@);
                        cands.push(c);
                        assert(view_all(cands@) =~= old_c.push(s@));
                        proof {
                            lemma_lists_push(old_c, m, s@);
                        }
                    },
                }
            } else {
                assert(!is_callable(s@.kind));
                assert(declarations(after) == declarations(before));
            }
            j = j + 1;
        }
        proof {
            assert(docs[d as int].symbols.take(j as int) =~= docs[d as int].symbols);
            lemma_flat_symbols_step(docs, d as int);
        }
        d = d + 1;
    }
    assert(docs.take(d as int) =~= docs);
    (cands, traits)
}

} // verus!
