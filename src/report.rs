//! Grouping of findings by file, ordered by path and then by line.
use vstd::prelude::*;
use itertools::Itertools;
use crate::locate::findings_view;
use crate::order::{lemma_path_lt_irreflexive, lemma_path_lt_total, lemma_path_lt_transitive, path_less, path_lt};

verus! {

broadcast use vstd::seq_lib::group_to_multiset_ensures;

/// The findings of one file: its path and the zero-based lines of its
/// findings, in ascending order.
#[derive(Debug)]
pub struct FileFindings {
    pub path: String,
    pub lines: Vec<u32>,
}

impl View for FileFindings {
    type V = (Seq<char>, Seq<u32>);

    open spec fn view(&self) -> (Seq<char>, Seq<u32>) {
        (self.path@, self.lines@)
    }
}

/// The models of a report.
pub open spec fn report_view(r: Seq<FileFindings>) -> Seq<(Seq<char>, Seq<u32>)> {
    r.map_values(|g: FileFindings| g@)
}

/// The models of a list of groups.
pub open spec fn groups_view(g: Seq<(String, Vec<u32>)>) -> Seq<(Seq<char>, Seq<u32>)> {
    g.map_values(|x: (String, Vec<u32>)| (x.0@, x.1@))
}

/// The lines of the findings in file `path`, in the order given.
pub open spec fn lines_at(f: Seq<(Seq<char>, u32)>, path: Seq<char>) -> Seq<u32> {
    f.filter(|x: (Seq<char>, u32)| x.0 == path).map_values(|x: (Seq<char>, u32)| x.1)
}

/// Some finding of `f` is in file `path`.
pub open spec fn has_finding_in(f: Seq<(Seq<char>, u32)>, path: Seq<char>) -> bool {
    exists|k: int| 0 <= k < f.len() && #[trigger] f[k].0 == path
}

/// Some group of `r` is for file `path`.
pub open spec fn has_group_for(r: Seq<(Seq<char>, Seq<u32>)>, path: Seq<char>) -> bool {
    exists|i: int| 0 <= i < r.len() && #[trigger] r[i].0 == path
}

pub open spec fn ascending(s: Seq<u32>) -> bool {
    forall|i: int, j: int| 0 <= i < j < s.len() ==> s[i] <= s[j]
}

/// `r` holds the findings `f` grouped by file: one group per path that occurs in
/// `f`, groups in strictly ascending path order, each group's lines ascending.
pub open spec fn is_report(r: Seq<(Seq<char>, Seq<u32>)>, f: Seq<(Seq<char>, u32)>) -> bool {
    &&& forall|i: int, j: int| 0 <= i < j < r.len() ==> path_lt(#[trigger] r[i].0, #[trigger] r[j].0)
    &&& forall|i: int| 0 <= i < r.len() ==> ascending(#[trigger] r[i].1)
    &&& forall|i: int| 0 <= i < r.len() ==> (#[trigger] r[i].1).to_multiset() == lines_at(f, r[i].0).to_multiset()
    &&& forall|i: int| 0 <= i < r.len() ==> has_finding_in(f, (#[trigger] r[i]).0)
    &&& forall|k: int| 0 <= k < f.len() ==> has_group_for(r, (#[trigger] f[k]).0)
}

/// `g` has one group per distinct path of `f`, holding that path's lines in
/// the order of `f`; the groups are in any order.
pub open spec fn is_grouping(g: Seq<(Seq<char>, Seq<u32>)>, f: Seq<(Seq<char>, u32)>) -> bool {
    &&& forall|i: int, j: int| 0 <= i < j < g.len() ==> (#[trigger] g[i]).0 != (#[trigger] g[j]).0
    &&& forall|i: int| 0 <= i < g.len() ==> (#[trigger] g[i]).1 == lines_at(f, g[i].0)
    &&& forall|i: int| 0 <= i < g.len() ==> has_finding_in(f, (#[trigger] g[i]).0)
    &&& forall|k: int| 0 <= k < f.len() ==> has_group_for(g, (#[trigger] f[k]).0)
}

/// Relies on `Itertools::into_group_map`: one entry per distinct path, with that
/// path's lines in input order. The entries come out of a `HashMap`, in no
/// fixed order.
#[verifier::external_body]
fn group_by_path(items: Vec<(String, u32)>) -> (r: Vec<(String, Vec<u32>)>)
    ensures
        is_grouping(groups_view(r@), findings_view(items@)),
{
    items.into_iter().into_group_map().into_iter().collect()
}

/// Sorts lines into ascending order.
pub fn sort_lines(v: Vec<u32>) -> (r: Vec<u32>)
    ensures
        ascending(r@),
        r@.to_multiset() == v@.to_multiset(),
{
    let mut rem = v;
    let mut out: Vec<u32> = Vec::new();
    while rem.len() > 0
        invariant
            ascending(out@),
            forall|i: int, t: int| 0 <= i < out@.len() && 0 <= t < rem@.len() ==> out@[i] <= rem@[t],
            out@.to_multiset().add(rem@.to_multiset()) == v@.to_multiset(),
        decreases rem.len(),
    {
        let mut m: usize = 0;
        let mut t: usize = 1;
        while t < rem.len()
            invariant
                0 < rem.len(),
                m < t <= rem.len(),
                forall|s: int| 0 <= s < t ==> rem@[m as int] <= rem@[s],
            decreases rem.len() - t,
        {
            if rem[t] < rem[m] {
                m = t;
            }
            t = t + 1;
        }
        let ghost old_rem = rem@;
        let ghost old_out = out@;
        let x = rem.remove(m);
        out.push(x);
        assert(out@.to_multiset().add(rem@.to_multiset()) =~= old_out.to_multiset().add(old_rem.to_multiset()));
        assert forall|i: int, t2: int| 0 <= i < out@.len() && 0 <= t2 < rem@.len() implies out@[i] <= rem@[t2] by {
            if t2 < m {
                assert(rem@[t2] == old_rem[t2]);
            } else {
                assert(rem@[t2] == old_rem[t2 + 1]);
            }
        }
    }
    out
}

/// Sorts groups with distinct paths into strictly ascending path order.
fn sort_groups(v: Vec<(String, Vec<u32>)>) -> (r: Vec<(String, Vec<u32>)>)
    requires
        forall|i: int, j: int| 0 <= i < j < v@.len() ==> (#[trigger] groups_view(v@)[i]).0 != (#[trigger] groups_view(v@)[j]).0,
    ensures
        forall|i: int, j: int| 0 <= i < j < r@.len() ==> path_lt(#[trigger] groups_view(r@)[i].0, #[trigger] groups_view(r@)[j].0),
        groups_view(r@).to_multiset() == groups_view(v@).to_multiset(),
{
    assert forall|i: int, j: int| 0 <= i < j < v@.len() implies v@[i].0@ != v@[j].0@ by {
        assert(groups_view(v@)[i].0 == v@[i].0@);
        assert(groups_view(v@)[j].0 == v@[j].0@);
    }
    let mut rem = v;
    let mut out: Vec<(String, Vec<u32>)> = Vec::new();
    while rem.len() > 0
        invariant
            forall|i: int, j: int| 0 <= i < j < rem@.len() ==> rem@[i].0@ != rem@[j].0@,
            forall|i: int, j: int| 0 <= i < j < out@.len() ==> path_lt(out@[i].0@, out@[j].0@),
            forall|i: int, t: int| 0 <= i < out@.len() && 0 <= t < rem@.len() ==> path_lt(out@[i].0@, rem@[t].0@),
            groups_view(out@).to_multiset().add(groups_view(rem@).to_multiset()) == groups_view(v@).to_multiset(),
        decreases rem.len(),
    {
        let mut m: usize = 0;
        let mut t: usize = 1;
        while t < rem.len()
            invariant
                0 < rem.len(),
                forall|i: int, j: int| 0 <= i < j < rem@.len() ==> rem@[i].0@ != rem@[j].0@,
                m < t <= rem.len(),
                forall|s: int| 0 <= s < t && s != m ==> path_lt(rem@[m as int].0@, rem@[s].0@),
            decreases rem.len() - t,
        {
            if path_less(&rem[t].0, &rem[m].0) {
                proof {
                    assert forall|s: int| 0 <= s < t implies path_lt(rem@[t as int].0@, rem@[s].0@) by {
                        if s != m {
                            lemma_path_lt_transitive(rem@[t as int].0@, rem@[m as int].0@, rem@[s].0@);
                        }
                    }
                }
                m = t;
            } else {
                proof {
                    lemma_path_lt_total(rem@[t as int].0@, rem@[m as int].0@);
                }
            }
            t = t + 1;
        }
        let ghost old_rem = rem@;
        let ghost old_out = out@;
        let x = rem.remove(m);
        out.push(x);
        assert(groups_view(old_rem).remove(m as int) =~= groups_view(rem@));
        assert(groups_view(old_out).push(groups_view(old_rem)[m as int]) =~= groups_view(out@));
        assert(groups_view(out@).to_multiset().add(groups_view(rem@).to_multiset())
            =~= groups_view(old_out).to_multiset().add(groups_view(old_rem).to_multiset()));
        assert forall|i: int, t2: int| 0 <= i < out@.len() && 0 <= t2 < rem@.len() implies path_lt(out@[i].0@, rem@[t2].0@) by {
            if t2 < m {
                assert(rem@[t2] == old_rem[t2]);
            } else {
                assert(rem@[t2] == old_rem[t2 + 1]);
            }
        }
        assert forall|i: int, j: int| 0 <= i < j < rem@.len() implies rem@[i].0@ != rem@[j].0@ by {
            let a = if i < m { i } else { i + 1 };
            let b = if j < m { j } else { j + 1 };
            assert(rem@[i] == old_rem[a]);
            assert(rem@[j] == old_rem[b]);
        }
    }
    assert forall|i: int, j: int| 0 <= i < j < out@.len() implies path_lt(
        #[trigger] groups_view(out@)[i].0,
        #[trigger] groups_view(out@)[j].0,
    ) by {
        assert(groups_view(out@)[i].0 == out@[i].0@);
        assert(groups_view(out@)[j].0 == out@[j].0@);
    }
    out
}

proof fn lemma_same_elements<A>(a: Seq<A>, b: Seq<A>, i: int)
    requires
        a.to_multiset() == b.to_multiset(),
        0 <= i < a.len(),
    ensures
        exists|j: int| 0 <= j < b.len() && b[j] == a[i],
{
    assert(a.to_multiset().count(a[i]) > 0);
    assert(b.to_multiset().count(a[i]) > 0);
    assert(b.contains(a[i]));
}

proof fn lemma_report(
    rv: Seq<(Seq<char>, Seq<u32>)>,
    sv: Seq<(Seq<char>, Seq<u32>)>,
    gv: Seq<(Seq<char>, Seq<u32>)>,
    f: Seq<(Seq<char>, u32)>,
)
    requires
        rv.len() == sv.len(),
        forall|j: int| 0 <= j < rv.len() ==> (#[trigger] rv[j]).0 == sv[j].0 && ascending(rv[j].1)
            && rv[j].1.to_multiset() == sv[j].1.to_multiset(),
        forall|i: int, j: int| 0 <= i < j < sv.len() ==> path_lt(#[trigger] sv[i].0, #[trigger] sv[j].0),
        sv.to_multiset() == gv.to_multiset(),
        is_grouping(gv, f),
    ensures
        is_report(rv, f),
{
    assert forall|i: int| 0 <= i < rv.len() implies rv[i].1.to_multiset() == lines_at(f, rv[i].0).to_multiset()
        && has_finding_in(f, (#[trigger] rv[i]).0) by {
        lemma_same_elements(sv, gv, i);
        let j = choose|j: int| 0 <= j < gv.len() && gv[j] == sv[i];
        assert(gv[j].1 == lines_at(f, gv[j].0));
        assert(has_finding_in(f, gv[j].0));
    }
    assert forall|k: int| 0 <= k < f.len() implies has_group_for(rv, (#[trigger] f[k]).0) by {
        assert(has_group_for(gv, f[k].0));
        let j = choose|j: int| 0 <= j < gv.len() && #[trigger] gv[j].0 == f[k].0;
        lemma_same_elements(gv, sv, j);
        let i = choose|i: int| 0 <= i < sv.len() && sv[i] == gv[j];
        assert(rv[i].0 == f[k].0);
    }
    assert forall|i: int, j: int| 0 <= i < j < rv.len() implies path_lt(#[trigger] rv[i].0, #[trigger] rv[j].0) by {
        assert(rv[i].0 == sv[i].0);
        assert(rv[j].0 == sv[j].0);
    }
    assert forall|i: int| 0 <= i < rv.len() implies ascending(#[trigger] rv[i].1) by {
        assert(rv[i].0 == sv[i].0);
    }
}

/// Groups findings (path, line) by file: groups in ascending path order, lines
/// ascending within each group.
pub fn group_findings(found: Vec<(String, u32)>) -> (r: Vec<FileFindings>)
    ensures
        is_report(report_view(r@), findings_view(found@)),
{
    let ghost f = findings_view(found@);
    let groups = group_by_path(found);
    let ghost gv = groups_view(groups@);
    let sorted = sort_groups(groups);
    let ghost sv = groups_view(sorted@);
    let mut rest = sorted;
    let mut out: Vec<FileFindings> = Vec::new();
    while rest.len() > 0
        invariant
            out@.len() + rest@.len() == sv.len(),
            groups_view(rest@) == sv.skip(out@.len() as int),
            forall|j: int| 0 <= j < out@.len() ==> (#[trigger] out@[j]).path@ == sv[j].0
                && ascending(out@[j].lines@) && out@[j].lines@.to_multiset() == sv[j].1.to_multiset(),
        decreases rest.len(),
    {
        let ghost before = groups_view(rest@);
        let ghost k = out@.len() as int;
        assert(before[0] == sv[k]);
        let (path, lines) = rest.remove(0);
        assert(path@ == sv[k].0 && lines@ == sv[k].1);
        assert(groups_view(rest@) =~= before.drop_first());
        assert(sv.skip(out@.len() as int + 1) =~= sv.skip(out@.len() as int).drop_first());
        let lines = sort_lines(lines);
        out.push(FileFindings { path, lines });
    }
    proof {
        assert forall|j: int| 0 <= j < out@.len() implies (#[trigger] report_view(out@)[j]).0 == sv[j].0
            && ascending(report_view(out@)[j].1) && report_view(out@)[j].1.to_multiset() == sv[j].1.to_multiset() by {
            assert(out@[j].path@ == sv[j].0);
        }
        lemma_report(report_view(out@), sv, gv, f);
    }
    out
}

} // verus!
