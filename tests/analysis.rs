use workspace_unused_pub::collect::collect_declarations;
use workspace_unused_pub::graph::{Document, Occurrence, SymbolGraph, SymbolInformation, SymbolKind};
use workspace_unused_pub::passes::{
    apply_heuristics, corroborate_textually, count_lines_containing, eliminate_referenced, passes_heuristic_filter,
};
use workspace_unused_pub::locate::locate_definitions;
use workspace_unused_pub::pipeline::{find_unused, Report};
use workspace_unused_pub::report::{group_findings, sort_lines};

fn sym(id: &str, name: &str, kind: SymbolKind) -> SymbolInformation {
    SymbolInformation { symbol: id.to_string(), display_name: name.to_string(), kind, file_hint: None }
}

fn def(id: &str, line: u32) -> Occurrence {
    Occurrence { symbol: id.to_string(), symbol_roles: 1, start_line: line }
}

fn use_of(id: &str, line: u32) -> Occurrence {
    Occurrence { symbol: id.to_string(), symbol_roles: 0, start_line: line }
}

fn doc(path: &str, symbols: Vec<SymbolInformation>, occurrences: Vec<Occurrence>) -> Document {
    Document { relative_path: path.to_string(), symbols, occurrences }
}

fn lines(v: &[&str]) -> Vec<String> {
    v.iter().map(|s| s.to_string()).collect()
}

fn summary(r: &Report) -> Vec<(String, Vec<u32>)> {
    r.files.iter().map(|f| (f.path.clone(), f.lines.clone())).collect()
}

#[test]
fn scenario_unused_function_is_reported() {
    let g = SymbolGraph {
        documents: vec![doc("lib.rs", vec![sym("crate/foo().", "foo", SymbolKind::Function)], vec![def("crate/foo().", 9)])],
    };
    let r = find_unused(&g, &lines(&["pub fn foo() {}", "pub fn other() {}"]));
    assert_eq!(summary(&r), vec![("lib.rs".to_string(), vec![9])]);
    assert_eq!(r.total, 1);
}

#[test]
fn scenario_referenced_function_is_not_reported() {
    let g = SymbolGraph {
        documents: vec![
            doc("lib.rs", vec![sym("crate/bar().", "bar", SymbolKind::Function)], vec![def("crate/bar().", 3)]),
            doc("main.rs", vec![], vec![use_of("crate/bar().", 8)]),
        ],
    };
    let r = find_unused(&g, &lines(&["pub fn bar() {}"]));
    assert!(r.files.is_empty());
    assert_eq!(r.total, 0);
}

#[test]
fn scenario_main_is_not_reported() {
    let g = SymbolGraph {
        documents: vec![doc("main.rs", vec![sym("crate/main().", "main", SymbolKind::Function)], vec![def("crate/main().", 0)])],
    };
    let r = find_unused(&g, &lines(&["fn main() {}"]));
    assert_eq!(r.total, 0);
}

#[test]
fn scenario_trait_method_is_not_reported() {
    let g = SymbolGraph {
        documents: vec![doc(
            "lib.rs",
            vec![
                sym("crate/Handler#", "Handler", SymbolKind::Trait),
                sym("crate/impl#[Server][Handler]baz().", "baz", SymbolKind::Method),
            ],
            vec![def("crate/Handler#", 1), def("crate/impl#[Server][Handler]baz().", 5)],
        )],
    };
    let r = find_unused(&g, &lines(&["fn baz(&self) {}"]));
    assert_eq!(r.total, 0);
    assert!(r.files.is_empty());
}

#[test]
fn scenario_no_findings_gives_empty_report() {
    let g = SymbolGraph { documents: vec![] };
    let r = find_unused(&g, &lines(&[]));
    assert!(r.files.is_empty());
    assert_eq!(r.total, 0);
}

#[test]
fn symbol_with_use_and_many_definitions_is_not_reported() {
    let g = SymbolGraph {
        documents: vec![doc(
            "lib.rs",
            vec![sym("crate/twice().", "twice", SymbolKind::Function)],
            vec![def("crate/twice().", 1), def("crate/twice().", 2), use_of("crate/twice().", 3)],
        )],
    };
    assert_eq!(find_unused(&g, &lines(&["twice"])).total, 0);
}

#[test]
fn test_ids_and_test_files_are_excluded() {
    let mut hinted = sym("crate/helper().", "helper", SymbolKind::Function);
    hinted.file_hint = Some("tests/common.rs".to_string());
    let g = SymbolGraph {
        documents: vec![doc(
            "lib.rs",
            vec![sym("crate/tests/check_it().", "check_it", SymbolKind::Function), hinted],
            vec![def("crate/tests/check_it().", 1), def("crate/helper().", 2)],
        )],
    };
    assert_eq!(find_unused(&g, &lines(&[])).total, 0);
}

#[test]
fn name_on_two_lines_is_not_reported() {
    let g = SymbolGraph {
        documents: vec![doc("lib.rs", vec![sym("crate/qux().", "qux", SymbolKind::Function)], vec![def("crate/qux().", 4)])],
    };
    let r = find_unused(&g, &lines(&["fn qux() {}", "<a href=\"{{ qux }}\">"]));
    assert_eq!(r.total, 0);
}

#[test]
fn name_inside_larger_identifier_counts() {
    let g = SymbolGraph {
        documents: vec![doc("lib.rs", vec![sym("crate/run().", "run", SymbolKind::Function)], vec![def("crate/run().", 4)])],
    };
    let r = find_unused(&g, &lines(&["fn run() {}", "fn rerun_all() {}"]));
    assert_eq!(r.total, 0);
}

#[test]
fn name_on_one_line_twice_counts_once() {
    let names = lines(&["foo(foo)", "bar"]);
    assert_eq!(count_lines_containing(&names, &"foo".to_string()), 1);
    assert_eq!(count_lines_containing(&names, &"ba".to_string()), 1);
    assert_eq!(count_lines_containing(&names, &"zzz".to_string()), 0);
}

#[test]
fn findings_are_grouped_and_ordered() {
    let g = SymbolGraph {
        documents: vec![
            doc(
                "src/b.rs",
                vec![sym("b/one().", "one", SymbolKind::Function), sym("b/two().", "two", SymbolKind::Method)],
                vec![def("b/one().", 5), def("b/two().", 2)],
            ),
            doc("src/a.rs", vec![sym("a/three().", "three", SymbolKind::Function)], vec![def("a/three().", 7)]),
            doc("src/c.rs", vec![sym("c/four().", "four", SymbolKind::Function)], vec![def("c/four().", 0)]),
        ],
    };
    let r = find_unused(&g, &lines(&["fn one", "fn two", "fn three", "fn four"]));
    assert_eq!(
        summary(&r),
        vec![
            ("src/a.rs".to_string(), vec![7]),
            ("src/b.rs".to_string(), vec![2, 5]),
            ("src/c.rs".to_string(), vec![0]),
        ]
    );
    assert_eq!(r.total, 4);
}

#[test]
fn two_runs_agree() {
    let make = || SymbolGraph {
        documents: vec![
            doc("z.rs", vec![sym("z/f().", "f1", SymbolKind::Function)], vec![def("z/f().", 3)]),
            doc("y.rs", vec![sym("y/g().", "g1", SymbolKind::Function)], vec![def("y/g().", 1)]),
        ],
    };
    let text = lines(&["fn f1", "fn g1"]);
    let first = find_unused(&make(), &text);
    let second = find_unused(&make(), &text);
    assert_eq!(summary(&first), summary(&second));
    assert_eq!(first.total, second.total);
    assert_eq!(first.total, 2);
}

#[test]
fn later_declaration_of_an_id_wins() {
    let g = SymbolGraph {
        documents: vec![
            doc("a.rs", vec![sym("crate/dup().", "main", SymbolKind::Function)], vec![]),
            doc("b.rs", vec![sym("crate/dup().", "dup", SymbolKind::Function)], vec![def("crate/dup().", 6)]),
        ],
    };
    let (cands, traits) = collect_declarations(&g);
    assert_eq!(cands.len(), 1);
    assert_eq!(cands[0].display_name, "dup");
    assert!(traits.is_empty());
    assert_eq!(find_unused(&g, &lines(&["dup"])).total, 1);
}

#[test]
fn other_kinds_are_not_candidates() {
    let g = SymbolGraph {
        documents: vec![doc(
            "a.rs",
            vec![sym("crate/S#", "S", SymbolKind::Other), sym("crate/T#", "T", SymbolKind::Trait)],
            vec![def("crate/S#", 0), def("crate/T#", 1)],
        )],
    };
    let (cands, traits) = collect_declarations(&g);
    assert!(cands.is_empty());
    assert_eq!(traits, vec!["T".to_string()]);
}

#[test]
fn candidate_without_definition_site_is_not_located() {
    let g = SymbolGraph {
        documents: vec![doc("a.rs", vec![sym("crate/ghost().", "ghost", SymbolKind::Function)], vec![])],
    };
    let r = find_unused(&g, &lines(&["ghost"]));
    assert!(r.files.is_empty());
    assert_eq!(r.total, 0);
}

#[test]
fn only_first_definition_site_is_located() {
    let g = SymbolGraph {
        documents: vec![
            doc("a.rs", vec![sym("crate/x().", "xx", SymbolKind::Function)], vec![def("crate/x().", 4)]),
            doc("b.rs", vec![], vec![def("crate/x().", 9)]),
        ],
    };
    let (cands, _) = collect_declarations(&g);
    let found = locate_definitions(&g, &cands);
    assert_eq!(found, vec![("a.rs".to_string(), 4)]);
}

#[test]
fn each_pass_only_shrinks() {
    let g = SymbolGraph {
        documents: vec![doc(
            "lib.rs",
            vec![
                sym("crate/a().", "alpha", SymbolKind::Function),
                sym("crate/b().", "beta", SymbolKind::Function),
                sym("crate/c().", "main", SymbolKind::Function),
                sym("crate/d().", "delta", SymbolKind::Method),
            ],
            vec![def("crate/a().", 0), use_of("crate/b().", 1), def("crate/c().", 2), def("crate/d().", 3)],
        )],
    };
    let text = lines(&["alpha", "delta", "delta"]);
    let (c0, traits) = collect_declarations(&g);
    let c1 = eliminate_referenced(&g, &c0);
    let c2 = apply_heuristics(&c1, &traits);
    let c3 = corroborate_textually(&c2, &text);
    let ids = |v: &Vec<SymbolInformation>| v.iter().map(|s| s.symbol.clone()).collect::<Vec<_>>();
    assert_eq!(ids(&c0).len(), 4);
    assert_eq!(ids(&c1), vec!["crate/a().", "crate/c().", "crate/d()."]);
    assert_eq!(ids(&c2), vec!["crate/a().", "crate/d()."]);
    assert_eq!(ids(&c3), vec!["crate/a()."]);
}

#[test]
fn substring_search_is_literal() {
    let no_traits: Vec<String> = vec![];
    assert!(!passes_heuristic_filter(&sym("crate/tests/helper().", "helper", SymbolKind::Function), &no_traits));
    assert!(passes_heuristic_filter(&sym("crate/helper().", "helper", SymbolKind::Function), &no_traits));
    assert!(!passes_heuristic_filter(&sym("crate/attest().", "attest", SymbolKind::Function), &no_traits));
    let handler = vec!["Handler".to_string()];
    assert!(!passes_heuristic_filter(&sym("crate/impl#[S][Handler]go().", "go", SymbolKind::Method), &handler));
    assert!(passes_heuristic_filter(&sym("crate/impl#[S][Other]go().", "go", SymbolKind::Method), &handler));
    assert!(passes_heuristic_filter(&sym("crate/mainly().", "mainly", SymbolKind::Function), &no_traits));
    assert_eq!(count_lines_containing(&lines(&["anything", ""]), &"".to_string()), 2);
    assert_eq!(count_lines_containing(&lines(&[""]), &"a".to_string()), 0);
}

#[test]
fn paths_order_by_code_point() {
    let found = vec![
        ("src/b.rs".to_string(), 0),
        ("a.rs".to_string(), 0),
        ("src".to_string(), 0),
        ("Z.rs".to_string(), 0),
        ("src/a.rs".to_string(), 0),
    ];
    let paths: Vec<String> = group_findings(found).into_iter().map(|f| f.path).collect();
    assert_eq!(paths, vec!["Z.rs", "a.rs", "src", "src/a.rs", "src/b.rs"]);
}

#[test]
fn grouping_collects_lines_per_path() {
    let found = vec![
        ("b.rs".to_string(), 9),
        ("a.rs".to_string(), 3),
        ("b.rs".to_string(), 1),
        ("a.rs".to_string(), 3),
    ];
    let files = group_findings(found);
    let got: Vec<(String, Vec<u32>)> = files.iter().map(|f| (f.path.clone(), f.lines.clone())).collect();
    assert_eq!(got, vec![("a.rs".to_string(), vec![3, 3]), ("b.rs".to_string(), vec![1, 9])]);
}

#[test]
fn lines_sort_ascending() {
    assert_eq!(sort_lines(vec![5, 1, 4, 1, 0]), vec![0, 1, 1, 4, 5]);
    assert_eq!(sort_lines(vec![]), Vec::<u32>::new());
    assert_eq!(sort_lines(vec![u32::MAX, 0]), vec![0, u32::MAX]);
}
