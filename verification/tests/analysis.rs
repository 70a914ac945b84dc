use import_usage::aggregate::analyze_outcomes;
use import_usage::aggregate::ParseError;
use import_usage::analyzer::analyze_module;
use import_usage::analyzer::Analyzer;
use import_usage::ast::Ident;
use import_usage::ast::ImportDecl;
use import_usage::ast::ImportSpecifier;
use import_usage::ast::ModuleAst;
use import_usage::ast::Node;
use import_usage::usage::UsageMap;

fn ident(name: &str) -> Ident {
    Ident { sym: name.to_string() }
}

fn named(local: &str) -> ImportSpecifier {
    ImportSpecifier::Named(ident(local))
}

fn default_spec(local: &str) -> ImportSpecifier {
    ImportSpecifier::Default(ident(local))
}

fn namespace(local: &str) -> ImportSpecifier {
    ImportSpecifier::Namespace(ident(local))
}

fn import(specifiers: Vec<ImportSpecifier>) -> Node {
    Node::Import(ImportDecl { specifiers })
}

fn use_of(name: &str) -> Node {
    Node::Ident(ident(name))
}

fn count(map: &UsageMap, name: &str) -> usize {
    map.get(&name.to_string())
}

#[test]
fn empty_imports_yield_empty_mapping() {
    let module = ModuleAst {
        body: vec![use_of("console"), Node::Branch(vec![use_of("window"), use_of("console")])],
    };
    let usage = analyze_module(&module);
    assert!(usage.entries.is_empty());
    assert_eq!(count(&usage, "console"), 0);
    assert_eq!(count(&usage, "window"), 0);
}

#[test]
fn no_nodes_at_all_yield_empty_mapping() {
    let module = ModuleAst { body: vec![] };
    let usage = analyze_module(&module);
    assert!(usage.entries.is_empty());
}

#[test]
fn aliased_import_binds_the_alias_only() {
    // import { a as b } from 'mod'; b(); a();
    let module = ModuleAst { body: vec![import(vec![named("b")]), use_of("b"), use_of("a")] };
    let usage = analyze_module(&module);
    assert_eq!(count(&usage, "b"), 1);
    assert_eq!(count(&usage, "a"), 0);
}

#[test]
fn namespace_import_counts_each_root_occurrence() {
    // import * as ns from 'mod'; ns.foo(); ns.bar();
    let module = ModuleAst {
        body: vec![
            import(vec![namespace("ns")]),
            Node::Branch(vec![use_of("ns")]),
            Node::Branch(vec![use_of("ns")]),
        ],
    };
    let usage = analyze_module(&module);
    assert_eq!(count(&usage, "ns"), 2);
    assert_eq!(count(&usage, "foo"), 0);
}

#[test]
fn default_import_binds_its_local_alias() {
    let module =
        ModuleAst { body: vec![import(vec![default_spec("React")]), use_of("React")] };
    let usage = analyze_module(&module);
    assert_eq!(count(&usage, "React"), 1);
}

#[test]
fn unbound_identifiers_contribute_nothing() {
    let module = ModuleAst {
        body: vec![import(vec![named("z")]), use_of("x"), use_of("y"), use_of("x")],
    };
    let usage = analyze_module(&module);
    assert!(usage.entries.is_empty());
    assert_eq!(count(&usage, "x"), 0);
    assert_eq!(count(&usage, "z"), 0);
}

#[test]
fn nested_import_declarations_still_bind() {
    let module = ModuleAst {
        body: vec![Node::Branch(vec![import(vec![named("lazy")])]), use_of("lazy")],
    };
    let usage = analyze_module(&module);
    assert_eq!(count(&usage, "lazy"), 1);
}

fn file_a() -> ModuleAst {
    // import { useState } from 'react'; useState(); useState();
    ModuleAst {
        body: vec![import(vec![named("useState")]), use_of("useState"), use_of("useState")],
    }
}

fn file_b() -> ModuleAst {
    // import { useEffect } from 'react'; useEffect();
    ModuleAst { body: vec![import(vec![named("useEffect")]), use_of("useEffect")] }
}

#[test]
fn two_file_scenario_counts_and_sorts() {
    let usage_a = analyze_module(&file_a());
    assert_eq!(count(&usage_a, "useState"), 2);
    assert_eq!(usage_a.entries.len(), 1);

    let usage_b = analyze_module(&file_b());
    assert_eq!(count(&usage_b, "useEffect"), 1);
    assert_eq!(usage_b.entries.len(), 1);

    let mut global = UsageMap::new();
    assert!(global.merge_fits(&usage_a));
    global.merge_from(&usage_a);
    assert!(global.merge_fits(&usage_b));
    global.merge_from(&usage_b);
    assert_eq!(count(&global, "useState"), 2);
    assert_eq!(count(&global, "useEffect"), 1);
    assert_eq!(global.entries.len(), 2);

    let report = import_usage::report::into_sorted_entries(global);
    assert_eq!(report.len(), 2);
    assert_eq!(report[0].name, "useState");
    assert_eq!(report[0].count, 2);
    assert_eq!(report[1].name, "useEffect");
    assert_eq!(report[1].count, 1);
}

#[test]
fn shadowing_parameter_is_still_counted() {
    // import { x } from 'm'; function f(x) { return x + 1; }
    // The parameter and the use both spell the import's name, and the
    // analysis keeps no scopes, so both occurrences count.
    let module = ModuleAst {
        body: vec![
            import(vec![named("x")]),
            Node::Branch(vec![use_of("f"), Node::Branch(vec![use_of("x"), use_of("x")])]),
        ],
    };
    let usage = analyze_module(&module);
    assert!(count(&usage, "x") >= 1);
    assert_eq!(count(&usage, "x"), 2);
}

#[test]
fn merge_order_does_not_matter() {
    let mut maps: Vec<UsageMap> = Vec::new();
    maps.push(analyze_module(&file_a()));
    maps.push(analyze_module(&file_b()));
    maps.push(analyze_module(&ModuleAst {
        body: vec![import(vec![named("useState")]), use_of("useState")],
    }));

    let forward = import_usage::aggregate::aggregate(&maps).unwrap();

    let mut reversed: Vec<UsageMap> = Vec::new();
    reversed.push(analyze_module(&ModuleAst {
        body: vec![import(vec![named("useState")]), use_of("useState")],
    }));
    reversed.push(analyze_module(&file_b()));
    reversed.push(analyze_module(&file_a()));
    let backward = import_usage::aggregate::aggregate(&reversed).unwrap();

    assert_eq!(forward.entries.len(), backward.entries.len());
    assert_eq!(count(&forward, "useState"), 3);
    assert_eq!(count(&backward, "useState"), 3);
    assert_eq!(count(&forward, "useEffect"), 1);
    assert_eq!(count(&backward, "useEffect"), 1);
}

#[test]
fn parse_failure_contributes_nothing_and_does_not_abort() {
    let outcomes: Vec<Result<ModuleAst, ParseError>> = vec![
        Ok(file_a()),
        Err(ParseError { message: "unexpected token".to_string() }),
        Ok(file_b()),
    ];
    let global = analyze_outcomes(&outcomes).unwrap();
    assert_eq!(count(&global, "useState"), 2);
    assert_eq!(count(&global, "useEffect"), 1);
    assert_eq!(global.entries.len(), 2);
}

#[test]
fn only_parse_failures_yield_empty_mapping() {
    let outcomes: Vec<Result<ModuleAst, ParseError>> =
        vec![Err(ParseError { message: "bad".to_string() })];
    let global = analyze_outcomes(&outcomes).unwrap();
    assert!(global.entries.is_empty());
}

#[test]
fn overflowing_totals_are_refused() {
    let huge = UsageMap {
        entries: vec![import_usage::usage::Entry { name: "x".to_string(), count: usize::MAX }],
    };
    let one = UsageMap {
        entries: vec![import_usage::usage::Entry { name: "x".to_string(), count: 1 }],
    };
    assert!(!huge.merge_fits(&one));
    assert!(huge.merge_fits(&UsageMap::new()));
    let maps = vec![huge, one];
    assert!(import_usage::aggregate::aggregate(&maps).is_none());
}

#[test]
fn analyzer_passes_mirror_the_walk() {
    let mut analyzer = Analyzer::new();
    analyzer.visit_import_decl(&ImportDecl { specifiers: vec![named("a"), namespace("b")] });
    assert_eq!(analyzer.imports.len(), 2);
    assert_eq!(analyzer.imports[0], "a");
    assert_eq!(analyzer.imports[1], "b");

    analyzer.visit_ident(&ident("a"));
    analyzer.visit_ident(&ident("c"));
    analyzer.visit_ident(&ident("a"));
    assert_eq!(analyzer.usage.get(&"a".to_string()), 2);
    assert_eq!(analyzer.usage.get(&"b".to_string()), 0);
    assert_eq!(analyzer.usage.get(&"c".to_string()), 0);
}

#[test]
fn duplicate_specifiers_count_once_per_occurrence() {
    // import { x } from 'm'; import { x } from 'n'; x();
    let module = ModuleAst {
        body: vec![import(vec![named("x")]), import(vec![named("x")]), use_of("x")],
    };
    let usage = analyze_module(&module);
    assert_eq!(count(&usage, "x"), 1);
}

#[test]
fn sorted_report_is_descending() {
    let mut maps: Vec<UsageMap> = Vec::new();
    maps.push(analyze_module(&ModuleAst {
        body: vec![
            import(vec![named("a"), named("b"), named("c")]),
            use_of("b"),
            use_of("c"),
            use_of("c"),
            use_of("c"),
            use_of("b"),
            use_of("a"),
        ],
    }));
    let global = import_usage::aggregate::aggregate(&maps).unwrap();
    let report = import_usage::report::into_sorted_entries(global);
    assert_eq!(report.len(), 3);
    assert_eq!(report[0].name, "c");
    assert_eq!(report[0].count, 3);
    assert_eq!(report[1].name, "b");
    assert_eq!(report[1].count, 2);
    assert_eq!(report[2].name, "a");
    assert_eq!(report[2].count, 1);
}
