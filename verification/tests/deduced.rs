use capabara::analyzer::{
    filter_capabilities, has_kind, note_known_crate, resolve_unknown_crates, summarize,
    CapsAnalyzer, Finding,
};
use capabara::cap_rule::{Pattern, Rule, Rules};
use capabara::capability::{Capability, CapabilitySet};
use capabara::checker::{
    deduce_caps, deduce_caps_of_binary, deduce_caps_of_source, judge, ArtifactKind, Checker,
    CheckerOutput, Verdict,
};
use capabara::config::{CratePattern, CrateRule, WorkspaceConfig};
use capabara::crate_name::{CrateName, CrateNameError};
use capabara::deduced::{DeducedCapablities, DeducedCaps};
use capabara::default_rules::default_rules;
use capabara::format_reasons::{format_long_list, format_reasons};
use capabara::reason::{Reason, Reasons};
use capabara::reservoir_sample::{reservoir_sample, reservoir_sample_of};
use capabara::rust_path::RustPath;
use capabara::sets::NameMap;
use capabara::src_analysis::{process_path, Import};
use capabara::symbol::{Symbol, SymbolKind, SymbolScope};

fn symbol(name: &str) -> Symbol {
    Symbol::with_metadata(name.to_owned(), SymbolScope::Linkage, SymbolKind::Text)
}

fn caps(list: &[Capability]) -> CapabilitySet {
    CapabilitySet::from_slice(list)
}

fn net_rules() -> Rules {
    Rules {
        rules: vec![Rule {
            pattern: vec![Pattern::StartsWith("std::net".to_owned())],
            caps: caps(&[Capability::Net]),
        }],
    }
}

#[test]
fn rule_miss_attributes_an_external_unit() {
    let deduced = DeducedCapablities::from_symbols(vec![symbol("serde_json::to_string")]);
    assert!(deduced.unknown_symbols.is_empty());
    assert_eq!(deduced.unknown_crates.len(), 1);
    assert_eq!(deduced.unknown_crates.name_at(0), "serde_json");
    assert!(deduced.unknown_crates.get("serde_json").unwrap().contains(&symbol("serde_json::to_string")));
    assert!(deduced.own_caps.is_empty());

    let deduced = DeducedCaps::from_symbols(&default_rules(), vec![symbol("serde_json::to_string")]).unwrap();
    assert!(deduced.caps.is_empty());
    assert_eq!(deduced.unresolved_crates.len(), 1);
    assert!(deduced
        .unresolved_crates
        .get("serde_json")
        .unwrap()
        .contains(&RustPath::new("serde_json::to_string")));
}

#[test]
fn flat_function_without_rule_is_unknown() {
    let deduced = DeducedCapablities::from_symbols(vec![symbol("_mystery")]);
    assert_eq!(deduced.unknown_symbols.len(), 1);
    assert!(deduced.unknown_crates.is_empty());
    assert_eq!(deduced.total_capabilities(), caps(&[Capability::Unknown]));

    let deduced = DeducedCaps::from_symbols(&default_rules(), vec![symbol("_mystery")]).unwrap();
    assert_eq!(deduced.caps.keys(), caps(&[Capability::Unknown]));
    assert_eq!(
        deduced.caps.get(Capability::Unknown).unwrap().items,
        vec![Reason::UnmatchedSymbol(symbol("_mystery"))]
    );
}

#[test]
fn symbols_with_rules_give_capabilities() {
    let symbols = vec![
        symbol("__rust_alloc"),
        symbol("std::net::TcpStream::connect"),
        symbol("_memcpy"),
        symbol("<Foo as std::io::Read>::read"),
        symbol("std::net::TcpStream::connect"),
    ];
    let deduced = DeducedCapablities::from_symbols(symbols.clone());
    assert_eq!(
        deduced.own_caps.keys(),
        caps(&[Capability::Alloc, Capability::Panic, Capability::Net, Capability::Stdio])
    );
    assert_eq!(deduced.own_caps.get(Capability::Net).unwrap().len(), 1);
    assert_eq!(
        deduced.total_capabilities(),
        caps(&[Capability::Alloc, Capability::Panic, Capability::Net, Capability::Stdio])
    );

    let deduced = DeducedCaps::from_symbols(&default_rules(), symbols).unwrap();
    assert_eq!(
        deduced.caps.keys(),
        caps(&[Capability::Alloc, Capability::Panic, Capability::Net, Capability::Stdio])
    );
    assert_eq!(
        deduced.caps.get(Capability::Stdio).unwrap().items,
        vec![Reason::PathMatchedRule(RustPath::new("std::io::Read"))]
    );
    assert_eq!(
        deduced.caps.get(Capability::Alloc).unwrap().items[0],
        Reason::SymbolMatchedRule(symbol("__rust_alloc"))
    );
}

#[test]
fn symbol_order_does_not_change_what_is_deduced() {
    let a = vec![symbol("std::net::a"), symbol("x::y"), symbol("std::fs::b"), symbol("zeta_fn")];
    let mut b = a.clone();
    b.reverse();
    let first = DeducedCaps::from_symbols(&default_rules(), a).unwrap();
    let second = DeducedCaps::from_symbols(&default_rules(), b).unwrap();
    assert_eq!(first.caps.keys(), second.caps.keys());
    for cap in first.caps.keys().to_vec() {
        let mut x: Vec<String> = first.caps.get(cap).unwrap().items.iter().map(|r| r.to_string()).collect();
        let mut y: Vec<String> = second.caps.get(cap).unwrap().items.iter().map(|r| r.to_string()).collect();
        x.sort();
        y.sort();
        assert_eq!(x, y);
    }
    assert_eq!(first.unresolved_crates.len(), second.unresolved_crates.len());
}

#[test]
fn standard_path_without_rule_refers_to_its_crate() {
    // Without a rule a path goes to the crate that it lies in, a standard
    // crate like any other.
    let mut deduced = DeducedCaps::default();
    let none = Rules { rules: vec![] };
    assert_eq!(deduced.add_symbol(&none, &symbol("core::fmt::write")), Ok(()));
    assert!(deduced.caps.is_empty());
    assert_eq!(deduced.unresolved_crates.len(), 1);
    assert_eq!(deduced.unresolved_crates.name_at(0), "core");
    assert_eq!(
        deduced.unresolved_crates.get("core").unwrap().items,
        vec![RustPath::new("core::fmt::write")]
    );

    let rules = net_rules();
    let deduced = DeducedCaps::from_symbols(
        &rules,
        vec![symbol("std::fs::read"), symbol("alloc::vec::Vec"), symbol("std::net::x")],
    )
    .unwrap();
    assert_eq!(deduced.caps.keys(), caps(&[Capability::Net]));
    assert_eq!(deduced.unresolved_crates.name_at(0), "std");
    assert_eq!(deduced.unresolved_crates.name_at(1), "alloc");
    assert_eq!(
        deduced.unresolved_crates.get("std").unwrap().items,
        vec![RustPath::new("std::fs::read")]
    );
}

#[test]
fn path_in_no_crate_is_an_error() {
    let rules = net_rules();
    assert_eq!(
        DeducedCaps::from_paths(&rules, vec![RustPath::new("a b::c")]).err(),
        Some(CrateNameError::InvalidCharacters)
    );
    assert_eq!(
        DeducedCaps::from_paths(&rules, vec![RustPath::new("")]).err(),
        Some(CrateNameError::Empty)
    );
    assert_eq!(
        DeducedCaps::from_paths(&rules, vec![RustPath::new("9x::c")]).err(),
        Some(CrateNameError::StartsWithDigit)
    );
    let ok = DeducedCaps::from_paths(&rules, vec![RustPath::new("my-crate::c"), RustPath::new("std::net::x")]).unwrap();
    assert_eq!(ok.unresolved_crates.name_at(0), "my_crate");
    assert_eq!(ok.caps.keys(), caps(&[Capability::Net]));
}

#[test]
fn catch_all_absorbs() {
    let mut deduced = DeducedCapablities::with_rules(net_rules());
    deduced.add(&symbol("std::net::TcpStream"));
    assert_eq!(deduced.total_capabilities(), caps(&[Capability::Net]));
    note_known_crate(
        &mut deduced.known_crates,
        "dep",
        &caps(&[Capability::FS, Capability::Wildcard]),
    );
    assert_eq!(deduced.total_capabilities(), caps(&[Capability::Wildcard]));
    assert_eq!(
        caps(&[Capability::Alloc, Capability::Unknown]).absorb(),
        caps(&[Capability::Unknown])
    );
    assert_eq!(
        caps(&[Capability::Unknown, Capability::Wildcard, Capability::Net]).absorb(),
        caps(&[Capability::Wildcard])
    );
    assert_eq!(caps(&[Capability::Alloc]).absorb(), caps(&[Capability::Alloc]));
}

#[test]
fn capability_propagation() {
    let rules = net_rules();
    let mut output = CheckerOutput::new();
    let b = CrateName::new("b").unwrap();
    let own_b = deduce_caps_of_binary(&rules, vec![symbol("std::net::TcpStream::connect")]).unwrap();
    let b_caps = deduce_caps(&output, &b, own_b, &vec![]);
    assert_eq!(b_caps.caps.keys(), caps(&[Capability::Net]));
    output.insert(&b, ArtifactKind::Lib, b_caps);

    let a = CrateName::new("a").unwrap();
    let own_a = deduce_caps_of_binary(&rules, vec![symbol("b::client::get"), symbol("a::own"), symbol("c::other")]).unwrap();
    assert!(own_a.caps.is_empty());
    let a_caps = deduce_caps(&output, &a, own_a, &vec![]);
    assert_eq!(a_caps.caps.keys(), caps(&[Capability::Net]));
    assert_eq!(
        a_caps.caps.get(Capability::Net).unwrap().items,
        vec![Reason::Crate(CrateName::new("b").unwrap())]
    );
    // What was not analysed stays unresolved; the crate itself is dropped.
    assert_eq!(a_caps.unresolved_crates.len(), 1);
    assert_eq!(a_caps.unresolved_crates.name_at(0), "c");
}

#[test]
fn declared_dependencies_and_critical_capabilities() {
    let rules = net_rules();
    let mut output = CheckerOutput::new();
    let build_dep = CrateName::new("build_dep").unwrap();
    output.insert(
        &build_dep,
        ArtifactKind::Lib,
        deduce_caps_of_source(&rules, Err("no main".to_owned())).unwrap(),
    );
    let a = CrateName::new("a").unwrap();
    let own = deduce_caps_of_binary(&rules, vec![symbol("std::net::x")]).unwrap();
    let result = deduce_caps(&output, &a, own, &vec![build_dep.clone()]);
    // Unknown is critical: Net is dropped.
    assert_eq!(result.caps.keys(), caps(&[Capability::Unknown]));
    assert_eq!(
        result.caps.get(Capability::Unknown).unwrap().items,
        vec![Reason::Crate(build_dep)]
    );
}

#[test]
fn source_scan_failure_is_never_harmless() {
    let rules = net_rules();
    let failed = deduce_caps_of_source(&rules, Err("unsupported syntax".to_owned())).unwrap();
    assert_eq!(failed.caps.keys(), caps(&[Capability::Unknown]));
    assert_eq!(
        failed.caps.get(Capability::Unknown).unwrap().items,
        vec![Reason::SourceParseError("unsupported syntax".to_owned())]
    );
    let scanned = deduce_caps_of_source(
        &rules,
        Ok(vec![RustPath::new("std::net::TcpStream"), RustPath::new("cc::Build")]),
    )
    .unwrap();
    assert_eq!(scanned.caps.keys(), caps(&[Capability::Net]));
    assert_eq!(scanned.unresolved_crates.name_at(0), "cc");
}

#[test]
fn binary_symbols_are_filtered() {
    let rules = net_rules();
    let local = Symbol::with_metadata("std::net::a".to_owned(), SymbolScope::Compilation, SymbolKind::Text);
    let data = Symbol::with_metadata("std::net::b".to_owned(), SymbolScope::Linkage, SymbolKind::Data);
    let deduced = deduce_caps_of_binary(&rules, vec![local, data]).unwrap();
    assert!(deduced.caps.is_empty());
}

#[test]
fn verdicts() {
    let rules = net_rules();
    let net = deduce_caps_of_binary(&rules, vec![symbol("std::net::x")]).unwrap();
    assert_eq!(judge(&net, &caps(&[]), false), Verdict::Caps(caps(&[Capability::Net])));
    assert_eq!(judge(&net, &caps(&[Capability::Net]), false), Verdict::Passed);
    assert_eq!(judge(&net, &caps(&[Capability::Net]), true), Verdict::Nothing);
    assert_eq!(judge(&net, &caps(&[Capability::Wildcard]), false), Verdict::Passed);
    let unknown = deduce_caps_of_source(&rules, Err("x".to_owned())).unwrap();
    assert_eq!(
        judge(&unknown, &caps(&[Capability::Wildcard]), false),
        Verdict::Critical(caps(&[Capability::Unknown]))
    );
    assert_eq!(
        capabara::checker::filter_capabilities(&net, &caps(&[Capability::Alloc])),
        caps(&[Capability::Net])
    );
}

#[test]
fn add_artifact_stores_and_counts() {
    let checker = Checker {
        rules: net_rules(),
        config: WorkspaceConfig::allow_basics(),
        show_empty: false,
    };
    let mut output = CheckerOutput::new();
    let name = CrateName::new("quiet").unwrap();
    let own = deduce_caps_of_binary(&checker.rules, vec![]).unwrap();
    let (verdict, shown) =
        checker.add_artifact(&mut output, &name, &vec![ArtifactKind::Lib], own, &vec![], true);
    // Running code at build time is critical, whatever the crate is allowed.
    assert_eq!(verdict, Verdict::Critical(caps(&[Capability::BuildRs])));
    assert_eq!(shown.caps.keys(), caps(&[Capability::BuildRs]));
    // The build script is not stored: it is not contagious.
    assert!(output.get("quiet", ArtifactKind::Lib).unwrap().caps.is_empty());
    assert_eq!(output.num_artifacts_passed, 0);

    let own = deduce_caps_of_binary(&checker.rules, vec![]).unwrap();
    let (verdict, _) =
        checker.add_artifact(&mut output, &name, &vec![ArtifactKind::Bin], own, &vec![], false);
    assert_eq!(verdict, Verdict::Passed);
    assert_eq!(output.num_artifacts_passed, 1);
    assert!(output.get("quiet", ArtifactKind::Bin).is_some());
    assert!(output.get("quiet", ArtifactKind::CustomBuild).is_none());
}

#[test]
fn analyzer_filter() {
    assert_eq!(
        filter_capabilities(&caps(&[Capability::Alloc, Capability::Net]), &caps(&[Capability::Alloc])),
        caps(&[Capability::Net])
    );
    assert_eq!(
        filter_capabilities(
            &caps(&[Capability::Alloc, Capability::Unknown]),
            &caps(&[Capability::Unknown])
        ),
        caps(&[Capability::Unknown])
    );
}

#[test]
fn workspace_config() {
    let basics = WorkspaceConfig::allow_basics();
    let name = CrateName::new("anything").unwrap();
    assert_eq!(basics.crate_caps(&name), caps(&[Capability::Alloc, Capability::Panic]));
    let config = WorkspaceConfig {
        rules: vec![
            CrateRule { caps: caps(&[Capability::Net]), crates: vec![CratePattern::parse("reqwest").unwrap()] },
            CrateRule { caps: caps(&[Capability::FS]), crates: vec![CratePattern::parse("*").unwrap()] },
            CrateRule { caps: caps(&[Capability::Time]), crates: vec![] },
        ],
    };
    assert_eq!(
        config.crate_caps(&CrateName::new("reqwest").unwrap()),
        caps(&[Capability::Net, Capability::FS])
    );
    assert_eq!(config.crate_caps(&name), caps(&[Capability::FS]));
    assert!(config.rules[0].matches(&CrateName::new("reqwest").unwrap()));
    assert!(!config.rules[0].matches(&name));
    assert!(!config.rules[2].matches(&name));
    assert_eq!(CratePattern::parse("").err(), Some(CrateNameError::Empty));
    assert_eq!(CratePattern::parse("*"), Ok(CratePattern::Any));
}

#[test]
fn crate_names() {
    assert_eq!(CrateName::new("serde-json").unwrap().as_str(), "serde_json");
    assert_eq!(CrateName::new("_x9").unwrap().as_str(), "_x9");
    let name = CrateName::new("serde-json").unwrap();
    let text: &str = name.as_ref();
    assert_eq!(text, "serde_json");
    assert_eq!(CrateName::new("").err(), Some(CrateNameError::Empty));
    assert_eq!(CrateName::new("a b").err(), Some(CrateNameError::InvalidCharacters));
    assert_eq!(CrateName::new("é").err(), Some(CrateNameError::InvalidCharacters));
    assert_eq!(CrateName::new("9lives").err(), Some(CrateNameError::StartsWithDigit));
    assert_eq!(CrateName::new("9 lives").err(), Some(CrateNameError::InvalidCharacters));
    assert!(CrateName::new("std").unwrap().is_standard_crate());
    assert!(CrateName::new("core").unwrap().is_standard_crate());
    assert!(CrateName::new("alloc").unwrap().is_standard_crate());
    assert!(!CrateName::new("stdx").unwrap().is_standard_crate());
    assert_eq!(CrateNameError::Empty.message(), "Crate name cannot be empty");
}

#[test]
fn capabilities() {
    assert!(Capability::BuildRs.is_critical());
    for cap in [
        Capability::Alloc,
        Capability::Panic,
        Capability::Time,
        Capability::Sysinfo,
        Capability::Stdio,
        Capability::Thread,
        Capability::Net,
        Capability::FS,
    ] {
        assert!(!cap.is_critical());
    }
    assert!(Capability::Unsafe.is_critical());
    assert!(Capability::Command.is_critical());
    assert!(Capability::Unknown.is_critical());
    assert!(Capability::Wildcard.is_critical());
    assert_eq!(Capability::BuildRs.name(), "build.rs");
    assert_eq!(Capability::Wildcard.name(), "*");
    assert_eq!(Capability::Net.emoji(), "🌐");
    let set = caps(&[Capability::Net, Capability::Alloc, Capability::Net]);
    assert_eq!(set.to_vec(), vec![Capability::Alloc, Capability::Net]);
    assert!(set.contains(Capability::Net));
    assert!(!set.contains(Capability::FS));
    let mut other = caps(&[Capability::FS]);
    other.extend(&set);
    assert_eq!(other.to_vec(), vec![Capability::Alloc, Capability::Net, Capability::FS]);
    assert_eq!(other.difference(&set), caps(&[Capability::FS]));
    assert!(caps(&[]).is_empty());
    for i in 0..13 {
        assert_eq!(Capability::from_index(i).index(), i);
    }
}

fn reasons(list: Vec<Reason>) -> Reasons {
    let mut set = Reasons::new();
    for reason in list {
        set.insert(reason);
    }
    set
}

#[test]
fn reasons_in_one_line() {
    assert_eq!(format_reasons(&reasons(vec![])), "");
    assert_eq!(format_reasons(&reasons(vec![Reason::SourceCodeAnalysis])), "source code");
    assert_eq!(
        format_reasons(&reasons(vec![
            Reason::PathMatchedRule(RustPath::new("std::net::a")),
            Reason::Crate(CrateName::new("dep").unwrap()),
            Reason::SourceCodeAnalysis,
        ])),
        "dependencies: dep"
    );
    assert_eq!(
        format_reasons(&reasons(vec![
            Reason::UnmatchedSymbol(symbol("zzz")),
            Reason::PathMatchedRule(RustPath::new("std::net::a")),
            Reason::PathMatchedRule(RustPath::new("std::net::b")),
            Reason::PathMatchedRule(RustPath::new("std::net::a")),
        ])),
        "rule for: std::net::a std::net::b"
    );
    assert_eq!(
        format_reasons(&reasons(vec![Reason::SourceParseError("bad".to_owned())])),
        "source parse error: bad"
    );
    assert_eq!(
        format_reasons(&reasons(vec![Reason::UmatchedStandardPath(RustPath::new("core::x"))])),
        "unknown paths: core::x"
    );
    let many: Vec<Reason> = (0..8).map(|i| Reason::UnmatchedSymbol(symbol(&format!("sym_{i}")))).collect();
    let line = format_reasons(&reasons(many));
    assert!(line.starts_with("unknown symbols: "));
    assert_eq!(line.split(' ').count(), 2 + 5);
}

#[test]
fn long_lists_are_cut() {
    let a = "a".repeat(30);
    let b = "b".repeat(30);
    let c = "c".to_owned();
    let d = "d".to_owned();
    assert_eq!(format_long_list("h", 2, &vec![&c, &d]), "h: c d");
    assert_eq!(
        format_long_list("header", 7, &vec![&a, &b, &c, &d]),
        format!("header: {a} {b} … + 5 more")
    );
    assert_eq!(format_long_list("h", 0, &vec![]), "h:");
    let long_header = "x".repeat(60);
    assert_eq!(
        format_long_list(&long_header, 12, &vec![&c]),
        format!("{long_header}: … + 12 more")
    );
}

#[test]
fn reservoir_samples() {
    let items: Vec<u32> = (0..100).collect();
    let mut rng = rand::rng();
    for n in [0usize, 1, 5, 99, 100, 150] {
        let sample = reservoir_sample(&items, n, &mut rng);
        assert_eq!(sample.len(), n.min(items.len()));
        let mut seen = std::collections::BTreeSet::new();
        for (place, item) in sample.iter().enumerate() {
            assert!(seen.insert(**item));
            assert!(**item as usize == place || **item as usize >= n);
        }
    }
    let few = vec![7, 8, 9];
    assert_eq!(reservoir_sample_of(&few, 5), vec![&7, &8, &9]);
    let mut changed = false;
    for _ in 0..200 {
        if reservoir_sample_of(&items, 5) != vec![&0, &1, &2, &3, &4] {
            changed = true;
        }
    }
    assert!(changed);
}

#[test]
fn imports_resolve_paths() {
    let imports = vec![
        Import { ident: "fs".to_owned(), path: RustPath::new("std::fs") },
        Import { ident: "netty".to_owned(), path: RustPath::new("std::net") },
        Import { ident: "Runtime".to_owned(), path: RustPath::new("tokio::runtime::Runtime") },
    ];
    let resolve = |segments: &[&str]| -> Option<String> {
        let segments: Vec<String> = segments.iter().map(|s| (*s).to_owned()).collect();
        process_path(&imports, &segments).map(|p| p.to_string())
    };
    assert_eq!(resolve(&["fs", "File", "open"]), Some("std::fs::File::open".to_owned()));
    assert_eq!(resolve(&["netty", "TcpServer", "new"]), Some("std::net::TcpServer::new".to_owned()));
    assert_eq!(resolve(&["Runtime", "new"]), Some("tokio::runtime::Runtime::new".to_owned()));
    assert_eq!(resolve(&["Runtime"]), Some("tokio::runtime::Runtime".to_owned()));
    assert_eq!(resolve(&["serde_json", "to_string"]), Some("serde_json::to_string".to_owned()));
    assert_eq!(resolve(&["path"]), None);
    assert_eq!(resolve(&[]), None);
}

#[test]
fn findings_of_the_analyzer() {
    let mut totals: NameMap<CapabilitySet> = NameMap::new();
    note_known_crate(&mut totals, "dep", &caps(&[Capability::Net]));

    let quiet = DeducedCapablities::with_rules(net_rules());
    assert_eq!(summarize(&quiet, &caps(&[]), false), Finding::Skipped);
    assert_eq!(summarize(&quiet, &caps(&[]), true), Finding::Nothing);

    let mut user = DeducedCapablities::with_rules(net_rules());
    user.add(&symbol("dep::get"));
    user.add(&symbol("me::own"));
    user.add(&symbol("other::thing"));
    resolve_unknown_crates(&mut user, "me", &totals);
    assert_eq!(user.unknown_crates.len(), 1);
    assert_eq!(user.unknown_crates.name_at(0), "other");
    assert_eq!(user.known_crates.get("dep"), Some(&caps(&[Capability::Net])));
    // What is left unknown counts as unknown.
    assert_eq!(user.total_capabilities(), caps(&[Capability::Unknown]));
    assert_eq!(
        summarize(&user, &caps(&[]), false),
        Finding::BecauseOfDependencies(caps(&[Capability::Net]))
    );
    assert_eq!(summarize(&user, &caps(&[Capability::Net]), false), Finding::Skipped);

    let mut own = DeducedCapablities::with_rules(net_rules());
    own.add(&symbol("std::net::x"));
    assert_eq!(summarize(&own, &caps(&[]), false), Finding::Caps(caps(&[Capability::Net])));
    own.add(&symbol("other::thing"));
    assert_eq!(summarize(&own, &caps(&[]), false), Finding::UnknownDependencies);
    own.add(&symbol("mystery"));
    assert_eq!(summarize(&own, &caps(&[]), false), Finding::UnknownSymbols(1));
}

#[test]
fn the_analyzer_counts_in_the_libraries_that_came_first() {
    let mut analyzer = CapsAnalyzer::new(caps(&[Capability::Alloc]), false);
    assert_eq!(analyzer.num_skipped_artifacts, 0);
    let dep_name = CrateName::new("dep").unwrap();
    let user_name = CrateName::new("user").unwrap();

    // A build script is skipped, and nothing is kept of it.
    let mut script = DeducedCapablities::with_rules(net_rules());
    script.add(&symbol("std::net::x"));
    let (finding, _) =
        analyzer.add_artifact(&dep_name, &vec![ArtifactKind::CustomBuild], script, true);
    assert_eq!(finding, Finding::Skipped);
    assert!(analyzer.lib_totals.is_empty());

    // A library with a build script: the mark is shown, but not kept.
    let mut dep = DeducedCapablities::with_rules(net_rules());
    dep.add(&symbol("std::net::x"));
    dep.add(&symbol("dep::own"));
    let (finding, shown) = analyzer.add_artifact(&dep_name, &vec![ArtifactKind::Lib], dep, true);
    assert_eq!(finding, Finding::Caps(caps(&[Capability::BuildRs, Capability::Net])));
    assert!(shown.unknown_crates.is_empty());
    assert_eq!(analyzer.lib_totals.get("dep"), Some(&caps(&[Capability::Net])));

    // An executable that uses the library inherits from it, and is not kept.
    let mut user = DeducedCapablities::with_rules(net_rules());
    user.add(&symbol("dep::get"));
    user.add(&symbol("ghost::thing"));
    let (finding, shown) = analyzer.add_artifact(&user_name, &vec![ArtifactKind::Bin], user, false);
    assert_eq!(finding, Finding::BecauseOfDependencies(caps(&[Capability::Net])));
    assert_eq!(shown.known_crates.get("dep"), Some(&caps(&[Capability::Net])));
    assert_eq!(analyzer.lib_totals.len(), 1);
    // A crate that was not analysed stays unresolved, and is no reason for alarm.
    assert_eq!(shown.unknown_crates.len(), 1);
    assert_eq!(shown.unknown_crates.name_at(0), "ghost");

    // Nor does it count for the total that is kept of a library.
    let lib_name = CrateName::new("lib").unwrap();
    let mut lib = DeducedCapablities::with_rules(net_rules());
    lib.add(&symbol("ghost::thing"));
    lib.add(&symbol("dep::get"));
    let (finding, _) = analyzer.add_artifact(&lib_name, &vec![ArtifactKind::Lib], lib, false);
    assert_eq!(finding, Finding::BecauseOfDependencies(caps(&[Capability::Net])));
    assert_eq!(analyzer.lib_totals.get("lib"), Some(&caps(&[Capability::Net])));
    assert_eq!(analyzer.lib_totals.len(), 2);

    // A library that is seen again replaces what was kept.
    let again = DeducedCapablities::with_rules(net_rules());
    let (finding, _) = analyzer.add_artifact(&dep_name, &vec![ArtifactKind::Lib], again, false);
    assert_eq!(finding, Finding::Skipped);
    assert_eq!(analyzer.lib_totals.get("dep"), Some(&caps(&[])));
    assert_eq!(analyzer.lib_totals.len(), 2);

    assert!(has_kind(&vec![ArtifactKind::Bin, ArtifactKind::Lib], ArtifactKind::Lib));
    assert!(!has_kind(&vec![ArtifactKind::Bin], ArtifactKind::Lib));
}

#[test]
fn the_order_of_symbols_is_immaterial_to_the_outcome() {
    let a = vec![
        symbol("std::net::a"),
        symbol("x::y"),
        symbol("mystery"),
        symbol("x::z"),
        symbol("w::v"),
        symbol("std::net::a"),
    ];
    let mut b = a.clone();
    b.reverse();
    let mut first = DeducedCapablities::with_rules(net_rules());
    first.add_all(&a);
    let mut second = DeducedCapablities::with_rules(net_rules());
    second.add_all(&b);

    assert_eq!(first.own_caps.keys(), caps(&[Capability::Net]));
    assert_eq!(first.own_caps.keys(), second.own_caps.keys());
    let names = |d: &DeducedCapablities| -> Vec<String> {
        let mut names: Vec<String> =
            d.unknown_symbols.items.iter().map(|s| s.mangled.clone()).collect();
        names.sort();
        names
    };
    assert_eq!(names(&first), vec!["mystery".to_owned()]);
    assert_eq!(names(&first), names(&second));
    let references = |d: &DeducedCapablities| -> Vec<(String, String)> {
        let mut pairs = Vec::new();
        for (name, symbols) in &d.unknown_crates.entries {
            for symbol in &symbols.items {
                pairs.push((name.clone(), symbol.mangled.clone()));
            }
        }
        pairs.sort();
        pairs
    };
    assert_eq!(
        references(&first),
        vec![
            ("w".to_owned(), "w::v".to_owned()),
            ("x".to_owned(), "x::y".to_owned()),
            ("x".to_owned(), "x::z".to_owned()),
        ]
    );
    assert_eq!(references(&first), references(&second));
    // The lists themselves follow the order of the symbols.
    assert_eq!(first.unknown_crates.name_at(0), "x");
    assert_eq!(second.unknown_crates.name_at(0), "w");
}

#[test]
fn symbols_are_read_or_rejected_whatever_their_order() {
    let rules = net_rules();
    // A path in no crate is rejected wherever it stands; which fault is named
    // first depends on the order.
    let a = vec![symbol("std::net::a"), symbol("9x::c"), symbol("x::y"), symbol("a b::c")];
    let mut b = a.clone();
    b.reverse();
    assert_eq!(
        DeducedCaps::from_symbols(&rules, a).err(),
        Some(CrateNameError::StartsWithDigit)
    );
    assert_eq!(
        DeducedCaps::from_symbols(&rules, b).err(),
        Some(CrateNameError::InvalidCharacters)
    );

    let a = vec![symbol("std::net::a"), symbol("x::y"), symbol("w::v"), symbol("x::z")];
    let mut b = a.clone();
    b.reverse();
    let first = DeducedCaps::from_symbols(&rules, a).unwrap();
    let second = DeducedCaps::from_symbols(&rules, b).unwrap();
    assert_eq!(first.caps.keys(), caps(&[Capability::Net]));
    assert_eq!(first.caps.keys(), second.caps.keys());
    let references = |d: &DeducedCaps| -> Vec<(String, String)> {
        let mut pairs = Vec::new();
        for (name, paths) in &d.unresolved_crates.entries {
            for path in &paths.items {
                pairs.push((name.clone(), path.to_string()));
            }
        }
        pairs.sort();
        pairs
    };
    assert_eq!(
        references(&first),
        vec![
            ("w".to_owned(), "w::v".to_owned()),
            ("x".to_owned(), "x::y".to_owned()),
            ("x".to_owned(), "x::z".to_owned()),
        ]
    );
    assert_eq!(references(&first), references(&second));
}

#[test]
fn a_build_script_is_critical_and_not_contagious() {
    let checker = Checker {
        rules: net_rules(),
        config: WorkspaceConfig::allow_basics(),
        show_empty: false,
    };
    let mut output = CheckerOutput::new();
    let name = CrateName::new("builder").unwrap();
    let own = deduce_caps_of_binary(&checker.rules, vec![symbol("std::net::x")]).unwrap();
    let (verdict, shown) =
        checker.add_artifact(&mut output, &name, &vec![ArtifactKind::Lib], own, &vec![], true);
    // Beside a critical capability the others are not shown.
    assert_eq!(verdict, Verdict::Critical(caps(&[Capability::BuildRs])));
    assert_eq!(shown.caps.keys(), caps(&[Capability::BuildRs]));
    // What is stored for the dependents is what the library itself does.
    assert_eq!(
        output.get("builder", ArtifactKind::Lib).unwrap().caps.keys(),
        caps(&[Capability::Net])
    );
    assert!(caps(&[Capability::BuildRs, Capability::Net]).has_critical());
    assert!(!caps(&[Capability::FS, Capability::Net]).has_critical());
    assert_eq!(
        capabara::checker::critical_members(&caps(&[Capability::BuildRs, Capability::Net])),
        caps(&[Capability::BuildRs])
    );
}

#[test]
fn the_width_of_a_line_counts_bytes() {
    // Twenty times `é` and the colon take 41 bytes, thirty take 61.
    let short_header = "é".repeat(20);
    let long_header = "é".repeat(30);
    let item = "x".to_owned();
    assert_eq!(
        format_long_list(&short_header, 3, &vec![&item]),
        format!("{short_header}: x")
    );
    assert_eq!(
        format_long_list(&long_header, 3, &vec![&item]),
        format!("{long_header}: … + 3 more")
    );
    // 59 bytes are fewer than the width, 60 are not.
    let header = "h".repeat(58);
    assert_eq!(format_long_list(&header, 1, &vec![&item]), format!("{header}: x"));
    let header = "h".repeat(59);
    assert_eq!(format_long_list(&header, 1, &vec![&item]), format!("{header}: … + 1 more"));
}
