use capabara::cap_rule::{Pattern, Rule, Rules};
use capabara::capability::{Capability, CapabilitySet};
use capabara::default_rules::default_rules;

#[test]
fn test_default_rules() {
    let rules = default_rules();
    assert_eq!(rules.match_symbol("unknown"), None);
}

fn rule(patterns: Vec<Pattern>, caps: &[Capability]) -> Rule {
    Rule { pattern: patterns, caps: CapabilitySet::from_slice(caps) }
}

#[test]
fn longest_pattern_wins() {
    let rules = Rules {
        rules: vec![
            rule(vec![Pattern::StartsWith("std::".to_owned())], &[Capability::Unknown]),
            rule(vec![Pattern::StartsWith("std::net::".to_owned())], &[Capability::Net]),
        ],
    };
    // A pattern of length 5 and one of length 10 both match.
    assert_eq!(
        rules.match_symbol("std::net::TcpStream"),
        Some(&CapabilitySet::from_slice(&[Capability::Net]))
    );
    assert_eq!(
        rules.match_symbol("std::fs::File"),
        Some(&CapabilitySet::from_slice(&[Capability::Unknown]))
    );
    assert_eq!(rules.match_symbol("core::fmt"), None);
}

#[test]
fn equal_length_first_rule_wins() {
    let rules = Rules {
        rules: vec![
            rule(vec![Pattern::StartsWith("abc".to_owned())], &[Capability::Alloc]),
            rule(vec![Pattern::Exact("abc".to_owned())], &[Capability::Panic]),
        ],
    };
    let first = rules.match_symbol("abc").cloned();
    assert_eq!(first, Some(CapabilitySet::from_slice(&[Capability::Alloc])));
    assert_eq!(rules.match_symbol("abc").cloned(), first);
}

#[test]
fn exact_pattern_needs_whole_symbol() {
    let rules = Rules {
        rules: vec![rule(vec![Pattern::Exact("memcpy".to_owned())], &[])],
    };
    assert_eq!(rules.match_symbol("memcpy"), Some(&CapabilitySet::new()));
    assert_eq!(rules.match_symbol("memcpy2"), None);
    assert_eq!(rules.match_symbol("memcp"), None);
}

#[test]
fn parse_simple_patterns() {
    assert_eq!(Pattern::parse_simple("__foo"), Pattern::Exact("foo".to_owned()));
    assert_eq!(Pattern::parse_simple("std::*"), Pattern::StartsWith("std::".to_owned()));
    assert_eq!(Pattern::parse_simple("_*"), Pattern::StartsWith("".to_owned()));
    assert_eq!(Pattern::parse_simple(""), Pattern::Exact("".to_owned()));
}

#[test]
fn default_rules_lookups() {
    let rules = default_rules();
    assert_eq!(rules.rules.len(), 15);
    assert_eq!(rules.match_symbol("memcpy"), Some(&CapabilitySet::new()));
    assert_eq!(
        rules.match_symbol("rust_alloc"),
        Some(&CapabilitySet::from_slice(&[Capability::Alloc]))
    );
    assert_eq!(
        rules.match_symbol("std::net::TcpStream::connect"),
        Some(&CapabilitySet::from_slice(&[Capability::Panic, Capability::Alloc, Capability::Net]))
    );
    assert_eq!(
        rules.match_symbol("std::thread::local::LocalKey"),
        Some(&CapabilitySet::from_slice(&[Capability::Panic, Capability::Alloc]))
    );
    assert_eq!(
        rules.match_symbol("std::mem::swap"),
        Some(&CapabilitySet::from_slice(&[Capability::Unknown]))
    );
    assert_eq!(rules.match_symbol("serde_json::to_string"), None);
}

#[test]
fn the_length_of_a_pattern_counts_bytes() {
    assert_eq!(Pattern::Exact("abc".to_owned()).len(), 3);
    assert_eq!(Pattern::StartsWith("é::".to_owned()).len(), 4);
    assert_eq!(Pattern::Exact("€\u{1F600}".to_owned()).len(), 7);
    assert_eq!(Pattern::Exact(String::new()).len(), 0);
    // Of two patterns that match, the one of more bytes wins.
    let rules = Rules {
        rules: vec![
            Rule {
                pattern: vec![Pattern::StartsWith("éé".to_owned())],
                caps: CapabilitySet::from_slice(&[Capability::Net]),
            },
            Rule {
                pattern: vec![Pattern::StartsWith("ééx".to_owned())],
                caps: CapabilitySet::from_slice(&[Capability::FS]),
            },
            Rule {
                pattern: vec![Pattern::StartsWith("éé".to_owned())],
                caps: CapabilitySet::from_slice(&[Capability::Time]),
            },
        ],
    };
    assert_eq!(
        rules.match_symbol("ééxy"),
        Some(&CapabilitySet::from_slice(&[Capability::FS]))
    );
    assert_eq!(
        rules.match_symbol("ééy"),
        Some(&CapabilitySet::from_slice(&[Capability::Net]))
    );
}
