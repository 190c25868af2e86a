use capabara::demangle::{
    decode_rust_type, demangle_symbol, demangle_with, parse_length_prefix, try_manual_demangle,
};

#[test]
fn test_parse_length_prefix() {
    assert_eq!(parse_length_prefix("4egui"), Some((4, "egui")));
    assert_eq!(
        parse_length_prefix("27IMMEDIATE_VIEWPORT_RENDERER"),
        Some((27, "IMMEDIATE_VIEWPORT_RENDERER"))
    );
    assert_eq!(parse_length_prefix("123abc"), Some((123, "abc")));
    assert_eq!(parse_length_prefix("abc"), None);
    assert_eq!(parse_length_prefix(""), None);
}

#[test]
fn demangle_test_parse_length_prefix() {
    assert_eq!(parse_length_prefix("4egui"), Some((4, "egui")));
    assert_eq!(
        parse_length_prefix("27IMMEDIATE_VIEWPORT_RENDERER"),
        Some((27, "IMMEDIATE_VIEWPORT_RENDERER"))
    );
    assert_eq!(parse_length_prefix("123abc"), Some((123, "abc")));
    assert_eq!(parse_length_prefix("abc"), None);
    assert_eq!(parse_length_prefix(""), None);
}

#[test]
fn test_try_manual_demangle() {
    assert_eq!(
        try_manual_demangle("__ZN4egui7context"),
        Some("egui::context".to_owned())
    );
    assert_eq!(
        try_manual_demangle("__ZN4test5hello17hef349e8e72b897f3E"),
        Some("test::hello::hef349e8e72b897f3".to_owned())
    );
    assert_eq!(try_manual_demangle("regular_symbol"), None);
    assert_eq!(try_manual_demangle("__Z"), None);
}

#[test]
fn demangle_test_try_manual_demangle() {
    assert_eq!(
        try_manual_demangle("__ZN4egui7context"),
        Some("egui::context".to_owned())
    );
    assert_eq!(
        try_manual_demangle("__ZN4test5hello17hef349e8e72b897f3E"),
        Some("test::hello::hef349e8e72b897f3".to_owned())
    );
    assert_eq!(try_manual_demangle("regular_symbol"), None);
    assert_eq!(try_manual_demangle("__Z"), None);
}

#[test]
fn test_decode_rust_type() {
    assert_eq!(
        decode_rust_type("$u7b$$u7b$constant$u7d$$u7d$"),
        "{{constant}}"
    );
    assert_eq!(decode_rust_type("$u3b$test$u20$space"), ";test space");
    assert_eq!(decode_rust_type("$LT$T$GT$"), "<T>");
    assert_eq!(decode_rust_type("normal_text"), "normal_text");
}

#[test]
fn demangle_test_decode_rust_type() {
    assert_eq!(
        decode_rust_type("$u7b$$u7b$constant$u7d$$u7d$"),
        "{{constant}}"
    );
    assert_eq!(decode_rust_type("$u3b$test$u20$space"), ";test space");
    assert_eq!(decode_rust_type("$LT$T$GT$"), "<T>");
    assert_eq!(decode_rust_type("normal_text"), "normal_text");
}

#[test]
fn test_manual_demangle_egui_symbol() {
    let mangled = "__ZN4egui7context27IMMEDIATE_VIEWPORT_RENDERER29_$u7b$$u7b$constant$u7d$$u7d$28_$u7b$$u7b$closure$u7d$$u7d$3VAL17hef349e8e72b897f3E$tlv$init";
    let demangled = demangle_symbol(mangled);

    // Should extract the namespace components and decode Unicode escapes
    assert!(demangled.contains("egui::context::IMMEDIATE_VIEWPORT_RENDERER"));
    assert!(
        demangled.contains("{{constant}}"),
        "demangled: {demangled:?}"
    );
    assert!(demangled.contains("{{closure}}"));
    assert!(!demangled.contains("$u7b$"));
    assert!(!demangled.contains("$u7d$"));
}

#[test]
fn demangle_test_manual_demangle_egui_symbol() {
    let mangled = "__ZN4egui7context27IMMEDIATE_VIEWPORT_RENDERER29_$u7b$$u7b$constant$u7d$$u7d$28_$u7b$$u7b$closure$u7d$$u7d$3VAL17hef349e8e72b897f3E$tlv$init";
    let demangled = demangle_symbol(mangled);

    assert!(demangled.contains("egui::context::IMMEDIATE_VIEWPORT_RENDERER"));
    assert!(demangled.contains("{{constant}}"));
    assert!(demangled.contains("{{closure}}"));
    assert!(!demangled.contains("$u7b$"));
    assert!(!demangled.contains("$u7d$"));
}

#[test]
fn test_demangle() {
    assert_eq!(
        demangle_symbol(
            "__ZN135_$LT$extern$u20$$u22$C$u22$$u20$fn$LP$$RF$T$C$objc..runtime..Sel$RP$$u20$.$GT$$u20$R$u20$as$u20$objc..declare..MethodImplementation$GT$3imp17h8f6f1e820e818e51E"
        ),
        r#"<extern "C" fn(&T,objc::runtime::Sel) -> R as objc::declare::MethodImplementation>::imp"#
    );
}

#[test]
fn manual_fallback_then_hash_is_stripped() {
    let name = "__ZN4test5hello17hef349e8e72b897f3E";
    assert_eq!(
        try_manual_demangle(name),
        Some("test::hello::hef349e8e72b897f3".to_owned())
    );
    assert_eq!(demangle_with(name, None, None), "test::hello");
}

#[test]
fn escape_decoding_leaves_no_token() {
    let decoded = decode_rust_type("$u7b$$u7b$constant$u7d$$u7d$");
    assert_eq!(decoded, "{{constant}}");
    assert!(!decoded.contains('$'));
}

#[test]
fn decoding_is_deterministic() {
    let name = "_ZN3std2io5stdio6_print17h0123456789abcdefE";
    assert_eq!(demangle_symbol(name), demangle_symbol(name));
    assert_eq!(demangle_symbol(name), "std::io::stdio::_print");
}

#[test]
fn decoders_are_tried_in_order() {
    assert_eq!(
        demangle_with("x", Some("a..b".to_owned()), Some("c".to_owned())),
        "a::b"
    );
    assert_eq!(demangle_with("x", None, Some("__c".to_owned())), "c");
    assert_eq!(demangle_with("__ZN1a1bE", None, None), "a::b");
    assert_eq!(demangle_with("___plain", None, None), "plain");
}

#[test]
fn hash_suffix_needs_sixteen_hex_digits() {
    assert_eq!(demangle_with("std::hash::Hasher", None, None), "std::hash::Hasher");
    assert_eq!(demangle_with("a::h0123456789abcde", None, None), "a::h0123456789abcde");
    assert_eq!(demangle_with("a::h0123456789abcdeg", None, None), "a::h0123456789abcdeg");
    assert_eq!(demangle_with("a::h0123456789ABCDEF", None, None), "a");
}

#[test]
fn escapes_edge_cases() {
    // A `$` that no other follows is dropped.
    assert_eq!(decode_rust_type("a$b"), "ab");
    // Several parts between two dollars.
    assert_eq!(decode_rust_type("$LT,GT$"), "<>");
    assert_eq!(decode_rust_type("$BP$$RF$$LP$$RP$$C$"), "*&(),");
    // An unknown token stays without its dollars.
    assert_eq!(decode_rust_type("x$tlv$init"), "xtlvinit");
    // Not a scalar value, not a number, too large.
    assert_eq!(decode_rust_type("$ud800$"), "ud800");
    assert_eq!(decode_rust_type("$uzz$"), "uzz");
    assert_eq!(decode_rust_type("$u$"), "u");
    assert_eq!(decode_rust_type("$u1ffffffff$"), "u1ffffffff");
    assert_eq!(decode_rust_type("$u+41$"), "A");
    assert_eq!(decode_rust_type("$u000000000041$"), "A");
    assert_eq!(decode_rust_type("$u10FFFF$"), "\u{10FFFF}");
    assert_eq!(decode_rust_type("$u110000$"), "u110000");
    // Second round.
    assert_eq!(decode_rust_type("fn() .> R"), "fn() -> R");
    assert_eq!(decode_rust_type("a..b...c"), "a::b::.c");
}

#[test]
fn length_prefix_edge_cases() {
    assert_eq!(parse_length_prefix("0"), Some((0, "")));
    assert_eq!(parse_length_prefix("007x"), Some((7, "x")));
    assert_eq!(parse_length_prefix("99999999999999999999999999x"), None);
    assert_eq!(try_manual_demangle("__ZN"), None);
    assert_eq!(try_manual_demangle("__ZN9abc"), None);
    assert_eq!(try_manual_demangle("__ZN1a9bc"), Some("a".to_owned()));
    assert_eq!(try_manual_demangle("__ZN1a99999999999999999999999999b"), None);
    assert_eq!(try_manual_demangle("__ZN0"), Some("".to_owned()));
}

#[test]
fn decoders_of_other_crates_are_asked_first() {
    // A C++ name.
    assert_eq!(demangle_symbol("_ZN5space3fooEibc"), "space::foo(int, bool, char)");
    // A name in the newer Rust scheme, which the C++ decoder does not read.
    assert_eq!(demangle_symbol("_RC4f128"), "f128");
    // A name that nobody reads stays, without its leading underscores.
    assert_eq!(demangle_symbol("__not mangled"), "not mangled");
}

#[test]
fn manual_lengths_count_bytes() {
    // `é` takes two bytes: a length of 2 is that one character.
    assert_eq!(try_manual_demangle("__ZN2éa"), Some("é".to_owned()));
    assert_eq!(try_manual_demangle("__ZN3éa"), Some("éa".to_owned()));
    assert_eq!(try_manual_demangle("__ZN2é1a"), Some("é::a".to_owned()));
    // A length that would end inside a character ends the list.
    assert_eq!(try_manual_demangle("__ZN1éa"), None);
    assert_eq!(try_manual_demangle("__ZN1a1é"), Some("a".to_owned()));
    // So does one that asks for more bytes than are left.
    assert_eq!(try_manual_demangle("__ZN3é"), None);
    assert_eq!(try_manual_demangle("__ZN1a4é"), Some("a".to_owned()));
    // Characters of three and of four bytes.
    assert_eq!(try_manual_demangle("__ZN3€1x"), Some("€::x".to_owned()));
    assert_eq!(try_manual_demangle("__ZN4\u{1F600}1x"), Some("\u{1F600}::x".to_owned()));
    assert_eq!(try_manual_demangle("__ZN3\u{1F600}1x"), None);
    // The text behind a length is handed on whole.
    assert_eq!(parse_length_prefix("2éa"), Some((2, "éa")));
    // Through the whole decoder.
    assert_eq!(demangle_symbol("__ZN2éa4test"), "é");
}
