//! The rule table that is used where no other is given.

use vstd::prelude::*;
use crate::cap_rule::{Pattern, PatternView, Rule, RuleView, Rules};
use crate::capability::{Capability, CapabilitySet};

verus! {

/// The patterns that match exactly one of `texts`.
pub open spec fn exact_patterns(texts: Seq<&'static str>) -> Seq<PatternView> {
    texts.map_values(|t: &'static str| PatternView::Exact(t@))
}

/// The patterns that match what starts with one of `texts`.
pub open spec fn prefix_patterns(texts: Seq<&'static str>) -> Seq<PatternView> {
    texts.map_values(|t: &'static str| PatternView::StartsWith(t@))
}

/// The rule that gives `caps` to the symbols that are one of `texts`.
fn exact_rule(texts: Vec<&'static str>, caps: &[Capability]) -> (r: Rule)
    ensures
        r@ == (RuleView { pattern: exact_patterns(texts@), caps: caps@.to_set() }),
{
    let mut pattern: Vec<Pattern> = Vec::new();
    for i in 0..texts.len()
        invariant
            pattern@.map_values(|p: Pattern| p@) == exact_patterns(texts@.take(i as int)),
    {
        let ghost before = pattern@.map_values(|p: Pattern| p@);
        let p = Pattern::Exact(texts[i].to_owned());
        pattern.push(p);
        assert(pattern@.map_values(|p: Pattern| p@) =~= before.push(p@));
        assert(exact_patterns(texts@.take(i + 1)) =~= exact_patterns(texts@.take(i as int)).push(
            PatternView::Exact(texts@[i as int]@),
        ));
    }
    assert(texts@.take(texts@.len() as int) =~= texts@);
    Rule { pattern, caps: CapabilitySet::from_slice(caps) }
}

/// The rule that gives `caps` to the symbols that start with one of `texts`.
fn prefix_rule(texts: Vec<&'static str>, caps: &[Capability]) -> (r: Rule)
    ensures
        r@ == (RuleView { pattern: prefix_patterns(texts@), caps: caps@.to_set() }),
{
    let mut pattern: Vec<Pattern> = Vec::new();
    for i in 0..texts.len()
        invariant
            pattern@.map_values(|p: Pattern| p@) == prefix_patterns(texts@.take(i as int)),
    {
        let ghost before = pattern@.map_values(|p: Pattern| p@);
        let p = Pattern::StartsWith(texts[i].to_owned());
        pattern.push(p);
        assert(pattern@.map_values(|p: Pattern| p@) =~= before.push(p@));
        assert(prefix_patterns(texts@.take(i + 1)) =~= prefix_patterns(texts@.take(i as int)).push(
            PatternView::StartsWith(texts@[i as int]@),
        ));
    }
    assert(texts@.take(texts@.len() as int) =~= texts@);
    Rule { pattern, caps: CapabilitySet::from_slice(caps) }
}

/// The rule that gives `caps` to the symbols that are one of `texts`.
pub open spec fn given_exactly(texts: Seq<&'static str>, caps: Set<Capability>) -> RuleView {
    RuleView { pattern: exact_patterns(texts), caps }
}

/// The rule that gives `caps` to the symbols that start with one of `texts`.
pub open spec fn given_by_prefix(texts: Seq<&'static str>, caps: Set<Capability>) -> RuleView {
    RuleView { pattern: prefix_patterns(texts), caps }
}

/// The default rules: harmless functions, the allocator, panics, then what
/// `std` offers by module, and at last the rest of `std`, of which nothing is
/// known.
pub open spec fn default_table() -> Seq<RuleView> {
    seq![
        given_exactly(
            seq![
                "memcmp",
                "memcpy",
                "memmove",
                "memset",
                "atan2f",
                "bzero",
                "cos",
                "exp10",
                "expf",
                "fmod",
                "fmodf",
                "hypotf",
                "log10",
                "powidf2",
                "sin",
                "sincos_stret",
                "sincosf_stret",
                "umodti3",
                "tlv_bootstrap",
            ],
            Set::empty(),
        ),
        given_by_prefix(
            seq![
                "anon.",
            ],
            Set::empty(),
        ),
        given_exactly(
            seq![
                "rdl_alloc",
                "rdl_alloc_zeroed",
                "rdl_dealloc",
                "rdl_realloc",
                "rg_oom",
                "rust_alloc_error_handler",
                "rust_alloc_zeroed",
                "rust_alloc",
                "rust_dealloc",
                "rust_no_alloc_shim_is_unstable",
                "rust_realloc",
            ],
            set![Capability::Alloc],
        ),
        given_exactly(
            seq![
                "rust_panic",
                "rust_begin_unwind",
                "rust_drop_panic",
                "rust_start_panic",
                "rust_panic_cleanup",
                "rust_foreign_exception",
            ],
            set![Capability::Panic],
        ),
        given_by_prefix(
            seq![
                "core::panicking",
            ],
            set![Capability::Panic],
        ),
        given_by_prefix(
            seq![
                "alloc",
            ],
            set![Capability::Alloc],
        ),
        given_by_prefix(
            seq![
                "std::path::Path::extension",
                "std::process::abort",
                "std::process::exit",
                "std::sys::os_str",
                "std::sys::pal::unix::abort_internal",
                "std::sys::pal::unix::sync",
                "std::sys::random",
                "std::sys::sync",
                "std::sys::thread_local",
                "std::thread::local",
            ],
            set![Capability::Panic, Capability::Alloc],
        ),
        given_by_prefix(
            seq![
                "std::sys::backtrace",
                "std::env",
            ],
            set![Capability::Panic, Capability::Alloc, Capability::Sysinfo],
        ),
        given_by_prefix(
            seq![
                "std::sys::pal::unix::thread::Thread",
                "std::thread",
            ],
            set![Capability::Panic, Capability::Alloc, Capability::Thread],
        ),
        given_by_prefix(
            seq![
                "std::sys::pal::unix::stdio",
                "std::io",
            ],
            set![Capability::Panic, Capability::Alloc, Capability::Stdio],
        ),
        given_by_prefix(
            seq![
                "std::sys::pal::unix::fs",
                "std::fs",
                "std::path",
            ],
            set![Capability::Panic, Capability::Alloc, Capability::FS],
        ),
        given_by_prefix(
            seq![
                "std::net",
            ],
            set![Capability::Panic, Capability::Alloc, Capability::Net],
        ),
        given_by_prefix(
            seq![
                "std::time",
            ],
            set![Capability::Panic, Capability::Alloc, Capability::Time],
        ),
        given_by_prefix(
            seq![
                "std::panic",
                "std::hash",
                "std::collections",
                "std::panicking",
                "std::sync",
            ],
            set![Capability::Panic, Capability::Alloc],
        ),
        given_by_prefix(
            seq![
                "std",
            ],
            set![Capability::Unknown],
        ),
    ]
}

/// The default rule table.
pub fn default_rules() -> (r: Rules)
    ensures
        r@ == default_table(),
{
    let mut rules: Vec<Rule> = Vec::new();

    // Safe functions (no capabilities)
    rules.push(
        exact_rule(
            vec![
                // Simple mem stuff:
                "memcmp",
                "memcpy",
                "memmove",
                "memset",
                // Math:
                "atan2f",
                "bzero",
                "cos",
                "exp10",
                "expf",
                "fmod",
                "fmodf",
                "hypotf",
                "log10",
                "powidf2",
                "sin",
                "sincos_stret",
                "sincosf_stret",
                // Modulus:
                "umodti3",
                // Thread-local variables:
                "tlv_bootstrap",
            ],
            &[],
        ),
    );

    // Functions starting with "anon." are safe
    rules.push(prefix_rule(vec!["anon."], &[]));

    // Allocation functions
    rules.push(
        exact_rule(
            vec![
                "rdl_alloc",
                "rdl_alloc_zeroed",
                "rdl_dealloc",
                "rdl_realloc",
                "rg_oom",
                "rust_alloc_error_handler",
                "rust_alloc_zeroed",
                "rust_alloc",
                "rust_dealloc",
                "rust_no_alloc_shim_is_unstable",
                "rust_realloc",
            ],
            &[Capability::Alloc],
        ),
    );

    // Panic functions
    rules.push(
        exact_rule(
            vec![
                "rust_panic",
                "rust_begin_unwind",
                "rust_drop_panic",
                "rust_start_panic",
                "rust_panic_cleanup",
                "rust_foreign_exception",
            ],
            &[Capability::Panic],
        ),
    );

    // Core panicking
    rules.push(prefix_rule(vec!["core::panicking"], &[Capability::Panic]));

    // Allocation crate
    rules.push(prefix_rule(vec!["alloc"], &[Capability::Alloc]));

    // Std library: paths that need no more than panic and alloc
    rules.push(
        prefix_rule(
            vec![
                "std::path::Path::extension",
                "std::process::abort",
                "std::process::exit",
                "std::sys::os_str",
                "std::sys::pal::unix::abort_internal",
                "std::sys::pal::unix::sync",
                "std::sys::random",
                "std::sys::sync",
                "std::sys::thread_local",
                "std::thread::local",
            ],
            &[Capability::Panic, Capability::Alloc],
        ),
    );

    // Std library: system info
    rules.push(
        prefix_rule(
            vec!["std::sys::backtrace", "std::env"],
            &[Capability::Panic, Capability::Alloc, Capability::Sysinfo],
        ),
    );

    // Std library: threading
    rules.push(
        prefix_rule(
            vec!["std::sys::pal::unix::thread::Thread", "std::thread"],
            &[Capability::Panic, Capability::Alloc, Capability::Thread],
        ),
    );

    // Std library: stdio
    rules.push(
        prefix_rule(
            vec!["std::sys::pal::unix::stdio", "std::io"],
            &[Capability::Panic, Capability::Alloc, Capability::Stdio],
        ),
    );

    // Std library: file operations
    rules.push(
        prefix_rule(
            vec!["std::sys::pal::unix::fs", "std::fs", "std::path"],
            &[Capability::Panic, Capability::Alloc, Capability::FS],
        ),
    );

    // Std library: networking
    rules.push(
        prefix_rule(vec!["std::net"], &[Capability::Panic, Capability::Alloc, Capability::Net]),
    );

    // Std library: time
    rules.push(
        prefix_rule(vec!["std::time"], &[Capability::Panic, Capability::Alloc, Capability::Time]),
    );

    // Std library: modules that need no more than panic and alloc
    rules.push(
        prefix_rule(
            vec![
                "std::panic",
                "std::hash",
                "std::collections",
                "std::panicking",
                "std::sync",
            ],
            &[Capability::Panic, Capability::Alloc],
        ),
    );

    // Std library: of everything else nothing is known
    rules.push(prefix_rule(vec!["std"], &[Capability::Unknown]));

    let r = Rules { rules };
    proof {
        let table = default_table();
        assert(r@.len() == 15);
        assert(r@[0].caps =~= table[0].caps && r@[0].pattern =~= table[0].pattern);
        assert(r@[1].caps =~= table[1].caps && r@[1].pattern =~= table[1].pattern);
        assert(r@[2].caps =~= table[2].caps && r@[2].pattern =~= table[2].pattern);
        assert(r@[3].caps =~= table[3].caps && r@[3].pattern =~= table[3].pattern);
        assert(r@[4].caps =~= table[4].caps && r@[4].pattern =~= table[4].pattern);
        assert(r@[5].caps =~= table[5].caps && r@[5].pattern =~= table[5].pattern);
        assert(r@[6].caps =~= table[6].caps && r@[6].pattern =~= table[6].pattern);
        assert(r@[7].caps =~= table[7].caps && r@[7].pattern =~= table[7].pattern);
        assert(r@[8].caps =~= table[8].caps && r@[8].pattern =~= table[8].pattern);
        assert(r@[9].caps =~= table[9].caps && r@[9].pattern =~= table[9].pattern);
        assert(r@[10].caps =~= table[10].caps && r@[10].pattern =~= table[10].pattern);
        assert(r@[11].caps =~= table[11].caps && r@[11].pattern =~= table[11].pattern);
        assert(r@[12].caps =~= table[12].caps && r@[12].pattern =~= table[12].pattern);
        assert(r@[13].caps =~= table[13].caps && r@[13].pattern =~= table[13].pattern);
        assert(r@[14].caps =~= table[14].caps && r@[14].pattern =~= table[14].pattern);
        assert(r@ =~= table);
    }
    r
}

} // verus!
