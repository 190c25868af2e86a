//! Decoding of raw linker names into readable text.
//!
//! A name is demangled by the first decoder that accepts it: the C++ one, the
//! Rust one, then a manual reading of length-prefixed nested names. The text
//! is then cleaned: escapes are resolved, `..` becomes `::`, a trailing hash
//! and leading underscores are dropped.

use std::fmt::Write;
use vstd::prelude::*;
use vstd::string::StrSliceExecFns;
use crate::rust_path::path_sep;
use crate::text::{
    append_chars, chars_in_bytes, chars_in_bytes_exec, chars_of, digit_value, find, find_exec,
    hex_digit_value, is_digit, is_digit_exec, is_hex_digit, is_hex_digit_exec, join, join_exec,
    leading, lemma_find_from, matches_at, matches_at_exec, piece_views, replace, replace_exec,
    slice_of, split, split_exec, starts_with_exec, string_of, trim_start, trim_start_exec,
};

verus! {

/// Number of leading decimal digits of `s`.
pub open spec fn leading_digits(s: Seq<char>) -> nat
    decreases s.len(),
{
    if s.len() > 0 && is_digit(s[0]) {
        1 + leading_digits(s.drop_first())
    } else {
        0
    }
}

/// The number that the decimal digits `s` spell.
pub open spec fn decimal_value(s: Seq<char>) -> nat
    decreases s.len(),
{
    if s.len() == 0 {
        0
    } else {
        (10 * decimal_value(s.drop_last()) + digit_value(s.last())) as nat
    }
}

/// The number that the hexadecimal digits `s` spell.
pub open spec fn hex_value(s: Seq<char>) -> nat
    decreases s.len(),
{
    if s.len() == 0 {
        0
    } else {
        (16 * hex_value(s.drop_last()) + hex_digit_value(s.last())) as nat
    }
}

/// Every character of `s` is a hexadecimal digit.
pub open spec fn all_hex(s: Seq<char>) -> bool {
    forall|i: int| 0 <= i < s.len() ==> is_hex_digit(#[trigger] s[i])
}

/// The decimal length that `s` starts with, and the text behind it. There is
/// none where `s` starts with no digit or the number exceeds `usize::MAX`.
pub open spec fn length_prefix(s: Seq<char>) -> Option<(nat, Seq<char>)> {
    let d = leading_digits(s);
    if d == 0 || decimal_value(s.take(d as int)) > usize::MAX {
        None
    } else {
        Some((decimal_value(s.take(d as int)), s.skip(d as int)))
    }
}

/// The groups `<length><characters>` that `input` starts with, as long as a
/// digit follows; `None` where a length exceeds `usize::MAX`. A length counts
/// the bytes that the characters of its group take in UTF-8. A group that asks
/// for more bytes than are left, or that would end inside a character, ends
/// the reading.
pub open spec fn manual_groups(input: Seq<char>) -> Option<Seq<Seq<char>>>
    decreases input.len(),
{
    if input.len() == 0 || !is_digit(input[0]) {
        Some(Seq::empty())
    } else {
        match length_prefix(input) {
            None => None,
            Some((n, rest)) => match chars_in_bytes(rest, n) {
                Some(k) if k <= rest.len() < input.len() => match manual_groups(
                    rest.skip(k as int),
                ) {
                    Some(tail) => Some(seq![rest.take(k as int)] + tail),
                    None => None,
                },
                _ => Some(Seq::empty()),
            },
        }
    }
}

/// The manual reading of a nested name: the groups behind `__ZN`, joined by
/// `::`. There is none where the name does not start so or holds no group.
pub open spec fn manual_demangled(name: Seq<char>) -> Option<Seq<char>> {
    if "__ZN"@.is_prefix_of(name) && name.len() >= 4 {
        match manual_groups(name.skip(4)) {
            Some(groups) if groups.len() > 0 => Some(join(groups, path_sep())),
            _ => None,
        }
    } else {
        None
    }
}

/// `digits` without a leading `+`.
pub open spec fn without_plus(digits: Seq<char>) -> Seq<char> {
    if digits.len() > 0 && digits[0] == '+' {
        digits.skip(1)
    } else {
        digits
    }
}

/// The character that `u<digits>` stands for: `digits` is an optional `+` and
/// hexadecimal digits that spell a Unicode scalar value.
pub open spec fn escaped_char(digits: Seq<char>) -> Option<char> {
    let hex = without_plus(digits);
    let n = hex_value(hex);
    if hex.len() > 0 && all_hex(hex) && (n <= 0xD7FF || 0xE000 <= n <= 0x10FFFF) {
        Some(n as char)
    } else {
        None
    }
}

/// What one part between two `$` stands for.
pub open spec fn decoded_part(part: Seq<char>) -> Seq<char> {
    if part.len() > 0 && part[0] == 'u' {
        match escaped_char(part.skip(1)) {
            Some(c) => seq![c],
            None => part,
        }
    } else if part == "BP"@ {
        "*"@
    } else if part == "C"@ {
        ","@
    } else if part == "RF"@ {
        "&"@
    } else if part == "LT"@ {
        "<"@
    } else if part == "GT"@ {
        ">"@
    } else if part == "LP"@ {
        "("@
    } else if part == "RP"@ {
        ")"@
    } else {
        part
    }
}

/// What the first `n` of `parts` stand for, one after the other.
pub open spec fn decoded_parts(parts: Seq<Seq<char>>, n: nat) -> Seq<char>
    decreases n,
{
    if n == 0 || n > parts.len() {
        Seq::empty()
    } else {
        decoded_parts(parts, (n - 1) as nat) + decoded_part(parts[n - 1])
    }
}

/// `s` with each `$...$` replaced by what its comma-separated parts stand
/// for. A `$` that no other follows is dropped.
pub open spec fn decode_escapes(s: Seq<char>) -> Seq<char>
    decreases s.len(),
{
    match find(s, "$"@) {
        Some(a) if 0 <= a < s.len() => {
            let rest = s.skip(a + 1);
            match find(rest, "$"@) {
                Some(b) if 0 <= b < rest.len() => {
                    let parts = split(rest.take(b), ","@);
                    s.take(a) + decoded_parts(parts, parts.len()) + decode_escapes(rest.skip(b + 1))
                },
                _ => s.take(a) + rest,
            }
        },
        _ => s,
    }
}

/// The decoded form of an encoded type: escapes resolved, then ` .> ` turned
/// into ` -> ` and `..` into `::`.
pub open spec fn decoded_type(s: Seq<char>) -> Seq<char> {
    replace(replace(decode_escapes(s), " .> "@, " -> "@), ".."@, path_sep())
}

/// `s` ends with `::h` and sixteen hexadecimal digits.
pub open spec fn has_hash_suffix(s: Seq<char>) -> bool {
    s.len() >= 19 && s.subrange(s.len() - 19, s.len() - 16) == "::h"@ && all_hex(
        s.skip(s.len() - 16),
    )
}

/// `s` without a trailing `::h` and sixteen hexadecimal digits.
pub open spec fn without_hash(s: Seq<char>) -> Seq<char> {
    if has_hash_suffix(s) {
        s.take(s.len() - 19)
    } else {
        s
    }
}

/// The cleaned form of a demangled text.
pub open spec fn cleaned(s: Seq<char>) -> Seq<char> {
    trim_start(without_hash(decoded_type(s)), '_')
}

/// The text that the decoders leave of `name`: what the first of them that
/// accepts the name gives, else the name itself.
pub open spec fn first_decoding(
    name: Seq<char>,
    cpp: Option<Seq<char>>,
    rustc: Option<Seq<char>>,
) -> Seq<char> {
    match cpp {
        Some(d) => d,
        None => match rustc {
            Some(d) => d,
            None => match manual_demangled(name) {
                Some(d) => d,
                None => name,
            },
        },
    }
}

/// The readable text for `name`, given what the C++ and the Rust decoder made
/// of it.
pub open spec fn demangled_with(
    name: Seq<char>,
    cpp: Option<Seq<char>>,
    rustc: Option<Seq<char>>,
) -> Seq<char> {
    cleaned(first_decoding(name, cpp, rustc))
}

/// What `cpp_demangle` makes of a name with its default options: the
/// demangled text, or `None` where it rejects the name.
pub uninterp spec fn cpp_demangled(name: Seq<char>) -> Option<Seq<char>>;

/// What `rustc_demangle` makes of a name: the demangled text in its plain
/// format, or `None` where it rejects the name.
pub uninterp spec fn rustc_demangled(name: Seq<char>) -> Option<Seq<char>>;

/// The readable text for `name`.
pub open spec fn demangled(name: Seq<char>) -> Seq<char> {
    demangled_with(name, cpp_demangled(name), rustc_demangled(name))
}

/// The text behind an optional string.
pub open spec fn text_view(s: Option<String>) -> Option<Seq<char>> {
    match s {
        Some(s) => Some(s@),
        None => None,
    }
}

/// Parses `name` with `cpp_demangle::Symbol::new` and renders the symbol with
/// its `demangle`, both with default options. The result is a function of the
/// name alone; it is `None` where either step fails.
#[verifier::external_body]
fn cpp_demangle_name(name: &str) -> (r: Option<String>)
    ensures
        text_view(r) == cpp_demangled(name@),
{
    match cpp_demangle::Symbol::new(name) {
        Ok(symbol) => match symbol.demangle() {
            Ok(text) => Some(text),
            Err(_) => None,
        },
        Err(_) => None,
    }
}

/// Demangles `name` with `rustc_demangle::try_demangle` and writes the result
/// in its plain format. The result is a function of the name alone; it is
/// `None` where the name is rejected or cannot be written.
#[verifier::external_body]
fn rustc_demangle_name(name: &str) -> (r: Option<String>)
    ensures
        text_view(r) == rustc_demangled(name@),
{
    match rustc_demangle::try_demangle(name) {
        Ok(demangled) => {
            let mut text = String::new();
            match write!(text, "{}", demangled) {
                Ok(()) => Some(text),
                Err(_) => None,
            }
        },
        Err(_) => None,
    }
}

/// `char::from_u32` gives the character with the scalar value `n`, or `None`
/// where `n` is a surrogate or lies above `0x10FFFF`.
#[verifier::external_body]
fn char_from_u32(n: u32) -> (r: Option<char>)
    ensures
        r == if n <= 0xD7FF || 0xE000 <= n <= 0x10FFFF {
            Some(n as char)
        } else {
            None::<char>
        },
{
    char::from_u32(n)
}

/// Dropping the first character drops one leading digit.
proof fn lemma_leading_digits_step(s: Seq<char>, n: nat)
    requires
        n <= s.len(),
        forall|i: int| 0 <= i < n ==> is_digit(#[trigger] s[i]),
    ensures
        leading_digits(s) == n + leading_digits(s.skip(n as int)),
    decreases n,
{
    if n == 0 {
        assert(s.skip(0) =~= s);
    } else {
        lemma_leading_digits_step(s.drop_first(), (n - 1) as nat);
        assert(s.drop_first().skip(n - 1) =~= s.skip(n as int));
    }
}

/// A longer run of decimal digits spells no smaller a number.
proof fn lemma_decimal_monotone(s: Seq<char>, i: int, j: int)
    requires
        0 <= i <= j <= s.len(),
        forall|k: int| 0 <= k < s.len() ==> is_digit(#[trigger] s[k]),
    ensures
        decimal_value(s.take(i)) <= decimal_value(s.take(j)),
    decreases j - i,
{
    if i < j {
        lemma_decimal_monotone(s, i, j - 1);
        assert(s.take(j).drop_last() =~= s.take(j - 1));
    }
}

/// A longer run of hexadecimal digits spells no smaller a number.
proof fn lemma_hex_monotone(s: Seq<char>, i: int, j: int)
    requires
        0 <= i <= j <= s.len(),
        all_hex(s),
    ensures
        hex_value(s.take(i)) <= hex_value(s.take(j)),
    decreases j - i,
{
    if i < j {
        lemma_hex_monotone(s, i, j - 1);
        assert(s.take(j).drop_last() =~= s.take(j - 1));
        assert(is_hex_digit(s[j - 1]));
    }
}

/// The number of leading decimal digits of `s`.
fn leading_digits_exec(s: &Vec<char>) -> (n: usize)
    ensures
        n == leading_digits(s@),
        n <= s.len(),
        forall|i: int| 0 <= i < n ==> is_digit(#[trigger] s@[i]),
{
    let mut n: usize = 0;
    while n < s.len() && is_digit_exec(s[n])
        invariant
            n <= s.len(),
            forall|i: int| 0 <= i < n ==> is_digit(#[trigger] s@[i]),
        decreases s.len() - n,
    {
        n += 1;
    }
    proof {
        lemma_leading_digits_step(s@, n as nat);
        let rest = s@.skip(n as int);
        if n < s.len() {
            assert(rest[0] == s@[n as int]);
        }
    }
    n
}

/// The value of the decimal digit `c`.
fn digit_of(c: char) -> (d: usize)
    requires
        is_digit(c),
    ensures
        d == digit_value(c),
        d <= 9,
{
    (c as u32 - '0' as u32) as usize
}

/// The value of the hexadecimal digit `c`.
fn hex_digit_of(c: char) -> (d: u32)
    requires
        is_hex_digit(c),
    ensures
        d == hex_digit_value(c),
        d <= 15,
{
    if '0' <= c && c <= '9' {
        c as u32 - '0' as u32
    } else if 'a' <= c && c <= 'f' {
        c as u32 - 'a' as u32 + 10
    } else {
        c as u32 - 'A' as u32 + 10
    }
}

/// The number that the decimal digits `s[..n]` spell, if it fits.
fn decimal_exec(s: &Vec<char>, n: usize) -> (r: Option<usize>)
    requires
        n <= s.len(),
        forall|i: int| 0 <= i < n ==> is_digit(#[trigger] s@[i]),
    ensures
        match r {
            Some(v) => v == decimal_value(s@.take(n as int)),
            None => decimal_value(s@.take(n as int)) > usize::MAX,
        },
{
    let mut value: usize = 0;
    let mut i: usize = 0;
    while i < n
        invariant
            i <= n <= s.len(),
            forall|k: int| 0 <= k < n ==> is_digit(#[trigger] s@[k]),
            value == decimal_value(s@.take(i as int)),
        decreases n - i,
    {
        let d = digit_of(s[i]);
        proof {
            assert(s@.take(i + 1).drop_last() =~= s@.take(i as int));
            assert(s@.take(i + 1).last() == s@[i as int]);
        }
        if value > (usize::MAX - d) / 10 {
            proof {
                let digits = s@.take(n as int);
                assert forall|k: int| 0 <= k < digits.len() implies is_digit(
                    #[trigger] digits[k],
                ) by {
                    assert(digits[k] == s@[k]);
                }
                lemma_decimal_monotone(digits, i + 1, n as int);
                assert(digits.take(i + 1) =~= s@.take(i + 1));
                assert(digits.take(n as int) =~= digits);
            }
            return None;
        }
        value = value * 10 + d;
        i += 1;
    }
    Some(value)
}

/// Parses a decimal length from the start of `input`.
pub fn parse_length_prefix<'a>(input: &'a str) -> (r: Option<(usize, &'a str)>)
    ensures
        match r {
            Some((n, rest)) => length_prefix(input@) == Some((n as nat, rest@)),
            None => length_prefix(input@) is None,
        },
{
    let chars = chars_of(input);
    let d = leading_digits_exec(&chars);
    if d == 0 {
        return None;
    }
    match decimal_exec(&chars, d) {
        Some(n) => {
            let rest = input.substring_char(d, chars.len());
            assert(rest@ =~= input@.skip(d as int));
            Some((n, rest))
        },
        None => None,
    }
}

/// The groups `<length><characters>` that `input[from..]` starts with.
fn manual_groups_exec(input: &Vec<char>, from: usize) -> (r: Option<Vec<Vec<char>>>)
    requires
        from <= input.len(),
    ensures
        match r {
            Some(groups) => manual_groups(input@.skip(from as int)) == Some(piece_views(groups@)),
            None => manual_groups(input@.skip(from as int)) is None,
        },
{
    let mut groups: Vec<Vec<char>> = Vec::new();
    let mut at: usize = from;
    proof {
        assert(Seq::<Seq<char>>::empty() + piece_views(groups@) =~= piece_views(groups@));
    }
    loop
        invariant
            from <= at <= input.len(),
            match manual_groups(input@.skip(at as int)) {
                Some(tail) => manual_groups(input@.skip(from as int)) == Some(
                    piece_views(groups@) + tail,
                ),
                None => manual_groups(input@.skip(from as int)) is None,
            },
        decreases input.len() - at,
    {
        let ghost rest_all = input@.skip(at as int);
        if at == input.len() || !is_digit_exec(input[at]) {
            proof {
                if at < input.len() {
                    assert(rest_all[0] == input@[at as int]);
                }
                assert(piece_views(groups@) + Seq::<Seq<char>>::empty() =~= piece_views(groups@));
            }
            return Some(groups);
        }
        assert(rest_all[0] == input@[at as int]);
        let tail = slice_of(input, at, input.len());
        assert(tail@ =~= rest_all);
        let d = leading_digits_exec(&tail);
        assert(d >= 1);
        match decimal_exec(&tail, d) {
            None => {
                return None;
            },
            Some(n) => {
                assert(tail@.skip(d as int).len() < tail@.len());
                match chars_in_bytes_exec(&tail, d, n) {
                    None => {
                        proof {
                            assert(piece_views(groups@) + Seq::<Seq<char>>::empty()
                                =~= piece_views(groups@));
                        }
                        return Some(groups);
                    },
                    Some(k) => {
                        let group = slice_of(&tail, d, d + k);
                        proof {
                            let rest = tail@.skip(d as int);
                            assert(rest.take(k as int) =~= group@);
                            assert(rest.skip(k as int) =~= input@.skip(at + d + k));
                            let done = piece_views(groups@);
                            match manual_groups(input@.skip(at + d + k)) {
                                Some(t) => {
                                    assert(done + (seq![group@] + t) =~= (done + seq![group@]) + t);
                                },
                                None => {},
                            }
                            assert(piece_views(groups@.push(group)) =~= done + seq![group@]);
                        }
                        groups.push(group);
                        at = at + d + k;
                    },
                }
            },
        }
    }
}

/// Reads a nested name by hand: `__ZN` and groups `<length><characters>`,
/// which are joined by `::`. A length counts bytes.
pub fn try_manual_demangle(name: &str) -> (r: Option<String>)
    ensures
        text_view(r) == manual_demangled(name@),
{
    let chars = chars_of(name);
    let marker = chars_of("__ZN");
    if !(starts_with_exec(&chars, &marker) && chars.len() >= 4) {
        return None;
    }
    match manual_groups_exec(&chars, 4) {
        Some(groups) => {
            if groups.len() == 0 {
                None
            } else {
                let sep = chars_of("::");
                let joined = join_exec(&groups, &sep);
                Some(string_of(&joined))
            }
        },
        None => None,
    }
}

/// Whether `a` spells the text `b`.
fn spells(a: &Vec<char>, b: &str) -> (r: bool)
    ensures
        r == (a@ == b@),
{
    let other = chars_of(b);
    crate::text::chars_eq(a, &other)
}

/// The character that `u<digits>` stands for, where `digits` is `part[1..]`.
fn escaped_char_exec(part: &Vec<char>) -> (r: Option<char>)
    requires
        part.len() >= 1,
    ensures
        r == escaped_char(part@.skip(1)),
{
    let ghost digits = part@.skip(1);
    let from: usize = if part.len() > 1 && part[1] == '+' {
        2
    } else {
        1
    };
    let ghost hex = part@.skip(from as int);
    proof {
        if part.len() > 1 {
            assert(digits[0] == part@[1]);
        }
        if from == 2 {
            assert(digits.skip(1) =~= hex);
        }
        assert(hex == without_plus(digits));
    }
    if from == part.len() {
        return None;
    }
    let mut value: u32 = 0;
    let mut i: usize = from;
    while i < part.len()
        invariant
            from <= i <= part.len(),
            hex == part@.skip(from as int),
            hex == without_plus(part@.skip(1)),
            hex.len() > 0,
            forall|k: int| 0 <= k < i - from ==> is_hex_digit(#[trigger] hex[k]),
            value == hex_value(hex.take(i - from)),
        decreases part.len() - i,
    {
        let c = part[i];
        assert(hex[i - from] == c);
        if !is_hex_digit_exec(c) {
            assert(!is_hex_digit(hex[i - from]));
            assert(!all_hex(hex));
            return None;
        }
        let d = hex_digit_of(c);
        proof {
            assert(hex.take(i + 1 - from).drop_last() =~= hex.take(i - from));
            assert(hex.take(i + 1 - from).last() == c);
            assert(hex_value(hex.take(i + 1 - from)) == 16 * value + d);
        }
        if value > (u32::MAX - d) / 16 {
            proof {
                assert(16 * value + d > u32::MAX);
                if all_hex(hex) {
                    lemma_hex_monotone(hex, i + 1 - from, hex.len() as int);
                    assert(hex.take(hex.len() as int) =~= hex);
                    assert(hex_value(hex) > 0x10FFFF);
                }
            }
            return None;
        }
        value = value * 16 + d;
        i += 1;
    }
    assert(hex.take(hex.len() as int) =~= hex);
    char_from_u32(value)
}

/// What one part between two `$` stands for.
fn decoded_part_exec(part: &Vec<char>) -> (r: Vec<char>)
    ensures
        r@ == decoded_part(part@),
{
    if part.len() > 0 && part[0] == 'u' {
        match escaped_char_exec(part) {
            Some(c) => {
                let mut r: Vec<char> = Vec::new();
                r.push(c);
                assert(r@ =~= seq![c]);
                r
            },
            None => part.clone(),
        }
    } else if spells(part, "BP") {
        chars_of("*")
    } else if spells(part, "C") {
        chars_of(",")
    } else if spells(part, "RF") {
        chars_of("&")
    } else if spells(part, "LT") {
        chars_of("<")
    } else if spells(part, "GT") {
        chars_of(">")
    } else if spells(part, "LP") {
        chars_of("(")
    } else if spells(part, "RP") {
        chars_of(")")
    } else {
        part.clone()
    }
}

/// `s` with each `$...$` replaced by what its parts stand for.
fn decode_escapes_exec(s: &Vec<char>) -> (out: Vec<char>)
    ensures
        out@ == decode_escapes(s@),
{
    let dollar = chars_of("$");
    let comma = chars_of(",");
    proof {
        reveal_strlit("$");
        reveal_strlit(",");
    }
    let mut out: Vec<char> = Vec::new();
    let mut at: usize = 0;
    proof {
        assert(s@.skip(0) =~= s@);
        assert(out@ + decode_escapes(s@) =~= decode_escapes(s@));
    }
    loop
        invariant
            at <= s.len(),
            dollar@ == "$"@,
            comma@ == ","@,
            dollar@.len() == 1,
            comma@.len() == 1,
            out@ + decode_escapes(s@.skip(at as int)) == decode_escapes(s@),
        decreases s.len() - at,
    {
        let ghost done = out@;
        let tail = slice_of(s, at, s.len());
        assert(tail@ =~= s@.skip(at as int));
        proof {
            lemma_find_from(tail@, dollar@, 0);
        }
        match find_exec(&tail, &dollar) {
            None => {
                append_chars(&mut out, &tail);
                return out;
            },
            Some(a) => {
                let before = slice_of(&tail, 0, a);
                assert(before@ =~= tail@.take(a as int));
                let rest = slice_of(&tail, a + 1, tail.len());
                assert(rest@ =~= tail@.skip(a + 1));
                append_chars(&mut out, &before);
                proof {
                    lemma_find_from(rest@, dollar@, 0);
                }
                match find_exec(&rest, &dollar) {
                    None => {
                        append_chars(&mut out, &rest);
                        assert(out@ =~= done + (before@ + rest@));
                        return out;
                    },
                    Some(b) => {
                        let contents = slice_of(&rest, 0, b);
                        assert(contents@ =~= rest@.take(b as int));
                        let parts = split_exec(&contents, &comma);
                        let ghost views = piece_views(parts@);
                        let ghost mid = out@;
                        let mut k: usize = 0;
                        assert(out@ =~= mid + decoded_parts(views, 0));
                        while k < parts.len()
                            invariant
                                k <= parts.len(),
                                views == piece_views(parts@),
                                out@ == mid + decoded_parts(views, k as nat),
                            decreases parts.len() - k,
                        {
                            let piece = decoded_part_exec(&parts[k]);
                            let ghost so_far = out@;
                            append_chars(&mut out, &piece);
                            proof {
                                assert(views[k as int] == parts@[k as int]@);
                                assert(out@ =~= mid + decoded_parts(views, (k + 1) as nat));
                            }
                            k += 1;
                        }
                        proof {
                            assert(rest@.skip(b + 1) =~= s@.skip(at + a + 1 + b + 1));
                            let next = decode_escapes(rest@.skip(b + 1));
                            assert(done + (before@ + decoded_parts(views, views.len()) + next)
                                =~= out@ + next);
                        }
                        at = at + a + 1 + b + 1;
                    },
                }
            },
        }
    }
}

/// The decoded form of the characters of an encoded type.
pub fn decode_type_chars(encoded: &Vec<char>) -> (out: Vec<char>)
    ensures
        out@ == decoded_type(encoded@),
{
    let escaped = decode_escapes_exec(encoded);
    let dotted_arrow = chars_of(" .> ");
    let arrow = chars_of(" -> ");
    let dots = chars_of("..");
    let sep = chars_of("::");
    proof {
        reveal_strlit(" .> ");
        reveal_strlit("..");
    }
    let with_arrows = replace_exec(&escaped, &dotted_arrow, &arrow);
    replace_exec(&with_arrows, &dots, &sep)
}

/// Decodes an encoded type: resolves each `$...$`, then turns ` .> ` into
/// ` -> ` and `..` into `::`.
pub fn decode_rust_type(encoded: &str) -> (r: String)
    ensures
        r@ == decoded_type(encoded@),
{
    let chars = chars_of(encoded);
    let out = decode_type_chars(&chars);
    string_of(&out)
}

/// Whether `s` ends with `::h` and sixteen hexadecimal digits.
fn has_hash_suffix_exec(s: &Vec<char>) -> (r: bool)
    ensures
        r == has_hash_suffix(s@),
{
    if s.len() < 19 {
        return false;
    }
    let marker = chars_of("::h");
    proof {
        reveal_strlit("::h");
        assert(marker@.len() == 3);
    }
    let start: usize = s.len() - 19;
    if !matches_at_exec(s, &marker, start) {
        return false;
    }
    let ghost digits = s@.skip(s.len() - 16);
    let mut i: usize = 0;
    while i < 16
        invariant
            i <= 16,
            s.len() >= 19,
            digits == s@.skip(s.len() - 16),
            forall|k: int| 0 <= k < i ==> is_hex_digit(#[trigger] digits[k]),
        decreases 16 - i,
    {
        let c = s[s.len() - 16 + i];
        assert(digits[i as int] == c);
        if !is_hex_digit_exec(c) {
            return false;
        }
        i += 1;
    }
    true
}

/// The cleaned form of a demangled text.
pub fn clean_chars(text: &Vec<char>) -> (out: Vec<char>)
    ensures
        out@ == cleaned(text@),
{
    let decoded = decode_type_chars(text);
    let kept = if has_hash_suffix_exec(&decoded) {
        let k = slice_of(&decoded, 0, decoded.len() - 19);
        assert(k@ =~= decoded@.take(decoded@.len() - 19));
        k
    } else {
        decoded
    };
    trim_start_exec(&kept, '_')
}

/// The readable text for `name`, given what the C++ decoder (`cpp`) and the
/// Rust decoder (`rustc`) made of it: the first decoding at hand is cleaned,
/// the manual reading and the name itself coming last.
pub fn demangle_with(name: &str, cpp: Option<String>, rustc: Option<String>) -> (r: String)
    ensures
        r@ == demangled_with(name@, text_view(cpp), text_view(rustc)),
{
    let text = match cpp {
        Some(d) => d,
        None => match rustc {
            Some(d) => d,
            None => match try_manual_demangle(name) {
                Some(d) => d,
                None => name.to_owned(),
            },
        },
    };
    let chars = chars_of(text.as_str());
    let out = clean_chars(&chars);
    string_of(&out)
}

/// The readable text for a raw linker name.
pub fn demangle_symbol(name: &str) -> (r: String)
    ensures
        r@ == demangled(name@),
{
    let cpp = cpp_demangle_name(name);
    let rustc = if cpp.is_none() {
        rustc_demangle_name(name)
    } else {
        None
    };
    demangle_with(name, cpp, rustc)
}

/// Decoding is a function of the name: whatever two runs of the decoder make
/// of one name is the same text.
pub proof fn lemma_decoding_is_deterministic(name: Seq<char>, first: Seq<char>, second: Seq<char>)
    requires
        first == demangled(name),
        second == demangled(name),
    ensures
        first == second,
{
}

/// Whether `part` is an escape: one of the tokens `BP`, `C`, `RF`, `LT`,
/// `GT`, `LP` and `RP`, or `u` and the hexadecimal digits of a character
/// other than `$`.
pub open spec fn is_escape(part: Seq<char>) -> bool {
    if part.len() > 0 && part[0] == 'u' {
        escaped_char(part.skip(1)) is Some && escaped_char(part.skip(1)) != Some('$')
    } else {
        part == "BP"@ || part == "C"@ || part == "RF"@ || part == "LT"@ || part == "GT"@ || part
            == "LP"@ || part == "RP"@
    }
}

/// Whether every `$` of `s` belongs to an escape sequence: a `$`, an escape
/// or several with commas between them, and a `$`.
pub open spec fn well_escaped(s: Seq<char>) -> bool
    decreases s.len(),
{
    match find(s, "$"@) {
        Some(a) if 0 <= a < s.len() => {
            let rest = s.skip(a + 1);
            match find(rest, "$"@) {
                Some(b) if 0 <= b < rest.len() => {
                    let parts = split(rest.take(b), ","@);
                    (forall|i: int| 0 <= i < parts.len() ==> is_escape(#[trigger] parts[i]))
                        && well_escaped(rest.skip(b + 1))
                },
                _ => false,
            }
        },
        _ => true,
    }
}

/// What an escape stands for holds no `$`.
proof fn lemma_escape_decoded(part: Seq<char>)
    requires
        is_escape(part),
    ensures
        !decoded_part(part).contains('$'),
{
    reveal_strlit("*");
    reveal_strlit(",");
    reveal_strlit("&");
    reveal_strlit("<");
    reveal_strlit(">");
    reveal_strlit("(");
    reveal_strlit(")");
    let d = decoded_part(part);
    assert(d.len() == 1 && d[0] != '$');
    if d.contains('$') {
        let i = choose|i: int| 0 <= i < d.len() && d[i] == '$';
        assert(i == 0);
    }
}

/// What escapes stand for, one after the other, holds no `$`.
proof fn lemma_escapes_decoded(parts: Seq<Seq<char>>, n: nat)
    requires
        n <= parts.len(),
        forall|i: int| 0 <= i < parts.len() ==> is_escape(#[trigger] parts[i]),
    ensures
        !decoded_parts(parts, n).contains('$'),
    decreases n,
{
    if n > 0 {
        lemma_escapes_decoded(parts, (n - 1) as nat);
        lemma_escape_decoded(parts[n - 1]);
        lemma_joined_lacks(decoded_parts(parts, (n - 1) as nat), decoded_part(parts[n - 1]), '$');
    } else {
        let d = decoded_parts(parts, n);
        assert(d.len() == 0);
    }
}

/// Two texts that lack a character lack it when joined.
proof fn lemma_joined_lacks(a: Seq<char>, b: Seq<char>, c: char)
    requires
        !a.contains(c),
        !b.contains(c),
    ensures
        !(a + b).contains(c),
{
    let ab = a + b;
    if ab.contains(c) {
        let i = choose|i: int| 0 <= i < ab.len() && ab[i] == c;
        if i < a.len() {
            assert(a[i] == c);
        } else {
            assert(b[i - a.len()] == c);
        }
    }
}

/// A part of a text that lacks a character lacks it too.
proof fn lemma_part_lacks(s: Seq<char>, from: int, to: int, c: char)
    requires
        0 <= from <= to <= s.len(),
        !s.contains(c),
    ensures
        !s.subrange(from, to).contains(c),
{
    let p = s.subrange(from, to);
    if p.contains(c) {
        let i = choose|i: int| 0 <= i < p.len() && p[i] == c;
        assert(s[from + i] == c);
    }
}

/// Replacing brings in no character that neither the text nor the
/// replacement holds.
proof fn lemma_replaced_lacks(s: Seq<char>, from: Seq<char>, to: Seq<char>, c: char)
    requires
        !s.contains(c),
        !to.contains(c),
    ensures
        !replace(s, from, to).contains(c),
    decreases s.len(),
{
    match find(s, from) {
        Some(i) if from.len() > 0 && 0 <= i <= s.len() - from.len() => {
            let rest = s.skip(i + from.len());
            assert(s.take(i) == s.subrange(0, i));
            assert(rest == s.subrange(i + from.len(), s.len() as int));
            lemma_part_lacks(s, 0, i, c);
            lemma_part_lacks(s, i + from.len(), s.len() as int, c);
            lemma_replaced_lacks(rest, from, to, c);
            lemma_joined_lacks(s.take(i), to, c);
            lemma_joined_lacks(s.take(i) + to, replace(rest, from, to), c);
        },
        _ => {},
    }
}

/// No `$` is left of a text whose every `$` belongs to an escape sequence:
/// each sequence gives way to what it stands for, and the text between the
/// sequences stays as it is.
pub proof fn lemma_no_dollar_remains(s: Seq<char>)
    requires
        well_escaped(s),
    ensures
        !decode_escapes(s).contains('$'),
        !decoded_type(s).contains('$'),
    decreases s.len(),
{
    reveal_strlit("$");
    reveal_strlit(" -> ");
    reveal_strlit("::");
    lemma_find_from(s, "$"@, 0);
    match find(s, "$"@) {
        Some(a) if 0 <= a < s.len() => {
            let rest = s.skip(a + 1);
            lemma_find_from(rest, "$"@, 0);
            let b = find(rest, "$"@)->Some_0;
            let parts = split(rest.take(b), ","@);
            let head = s.take(a);
            if head.contains('$') {
                let i = choose|i: int| 0 <= i < head.len() && head[i] == '$';
                assert(s.subrange(i, i + 1) =~= "$"@);
                assert(matches_at(s, "$"@, i));
            }
            lemma_escapes_decoded(parts, parts.len());
            lemma_no_dollar_remains(rest.skip(b + 1));
            lemma_joined_lacks(head, decoded_parts(parts, parts.len()), '$');
            lemma_joined_lacks(
                head + decoded_parts(parts, parts.len()),
                decode_escapes(rest.skip(b + 1)),
                '$',
            );
        },
        _ => {
            if s.contains('$') {
                let i = choose|i: int| 0 <= i < s.len() && s[i] == '$';
                assert(s.subrange(i, i + 1) =~= "$"@);
                assert(matches_at(s, "$"@, i));
            }
        },
    }
    let plain = decode_escapes(s);
    assert(!" -> "@.contains('$')) by {
        if " -> "@.contains('$') {
            let i = choose|i: int| 0 <= i < " -> "@.len() && " -> "@[i] == '$';
        }
    }
    assert(!path_sep().contains('$')) by {
        crate::rust_path::lemma_path_sep();
        if path_sep().contains('$') {
            let i = choose|i: int| 0 <= i < path_sep().len() && path_sep()[i] == '$';
        }
    }
    lemma_replaced_lacks(plain, " .> "@, " -> "@, '$');
    lemma_replaced_lacks(replace(plain, " .> "@, " -> "@), ".."@, path_sep(), '$');
}

} // verus!
