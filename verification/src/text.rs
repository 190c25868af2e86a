//! Character-level helpers shared by the symbol decoder and the path parser.
//!
//! Every string is modelled by its sequence of characters. The executable
//! helpers work on `Vec<char>` and are specified by the spec functions of the
//! same name.

use vstd::prelude::*;

verus! {

/// `pat` occurs in `s` at index `i`.
pub open spec fn matches_at(s: Seq<char>, pat: Seq<char>, i: int) -> bool {
    0 <= i && i + pat.len() <= s.len() && s.subrange(i, i + pat.len()) == pat
}

/// Index of the first occurrence of `pat` in `s` at or after `from`.
pub open spec fn find_from(s: Seq<char>, pat: Seq<char>, from: int) -> Option<int>
    decreases s.len() - from,
{
    if from < 0 || from + pat.len() > s.len() {
        None
    } else if matches_at(s, pat, from) {
        Some(from)
    } else if from >= s.len() {
        None
    } else {
        find_from(s, pat, from + 1)
    }
}

/// Index of the first occurrence of `pat` in `s`.
pub open spec fn find(s: Seq<char>, pat: Seq<char>) -> Option<int> {
    find_from(s, pat, 0)
}

/// Index of the last occurrence of `pat` in `s` that starts before `hi`.
pub open spec fn rfind_below(s: Seq<char>, pat: Seq<char>, hi: int) -> Option<int>
    decreases hi,
{
    if hi <= 0 {
        None
    } else if matches_at(s, pat, hi - 1) {
        Some(hi - 1)
    } else {
        rfind_below(s, pat, hi - 1)
    }
}

/// Index of the last occurrence of `pat` in `s`.
pub open spec fn rfind(s: Seq<char>, pat: Seq<char>) -> Option<int> {
    rfind_below(s, pat, s.len() as int + 1)
}

/// `s` contains `pat` somewhere.
pub open spec fn contains(s: Seq<char>, pat: Seq<char>) -> bool {
    find(s, pat) is Some
}

/// `s` ends with `pat`.
pub open spec fn ends_with(s: Seq<char>, pat: Seq<char>) -> bool {
    pat.len() <= s.len() && s.subrange(s.len() - pat.len(), s.len() as int) == pat
}

/// Number of leading characters of `s` equal to `c`.
pub open spec fn leading(s: Seq<char>, c: char) -> nat
    decreases s.len(),
{
    if s.len() > 0 && s[0] == c {
        1 + leading(s.drop_first(), c)
    } else {
        0
    }
}

/// `s` without its leading run of `c`.
pub open spec fn trim_start(s: Seq<char>, c: char) -> Seq<char> {
    s.skip(leading(s, c) as int)
}

/// The pieces of `s` between the non-overlapping occurrences of `sep`, taken
/// from left to right. `sep` is expected to be non-empty.
pub open spec fn split(s: Seq<char>, sep: Seq<char>) -> Seq<Seq<char>>
    decreases s.len(),
{
    match find(s, sep) {
        Some(i) if sep.len() > 0 && 0 <= i <= s.len() - sep.len() => seq![s.take(i)] + split(s.skip(i + sep.len()), sep),
        _ => seq![s],
    }
}

/// The concatenation of `parts` with `sep` between neighbours.
pub open spec fn join(parts: Seq<Seq<char>>, sep: Seq<char>) -> Seq<char>
    decreases parts.len(),
{
    if parts.len() == 0 {
        Seq::empty()
    } else if parts.len() == 1 {
        parts[0]
    } else {
        join(parts.drop_last(), sep) + sep + parts.last()
    }
}

/// `s` with every non-overlapping occurrence of `from`, taken from left to
/// right, replaced by `to`. `from` is expected to be non-empty.
pub open spec fn replace(s: Seq<char>, from: Seq<char>, to: Seq<char>) -> Seq<char>
    decreases s.len(),
{
    match find(s, from) {
        Some(i) if from.len() > 0 && 0 <= i <= s.len() - from.len() => s.take(i) + to + replace(s.skip(i + from.len()), from, to),
        _ => s,
    }
}

/// A match found by `find_from` lies in range, is a match, and is the first.
pub proof fn lemma_find_from(s: Seq<char>, pat: Seq<char>, from: int)
    requires
        0 <= from,
    ensures
        match find_from(s, pat, from) {
            Some(i) => from <= i && matches_at(s, pat, i) && forall|j: int|
                from <= j < i ==> !matches_at(s, pat, j),
            None => forall|j: int| from <= j ==> !matches_at(s, pat, j),
        },
    decreases s.len() - from,
{
    if from + pat.len() > s.len() {
    } else if matches_at(s, pat, from) {
    } else if from >= s.len() {
    } else {
        lemma_find_from(s, pat, from + 1);
    }
}

/// A match found by `rfind_below` lies in range, is a match, and is the last.
pub proof fn lemma_rfind_below(s: Seq<char>, pat: Seq<char>, hi: int)
    ensures
        match rfind_below(s, pat, hi) {
            Some(i) => 0 <= i < hi && matches_at(s, pat, i) && forall|j: int|
                i < j < hi ==> !matches_at(s, pat, j),
            None => forall|j: int| j < hi ==> !matches_at(s, pat, j),
        },
    decreases hi,
{
    if hi <= 0 {
    } else if matches_at(s, pat, hi - 1) {
    } else {
        lemma_rfind_below(s, pat, hi - 1);
    }
}

/// The characters of `s`, in order.
pub fn chars_of(s: &str) -> (out: Vec<char>)
    ensures
        out@ == s@,
{
    let mut out: Vec<char> = Vec::new();
    for c in it: s.chars()
        invariant
            out@ == it.seq().take(it.index()),
            it.seq() == s@,
    {
        out.push(c);
    }
    out
}

/// `String::push` appends one character.
#[verifier::external_body]
fn push_char(s: &mut String, c: char)
    ensures
        final(s)@ == old(s)@.push(c),
{
    s.push(c);
}

/// The string made of `chars`.
pub fn string_of(chars: &Vec<char>) -> (out: String)
    ensures
        out@ == chars@,
{
    let mut out = String::new();
    let mut i: usize = 0;
    while i < chars.len()
        invariant
            i <= chars.len(),
            out@ == chars@.take(i as int),
        decreases chars.len() - i,
    {
        push_char(&mut out, chars[i]);
        i += 1;
    }
    out
}

/// A copy of `s[a..b]`.
pub fn slice_of(s: &Vec<char>, a: usize, b: usize) -> (out: Vec<char>)
    requires
        a <= b <= s.len(),
    ensures
        out@ == s@.subrange(a as int, b as int),
{
    let mut out: Vec<char> = Vec::new();
    let mut i: usize = a;
    while i < b
        invariant
            a <= i <= b <= s.len(),
            out@ == s@.subrange(a as int, i as int),
        decreases b - i,
    {
        out.push(s[i]);
        i += 1;
    }
    out
}

/// Appends `tail` to `out`.
pub fn append_chars(out: &mut Vec<char>, tail: &Vec<char>)
    ensures
        final(out)@ == old(out)@ + tail@,
{
    let mut i: usize = 0;
    while i < tail.len()
        invariant
            i <= tail.len(),
            out@ == old(out)@ + tail@.take(i as int),
        decreases tail.len() - i,
    {
        out.push(tail[i]);
        i += 1;
    }
}

/// Whether `pat` occurs in `s` at index `i`.
pub fn matches_at_exec(s: &Vec<char>, pat: &Vec<char>, i: usize) -> (r: bool)
    ensures
        r == matches_at(s@, pat@, i as int),
{
    if i > s.len() || pat.len() > s.len() - i {
        return false;
    }
    let mut k: usize = 0;
    while k < pat.len()
        invariant
            k <= pat.len(),
            i + pat.len() <= s.len(),
            forall|j: int| 0 <= j < k ==> s@[i + j] == pat@[j],
        decreases pat.len() - k,
    {
        if s[i + k] != pat[k] {
            assert(s@.subrange(i as int, i + pat.len())[k as int] != pat@[k as int]);
            return false;
        }
        k += 1;
    }
    assert(s@.subrange(i as int, i + pat.len()) =~= pat@);
    true
}

/// Whether `s` starts with `pat`.
pub fn starts_with_exec(s: &Vec<char>, pat: &Vec<char>) -> (r: bool)
    ensures
        r == pat@.is_prefix_of(s@),
{
    matches_at_exec(s, pat, 0)
}

/// Whether `s` ends with `pat`.
pub fn ends_with_exec(s: &Vec<char>, pat: &Vec<char>) -> (r: bool)
    ensures
        r == ends_with(s@, pat@),
{
    if pat.len() > s.len() {
        return false;
    }
    matches_at_exec(s, pat, s.len() - pat.len())
}

/// First occurrence of `pat` in `s` at or after `from`.
pub fn find_from_exec(s: &Vec<char>, pat: &Vec<char>, from: usize) -> (r: Option<usize>)
    ensures
        match r {
            Some(i) => find_from(s@, pat@, from as int) == Some(i as int),
            None => find_from(s@, pat@, from as int) is None,
        },
{
    if from > s.len() || pat.len() > s.len() - from {
        return None;
    }
    let last: usize = s.len() - pat.len();
    let mut i: usize = from;
    loop
        invariant
            from <= i <= last,
            last == s.len() - pat.len(),
            find_from(s@, pat@, from as int) == find_from(s@, pat@, i as int),
        decreases last - i,
    {
        if matches_at_exec(s, pat, i) {
            return Some(i);
        }
        if i == last {
            assert(find_from(s@, pat@, i + 1) is None);
            return None;
        }
        i += 1;
    }
}

/// First occurrence of `pat` in `s`.
pub fn find_exec(s: &Vec<char>, pat: &Vec<char>) -> (r: Option<usize>)
    ensures
        match r {
            Some(i) => find(s@, pat@) == Some(i as int),
            None => find(s@, pat@) is None,
        },
{
    find_from_exec(s, pat, 0)
}

/// Last occurrence of `pat` in `s`.
pub fn rfind_exec(s: &Vec<char>, pat: &Vec<char>) -> (r: Option<usize>)
    ensures
        match r {
            Some(i) => rfind(s@, pat@) == Some(i as int),
            None => rfind(s@, pat@) is None,
        },
{
    let mut hi: usize = s.len();
    if matches_at_exec(s, pat, hi) {
        return Some(hi);
    }
    while hi > 0
        invariant
            hi <= s.len(),
            rfind(s@, pat@) == rfind_below(s@, pat@, hi as int),
        decreases hi,
    {
        hi -= 1;
        if matches_at_exec(s, pat, hi) {
            return Some(hi);
        }
    }
    None
}

/// Number of leading characters of `s` equal to `c`.
pub fn leading_exec(s: &Vec<char>, c: char) -> (n: usize)
    ensures
        n == leading(s@, c),
        n <= s.len(),
{
    let mut n: usize = 0;
    assert(s@.skip(0) =~= s@);
    while n < s.len() && s[n] == c
        invariant
            n <= s.len(),
            leading(s@, c) == n + leading(s@.skip(n as int), c),
        decreases s.len() - n,
    {
        proof {
            let rest = s@.skip(n as int);
            assert(rest[0] == s@[n as int]);
            assert(rest.drop_first() =~= s@.skip(n + 1));
        }
        n += 1;
    }
    proof {
        let rest = s@.skip(n as int);
        if n < s.len() {
            assert(rest[0] == s@[n as int]);
        }
    }
    n
}

/// `s` without its leading run of `c`.
pub fn trim_start_exec(s: &Vec<char>, c: char) -> (out: Vec<char>)
    ensures
        out@ == trim_start(s@, c),
{
    let n = leading_exec(s, c);
    let out = slice_of(s, n, s.len());
    assert(s@.subrange(n as int, s@.len() as int) =~= s@.skip(n as int));
    out
}

/// Searching from `from` is searching from the start of the suffix at `from`.
pub proof fn lemma_find_shift(s: Seq<char>, pat: Seq<char>, from: int)
    requires
        0 <= from <= s.len(),
    ensures
        find_from(s, pat, from) == match find(s.skip(from), pat) {
            Some(i) => Some(i + from),
            None => None,
        },
{
    lemma_find_shift_at(s, pat, from, 0);
}

/// The step of `lemma_find_shift`: the same holds from any offset `k`.
pub proof fn lemma_find_shift_at(s: Seq<char>, pat: Seq<char>, from: int, k: int)
    requires
        0 <= from <= s.len(),
        0 <= k,
    ensures
        find_from(s, pat, from + k) == match find_from(s.skip(from), pat, k) {
            Some(i) => Some(i + from),
            None => None,
        },
    decreases s.len() - from - k,
{
    let t = s.skip(from);
    if from + k + pat.len() > s.len() {
    } else {
        assert(t.subrange(k, k + pat.len()) =~= s.subrange(from + k, from + k + pat.len()));
        if matches_at(s, pat, from + k) {
        } else if from + k >= s.len() {
        } else {
            lemma_find_shift_at(s, pat, from, k + 1);
        }
    }
}

/// The views of a list of character vectors.
pub open spec fn piece_views(pieces: Seq<Vec<char>>) -> Seq<Seq<char>> {
    pieces.map_values(|p: Vec<char>| p@)
}

/// The pieces of `s` between the occurrences of `sep`.
pub fn split_exec(s: &Vec<char>, sep: &Vec<char>) -> (out: Vec<Vec<char>>)
    requires
        sep.len() > 0,
    ensures
        piece_views(out@) == split(s@, sep@),
{
    let mut out: Vec<Vec<char>> = Vec::new();
    let mut start: usize = 0;
    proof {
        assert(s@.skip(0) =~= s@);
        assert(piece_views(out@) + split(s@, sep@) =~= split(s@, sep@));
    }
    loop
        invariant
            start <= s.len(),
            sep.len() > 0,
            piece_views(out@) + split(s@.skip(start as int), sep@) == split(s@, sep@),
        decreases s.len() - start,
    {
        let ghost done = piece_views(out@);
        let ghost rest = s@.skip(start as int);
        proof {
            lemma_find_from(s@, sep@, start as int);
            lemma_find_shift(s@, sep@, start as int);
        }
        match find_from_exec(s, sep, start) {
            Some(i) => {
                let piece = slice_of(s, start, i);
                proof {
                    assert(rest.take(i - start) =~= piece@);
                    assert(rest.skip(i - start + sep@.len()) =~= s@.skip(i + sep@.len()));
                }
                out.push(piece);
                assert(piece_views(out@) =~= done + seq![piece@]);
                start = i + sep.len();
            },
            None => {
                let piece = slice_of(s, start, s.len());
                assert(rest =~= piece@);
                out.push(piece);
                assert(piece_views(out@) =~= done + seq![piece@]);
                return out;
            },
        }
    }
}

/// `s` with every occurrence of `from` replaced by `to`.
pub fn replace_exec(s: &Vec<char>, from: &Vec<char>, to: &Vec<char>) -> (out: Vec<char>)
    requires
        from.len() > 0,
    ensures
        out@ == replace(s@, from@, to@),
{
    let mut out: Vec<char> = Vec::new();
    let mut start: usize = 0;
    proof {
        assert(s@.skip(0) =~= s@);
        assert(out@ + replace(s@, from@, to@) =~= replace(s@, from@, to@));
    }
    loop
        invariant
            start <= s.len(),
            from.len() > 0,
            out@ + replace(s@.skip(start as int), from@, to@) == replace(s@, from@, to@),
        decreases s.len() - start,
    {
        let ghost done = out@;
        let ghost rest = s@.skip(start as int);
        proof {
            lemma_find_from(s@, from@, start as int);
            lemma_find_shift(s@, from@, start as int);
        }
        match find_from_exec(s, from, start) {
            Some(i) => {
                let piece = slice_of(s, start, i);
                proof {
                    assert(rest.take(i - start) =~= piece@);
                    assert(rest.skip(i - start + from@.len()) =~= s@.skip(i + from@.len()));
                }
                append_chars(&mut out, &piece);
                append_chars(&mut out, to);
                assert(out@ =~= done + (piece@ + to@));
                assert(done + (piece@ + to@ + replace(s@.skip(i + from@.len()), from@, to@)) =~= out@
                    + replace(s@.skip(i + from@.len()), from@, to@));
                start = i + from.len();
            },
            None => {
                let piece = slice_of(s, start, s.len());
                assert(rest =~= piece@);
                append_chars(&mut out, &piece);
                return out;
            },
        }
    }
}

/// The concatenation of `parts` with `sep` between neighbours.
pub fn join_exec(parts: &Vec<Vec<char>>, sep: &Vec<char>) -> (out: Vec<char>)
    ensures
        out@ == join(piece_views(parts@), sep@),
{
    let mut out: Vec<char> = Vec::new();
    let mut i: usize = 0;
    while i < parts.len()
        invariant
            i <= parts.len(),
            out@ == join(piece_views(parts@).take(i as int), sep@),
        decreases parts.len() - i,
    {
        proof {
            let upto = piece_views(parts@).take(i + 1);
            assert(upto.drop_last() =~= piece_views(parts@).take(i as int));
            assert(upto.last() == parts@[i as int]@);
        }
        if i > 0 {
            append_chars(&mut out, sep);
        }
        append_chars(&mut out, &parts[i]);
        i += 1;
    }
    assert(piece_views(parts@).take(parts.len() as int) =~= piece_views(parts@));
    out
}

/// Whether `c` is one of `0` to `9`.
pub open spec fn is_digit(c: char) -> bool {
    '0' <= c <= '9'
}

/// The value of the decimal digit `c`.
pub open spec fn digit_value(c: char) -> int {
    c as int - '0' as int
}

/// Whether `c` is a hexadecimal digit.
pub open spec fn is_hex_digit(c: char) -> bool {
    is_digit(c) || 'a' <= c <= 'f' || 'A' <= c <= 'F'
}

/// The value of the hexadecimal digit `c`.
pub open spec fn hex_digit_value(c: char) -> int {
    if is_digit(c) {
        c as int - '0' as int
    } else if 'a' <= c <= 'f' {
        c as int - 'a' as int + 10
    } else {
        c as int - 'A' as int + 10
    }
}

/// Whether `c` is an ASCII letter or digit.
pub open spec fn is_alphanumeric(c: char) -> bool {
    is_digit(c) || 'a' <= c <= 'z' || 'A' <= c <= 'Z'
}

/// Whether `c` is one of `0` to `9`.
pub fn is_digit_exec(c: char) -> (r: bool)
    ensures
        r == is_digit(c),
{
    '0' <= c && c <= '9'
}

/// Whether `c` is a hexadecimal digit.
pub fn is_hex_digit_exec(c: char) -> (r: bool)
    ensures
        r == is_hex_digit(c),
{
    ('0' <= c && c <= '9') || ('a' <= c && c <= 'f') || ('A' <= c && c <= 'F')
}

/// Whether `c` is an ASCII letter or digit.
pub fn is_alphanumeric_exec(c: char) -> (r: bool)
    ensures
        r == is_alphanumeric(c),
{
    ('0' <= c && c <= '9') || ('a' <= c && c <= 'z') || ('A' <= c && c <= 'Z')
}

/// Whether `a` and `b` hold the same characters.
pub fn chars_eq(a: &Vec<char>, b: &Vec<char>) -> (r: bool)
    ensures
        r == (a@ == b@),
{
    let r = a.len() == b.len() && matches_at_exec(a, b, 0);
    proof {
        if a.len() == b.len() {
            assert(a@.subrange(0, 0 + b@.len() as int) =~= a@);
        }
    }
    r
}

/// Whether `a` and `b` are the same text.
pub fn str_eq(a: &str, b: &str) -> (r: bool)
    ensures
        r == (a@ == b@),
{
    let x = chars_of(a);
    let y = chars_of(b);
    chars_eq(&x, &y)
}

/// The character for a digit.
pub open spec fn digit_char(d: int) -> char {
    if d == 0 {
        '0'
    } else if d == 1 {
        '1'
    } else if d == 2 {
        '2'
    } else if d == 3 {
        '3'
    } else if d == 4 {
        '4'
    } else if d == 5 {
        '5'
    } else if d == 6 {
        '6'
    } else if d == 7 {
        '7'
    } else if d == 8 {
        '8'
    } else {
        '9'
    }
}

/// The decimal notation of a number.
pub open spec fn decimal_text(n: nat) -> Seq<char>
    decreases n,
{
    if n < 10 {
        seq![digit_char(n as int)]
    } else {
        decimal_text(n / 10).push(digit_char((n % 10) as int))
    }
}

/// The character for a digit.
pub fn digit_char_exec(d: usize) -> (c: char)
    requires
        d < 10,
    ensures
        c == digit_char(d as int),
{
    if d == 0 {
        '0'
    } else if d == 1 {
        '1'
    } else if d == 2 {
        '2'
    } else if d == 3 {
        '3'
    } else if d == 4 {
        '4'
    } else if d == 5 {
        '5'
    } else if d == 6 {
        '6'
    } else if d == 7 {
        '7'
    } else if d == 8 {
        '8'
    } else {
        '9'
    }
}

/// The decimal notation of a number.
pub fn decimal_chars(n: usize) -> (out: Vec<char>)
    ensures
        out@ == decimal_text(n as nat),
    decreases n,
{
    if n < 10 {
        let mut out: Vec<char> = Vec::new();
        out.push(digit_char_exec(n));
        assert(out@ =~= seq![digit_char(n as int)]);
        out
    } else {
        let mut out = decimal_chars(n / 10);
        out.push(digit_char_exec(n % 10));
        out
    }
}

/// Splitting gives at least one piece.
pub proof fn lemma_split_nonempty(s: Seq<char>, sep: Seq<char>)
    ensures
        split(s, sep).len() >= 1,
    decreases s.len(),
{
    match find(s, sep) {
        Some(i) => {
            if sep.len() > 0 && 0 <= i <= s.len() - sep.len() {
                lemma_split_nonempty(s.skip(i + sep.len()), sep);
            }
        },
        None => {},
    }
}

/// The number of bytes that `c` takes in UTF-8.
pub open spec fn utf8_width(c: char) -> nat {
    if c as u32 <= 0x7f {
        1
    } else if c as u32 <= 0x7ff {
        2
    } else if c as u32 <= 0xffff {
        3
    } else {
        4
    }
}

/// The number of bytes that `s` takes in UTF-8.
pub open spec fn byte_len(s: Seq<char>) -> nat
    decreases s.len(),
{
    if s.len() == 0 {
        0
    } else {
        byte_len(s.drop_last()) + utf8_width(s.last())
    }
}

/// The number of leading characters of `s` that take `n` bytes in UTF-8
/// together. There is none where `s` takes fewer bytes, or where its first
/// `n` bytes end inside a character.
pub open spec fn chars_in_bytes(s: Seq<char>, n: nat) -> Option<nat>
    decreases s.len(),
{
    if n == 0 {
        Some(0)
    } else if s.len() == 0 || utf8_width(s[0]) > n {
        None
    } else {
        match chars_in_bytes(s.drop_first(), (n - utf8_width(s[0])) as nat) {
            Some(k) => Some(k + 1),
            None => None,
        }
    }
}

/// A text with a character in front takes the bytes of both.
pub proof fn lemma_byte_len_front(c: char, s: Seq<char>)
    ensures
        byte_len(seq![c] + s) == utf8_width(c) + byte_len(s),
    decreases s.len(),
{
    let all = seq![c] + s;
    if s.len() == 0 {
        assert(all.drop_last() =~= Seq::<char>::empty());
        assert(all.last() == c);
        assert(byte_len(all.drop_last()) == 0);
    } else {
        lemma_byte_len_front(c, s.drop_last());
        assert(all.drop_last() =~= seq![c] + s.drop_last());
        assert(all.last() == s.last());
    }
}

/// The characters that `chars_in_bytes` counts are characters of the text,
/// and take the bytes that were asked for.
pub proof fn lemma_chars_in_bytes(s: Seq<char>, n: nat)
    ensures
        chars_in_bytes(s, n) matches Some(k) ==> k <= s.len() && byte_len(s.take(k as int)) == n,
    decreases s.len(),
{
    if n == 0 {
        assert(s.take(0) =~= Seq::<char>::empty());
    } else if s.len() == 0 || utf8_width(s[0]) > n {
    } else {
        let rest = s.drop_first();
        lemma_chars_in_bytes(rest, (n - utf8_width(s[0])) as nat);
        if let Some(k) = chars_in_bytes(rest, (n - utf8_width(s[0])) as nat) {
            lemma_byte_len_front(s[0], rest.take(k as int));
            assert(s.take(k as int + 1) =~= seq![s[0]] + rest.take(k as int));
        }
    }
}

/// The number of bytes that `c` takes in UTF-8.
pub fn utf8_width_exec(c: char) -> (w: usize)
    ensures
        w == utf8_width(c),
        1 <= w <= 4,
{
    let v = c as u32;
    if v <= 0x7f {
        1
    } else if v <= 0x7ff {
        2
    } else if v <= 0xffff {
        3
    } else {
        4
    }
}

/// The bytes that `byte_len` counts are those of the text's UTF-8 encoding.
pub proof fn lemma_byte_len_is_utf8(s: Seq<char>)
    ensures
        byte_len(s) == vstd::utf8::encode_utf8(s).len(),
    decreases s.len(),
{
    if s.len() > 0 {
        lemma_byte_len_is_utf8(s.drop_first());
        lemma_byte_len_front(s[0], s.drop_first());
        assert(seq![s[0]] + s.drop_first() =~= s);
        vstd::utf8::char_is_scalar(s[0]);
        assert(vstd::utf8::encode_scalar(s[0] as u32).len() == utf8_width(s[0]));
    }
}

/// The number of bytes that `s` takes in UTF-8.
pub fn byte_len_exec(s: &str) -> (n: usize)
    ensures
        n == byte_len(s@),
{
    proof {
        lemma_byte_len_is_utf8(s@);
    }
    s.as_bytes().len()
}

/// The number of characters of `s[from..]` that take `n` bytes in UTF-8
/// together.
pub fn chars_in_bytes_exec(s: &Vec<char>, from: usize, n: usize) -> (r: Option<usize>)
    requires
        from <= s.len(),
    ensures
        match r {
            Some(k) => chars_in_bytes(s@.skip(from as int), n as nat) == Some(k as nat) && from + k
                <= s.len(),
            None => chars_in_bytes(s@.skip(from as int), n as nat) is None,
        },
{
    let mut k: usize = 0;
    let mut left: usize = n;
    loop
        invariant
            from + k <= s.len(),
            left <= n,
            chars_in_bytes(s@.skip(from as int), n as nat) == match chars_in_bytes(
                s@.skip(from + k),
                left as nat,
            ) {
                Some(j) => Some((j + k) as nat),
                None => None::<nat>,
            },
        decreases s.len() - k,
    {
        if left == 0 {
            return Some(k);
        }
        if from + k == s.len() {
            return None;
        }
        let w = utf8_width_exec(s[from + k]);
        assert(s@.skip(from + k)[0] == s@[from + k]);
        if w > left {
            return None;
        }
        assert(s@.skip(from + k).drop_first() =~= s@.skip(from + k + 1));
        left -= w;
        k += 1;
    }
}

} // verus!
