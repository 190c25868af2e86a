//! Namespaced paths such as `std::collections::Vec`.

use vstd::prelude::*;
use vstd::string::StrSliceExecFns;
use crate::sets::Item;
use crate::text::{chars_of, find, find_from_exec, join, split};

verus! {

/// The separator between the segments of a path.
pub open spec fn path_sep() -> Seq<char> {
    "::"@
}

/// The separator has two characters.
pub proof fn lemma_path_sep()
    ensures
        path_sep() == seq![':', ':'],
        path_sep().len() == 2,
{
    reveal_strlit("::");
    assert(path_sep() =~= seq![':', ':']);
}

/// The segments of a path text: nothing for the empty text, else the pieces
/// between the separators.
pub open spec fn segments_of(path: Seq<char>) -> Seq<Seq<char>> {
    if path.len() == 0 {
        Seq::empty()
    } else {
        split(path, path_sep())
    }
}

/// The text of `path` after one more segment was pushed.
pub open spec fn pushed(path: Seq<char>, segment: Seq<char>) -> Seq<char> {
    if path.len() == 0 {
        segment
    } else {
        path + path_sep() + segment
    }
}

/// A module or item path like `std::collections::Vec` or
/// `my_crate::module::function`, held as text with `::` between segments.
#[derive(Debug, PartialEq, Eq, Hash, PartialOrd, Ord)]
pub struct RustPath(String);

impl View for RustPath {
    type V = Seq<char>;

    closed spec fn view(&self) -> Seq<char> {
        self.0@
    }
}

impl Clone for RustPath {
    fn clone(&self) -> (r: Self)
        ensures
            r@ == self@,
    {
        RustPath(self.0.clone())
    }
}

impl Item for RustPath {
    fn same(&self, other: &Self) -> (r: bool) {
        self.0 == other.0
    }

    fn duplicate(&self) -> (r: Self) {
        self.clone()
    }
}

impl RustPath {
    /// The path with the given text.
    pub fn new(path: &str) -> (r: Self)
        ensures
            r@ == path@,
    {
        RustPath(path.to_owned())
    }

    /// The path with the given text.
    pub fn from_string(path: String) -> (r: Self)
        ensures
            r@ == path@,
    {
        RustPath(path)
    }

    /// The path whose segments are `segments`.
    pub fn from_segments(segments: Vec<String>) -> (r: Self)
        ensures
            r@ == join(segments@.map_values(|s: String| s@), path_sep()),
    {
        let ghost parts = segments@.map_values(|s: String| s@);
        let mut text = String::new();
        let mut i: usize = 0;
        while i < segments.len()
            invariant
                i <= segments.len(),
                parts == segments@.map_values(|s: String| s@),
                text@ == join(parts.take(i as int), path_sep()),
            decreases segments.len() - i,
        {
            proof {
                let upto = parts.take(i + 1);
                assert(upto.drop_last() =~= parts.take(i as int));
                assert(upto.last() == segments@[i as int]@);
            }
            if i > 0 {
                text.append("::");
            }
            text.append(segments[i].as_str());
            i += 1;
        }
        assert(parts.take(segments.len() as int) =~= parts);
        RustPath(text)
    }

    /// This path with `segment` pushed at its end.
    #[must_use]
    pub fn with_segment(self, segment: &str) -> (r: Self)
        ensures
            r@ == pushed(self@, segment@),
    {
        let mut path = self;
        path.push_segment(segment);
        path
    }

    /// Pushes `segment` at the end of the path.
    pub fn push_segment(&mut self, segment: &str)
        ensures
            final(self)@ == pushed(old(self)@, segment@),
    {
        if self.0.as_str().unicode_len() == 0 {
            self.0 = segment.to_owned();
        } else {
            self.0.append("::");
            self.0.append(segment);
        }
    }

    /// The path as text.
    pub fn as_str(&self) -> (r: &str)
        ensures
            r@ == self@,
    {
        self.0.as_str()
    }

    /// The path as an owned string.
    pub fn to_string(&self) -> (r: String)
        ensures
            r@ == self@,
    {
        self.0.clone()
    }

    /// The segments of the path, in order; none for the empty path.
    pub fn segments(&self) -> (r: Vec<&str>)
        ensures
            r@.map_values(|s: &str| s@) == segments_of(self@),
    {
        let text = self.0.as_str();
        let chars = chars_of(text);
        let sep = chars_of("::");
        let mut out: Vec<&str> = Vec::new();
        if chars.len() == 0 {
            assert(out@.map_values(|s: &str| s@) =~= segments_of(self@));
            return out;
        }
        proof {
            lemma_path_sep();
        }
        let mut start: usize = 0;
        proof {
            assert(chars@.skip(0) =~= chars@);
            assert(out@.map_values(|s: &str| s@) =~= Seq::<Seq<char>>::empty());
            assert(Seq::<Seq<char>>::empty() + split(chars@, sep@) =~= split(chars@, sep@));
        }
        loop
            invariant
                start <= chars.len(),
                chars.len() > 0,
                chars@ == text@,
                text@ == self@,
                sep@ == path_sep(),
                sep@.len() == 2,
                out@.map_values(|s: &str| s@) + split(chars@.skip(start as int), sep@) == split(
                    chars@,
                    sep@,
                ),
            decreases chars.len() - start,
        {
            let ghost done = out@.map_values(|s: &str| s@);
            let ghost rest = chars@.skip(start as int);
            match find_from_exec(&chars, &sep, start) {
                Some(i) => {
                    proof {
                        crate::text::lemma_find_from(chars@, sep@, start as int);
                        crate::text::lemma_find_shift(chars@, sep@, start as int);
                        assert(rest.take(i - start) =~= chars@.subrange(start as int, i as int));
                        assert(rest.skip(i - start + 2) =~= chars@.skip(i + 2));
                    }
                    let piece = text.substring_char(start, i);
                    out.push(piece);
                    proof {
                        assert(out@.map_values(|s: &str| s@) =~= done + seq![piece@]);
                    }
                    start = i + 2;
                },
                None => {
                    proof {
                        crate::text::lemma_find_shift(chars@, sep@, start as int);
                        assert(rest =~= chars@.subrange(start as int, chars@.len() as int));
                    }
                    let piece = text.substring_char(start, chars.len());
                    out.push(piece);
                    proof {
                        assert(out@.map_values(|s: &str| s@) =~= done + seq![piece@]);
                        assert(find(rest, sep@) is None);
                        assert(split(rest, sep@) == seq![rest]);
                        assert(piece@ == rest);
                    }
                    return out;
                },
            }
        }
    }
}

impl std::ops::Deref for RustPath {
    type Target = str;

    fn deref(&self) -> (r: &str)
        ensures
            r@ == self@,
    {
        self.0.as_str()
    }
}

impl PartialEq<str> for RustPath {
    fn eq(&self, other: &str) -> (r: bool) {
        crate::text::str_eq(self.0.as_str(), other)
    }
}

impl vstd::std_specs::cmp::PartialEqSpecImpl<str> for RustPath {
    open spec fn obeys_eq_spec() -> bool {
        true
    }

    open spec fn eq_spec(&self, other: &str) -> bool {
        self@ == other@
    }
}

impl PartialEq<&str> for RustPath {
    fn eq(&self, other: &&str) -> (r: bool) {
        crate::text::str_eq(self.0.as_str(), *other)
    }
}

impl vstd::std_specs::cmp::PartialEqSpecImpl<&str> for RustPath {
    open spec fn obeys_eq_spec() -> bool {
        true
    }

    open spec fn eq_spec(&self, other: &&str) -> bool {
        self@ == other@
    }
}

impl PartialEq<RustPath> for str {
    fn eq(&self, other: &RustPath) -> (r: bool) {
        crate::text::str_eq(self, other.0.as_str())
    }
}

impl vstd::std_specs::cmp::PartialEqSpecImpl<RustPath> for str {
    open spec fn obeys_eq_spec() -> bool {
        true
    }

    open spec fn eq_spec(&self, other: &RustPath) -> bool {
        self@ == other@
    }
}

impl PartialEq<RustPath> for &str {
    fn eq(&self, other: &RustPath) -> (r: bool) {
        crate::text::str_eq(*self, other.0.as_str())
    }
}

impl vstd::std_specs::cmp::PartialEqSpecImpl<RustPath> for &str {
    open spec fn obeys_eq_spec() -> bool {
        true
    }

    open spec fn eq_spec(&self, other: &RustPath) -> bool {
        self@ == other@
    }
}

/// Whether `c` may stand in an identifier: an ASCII letter, a digit or `_`.
pub open spec fn is_word_char(c: char) -> bool {
    crate::text::is_alphanumeric(c) || c == '_'
}

/// Whether `c` may start an identifier: an ASCII letter or `_`.
pub open spec fn is_ident_start(c: char) -> bool {
    'a' <= c <= 'z' || 'A' <= c <= 'Z' || c == '_'
}

/// The end of the run of identifier characters of `s` that starts at `i`.
pub open spec fn word_end(s: Seq<char>, i: int) -> int
    decreases s.len() - i,
{
    if 0 <= i < s.len() && is_word_char(s[i]) {
        word_end(s, i + 1)
    } else {
        i
    }
}

/// Whether `::` and the start of an identifier stand at `e`.
pub open spec fn has_segment_at(s: Seq<char>, e: int) -> bool {
    0 <= e && e + 2 < s.len() && s[e] == ':' && s[e + 1] == ':' && is_ident_start(s[e + 2])
}

/// The end of the run of segments `::identifier` of `s` that starts at `e`.
pub open spec fn segments_end(s: Seq<char>, e: int) -> int
    decreases s.len() - e,
{
    if has_segment_at(s, e) && e < word_end(s, e + 2) <= s.len() {
        segments_end(s, word_end(s, e + 2))
    } else {
        e
    }
}

/// The end of the path that starts at `i`, if one does: an identifier that
/// follows no identifier character, and at least one segment `::identifier`
/// behind it.
pub open spec fn path_at(s: Seq<char>, i: int) -> Option<int> {
    if 0 <= i < s.len() && is_ident_start(s[i]) && (i == 0 || !is_word_char(s[i - 1]))
        && has_segment_at(s, word_end(s, i)) {
        Some(segments_end(s, word_end(s, i)))
    } else {
        None
    }
}

/// The paths of at least two segments in `s` from `i` on, from left to right
/// and without overlap, each with its start and its end.
pub open spec fn spans_from(s: Seq<char>, i: int) -> Seq<(int, int)>
    decreases s.len() - i,
{
    if i < 0 || i >= s.len() {
        Seq::empty()
    } else {
        match path_at(s, i) {
            Some(e) if i < e <= s.len() => seq![(i, e)] + spans_from(s, e),
            _ => spans_from(s, i + 1),
        }
    }
}

/// Whether `>::` stands right before `i`.
pub open spec fn follows_bracket(s: Seq<char>, i: int) -> bool {
    3 <= i <= s.len() && s.subrange(i - 3, i) == ">::"@
}

/// The texts of those of the first `n` of `spans` that follow no `>::`.
pub open spec fn free_paths(s: Seq<char>, spans: Seq<(int, int)>, n: nat) -> Seq<Seq<char>>
    decreases n,
{
    if n == 0 || n > spans.len() {
        Seq::empty()
    } else if follows_bracket(s, spans[n - 1].0) {
        free_paths(s, spans, (n - 1) as nat)
    } else {
        free_paths(s, spans, (n - 1) as nat).push(s.subrange(spans[n - 1].0, spans[n - 1].1))
    }
}

/// The paths of at least two segments in `s` that follow no `>::`.
pub open spec fn paths_in(s: Seq<char>) -> Seq<Seq<char>> {
    free_paths(s, spans_from(s, 0), spans_from(s, 0).len())
}

/// The end of a run of identifier characters lies at or behind its start.
pub proof fn lemma_word_end(s: Seq<char>, i: int)
    requires
        0 <= i <= s.len(),
    ensures
        i <= word_end(s, i) <= s.len(),
        i < s.len() && is_word_char(s[i]) ==> i < word_end(s, i),
    decreases s.len() - i,
{
    if i < s.len() && is_word_char(s[i]) {
        lemma_word_end(s, i + 1);
    }
}

/// The end of a run of segments lies at or behind its start.
pub proof fn lemma_segments_end(s: Seq<char>, e: int)
    requires
        0 <= e <= s.len(),
    ensures
        e <= segments_end(s, e) <= s.len(),
        has_segment_at(s, e) ==> e + 2 < segments_end(s, e),
    decreases s.len() - e,
{
    if has_segment_at(s, e) {
        lemma_word_end(s, e + 2);
        lemma_segments_end(s, word_end(s, e + 2));
    }
}

/// Whether `c` may stand in an identifier.
fn is_word_char_exec(c: char) -> (r: bool)
    ensures
        r == is_word_char(c),
{
    crate::text::is_alphanumeric_exec(c) || c == '_'
}

/// Whether `c` may start an identifier.
fn is_ident_start_exec(c: char) -> (r: bool)
    ensures
        r == is_ident_start(c),
{
    ('a' <= c && c <= 'z') || ('A' <= c && c <= 'Z') || c == '_'
}

/// The end of the run of identifier characters that starts at `i`.
fn word_end_exec(s: &Vec<char>, i: usize) -> (e: usize)
    requires
        i <= s.len(),
    ensures
        e == word_end(s@, i as int),
        i <= e <= s.len(),
{
    let mut e: usize = i;
    while e < s.len() && is_word_char_exec(s[e])
        invariant
            i <= e <= s.len(),
            word_end(s@, i as int) == word_end(s@, e as int),
        decreases s.len() - e,
    {
        e += 1;
    }
    e
}

/// Whether `::` and the start of an identifier stand at `e`.
fn has_segment_at_exec(s: &Vec<char>, e: usize) -> (r: bool)
    requires
        e <= s.len(),
    ensures
        r == has_segment_at(s@, e as int),
{
    s.len() - e > 2 && s[e] == ':' && s[e + 1] == ':' && is_ident_start_exec(s[e + 2])
}

/// The end of the run of segments that starts at `e`.
fn segments_end_exec(s: &Vec<char>, e: usize) -> (r: usize)
    requires
        e <= s.len(),
    ensures
        r == segments_end(s@, e as int),
        e <= r <= s.len(),
{
    let mut at: usize = e;
    while has_segment_at_exec(s, at)
        invariant
            e <= at <= s.len(),
            segments_end(s@, e as int) == segments_end(s@, at as int),
        decreases s.len() - at,
    {
        proof {
            lemma_word_end(s@, at + 2);
        }
        at = word_end_exec(s, at + 2);
    }
    at
}

/// The end of the path that starts at `i`, if one does.
fn path_at_exec(s: &Vec<char>, i: usize) -> (r: Option<usize>)
    requires
        i < s.len(),
    ensures
        match r {
            Some(e) => path_at(s@, i as int) == Some(e as int) && i < e <= s.len(),
            None => path_at(s@, i as int) is None,
        },
{
    if is_ident_start_exec(s[i]) && (i == 0 || !is_word_char_exec(s[i - 1])) {
        let e = word_end_exec(s, i);
        if has_segment_at_exec(s, e) {
            proof {
                lemma_segments_end(s@, e as int);
            }
            return Some(segments_end_exec(s, e));
        }
    }
    None
}

impl RustPath {
    /// Finds all paths in the given text with at least two segments.
    ///
    /// A path is a run of identifiers with `::` between them, as long as it
    /// can be, that follows no identifier character. Paths that stand right
    /// behind `>::` (like in `<Foo as Bar>::foo::bar`) are left out.
    pub fn find_all_with_at_least_two_segments_in(input: &str) -> (r: Vec<RustPath>)
        ensures
            crate::rust_type::path_views(r@) == paths_in(input@),
    {
        let s = chars_of(input);
        let bracket = chars_of(">::");
        proof {
            reveal_strlit(">::");
            assert(bracket@.len() == 3);
        }
        let mut out: Vec<RustPath> = Vec::new();
        let ghost mut found: Seq<(int, int)> = Seq::empty();
        let mut i: usize = 0;
        proof {
            assert(found + spans_from(s@, 0) =~= spans_from(s@, 0));
            assert(crate::rust_type::path_views(out@) =~= free_paths(s@, found, 0));
        }
        while i < s.len()
            invariant
                i <= s.len(),
                s@ == input@,
                bracket@ == ">::"@,
                bracket@.len() == 3,
                found + spans_from(s@, i as int) == spans_from(s@, 0),
                crate::rust_type::path_views(out@) == free_paths(s@, found, found.len()),
            decreases s.len() - i,
        {
            match path_at_exec(&s, i) {
                Some(e) => {
                    let ghost before = found;
                    let ghost views = crate::rust_type::path_views(out@);
                    proof {
                        found = found.push((i as int, e as int));
                        assert(before + (seq![(i as int, e as int)] + spans_from(s@, e as int))
                            =~= found + spans_from(s@, e as int));
                        lemma_free_paths_prefix(s@, before, found, before.len());
                    }
                    let follows = i >= 3 && crate::text::matches_at_exec(&s, &bracket, i - 3);
                    if !follows {
                        let text = crate::text::slice_of(&s, i, e);
                        let path = RustPath(crate::text::string_of(&text));
                        out.push(path);
                        assert(crate::rust_type::path_views(out@) =~= views.push(path@));
                    }
                    i = e;
                },
                None => {
                    i += 1;
                },
            }
        }
        proof {
            assert(found + Seq::<(int, int)>::empty() =~= found);
        }
        out
    }
}

/// What is kept of the first `n` spans depends on those spans alone.
pub proof fn lemma_free_paths_prefix(
    s: Seq<char>,
    a: Seq<(int, int)>,
    b: Seq<(int, int)>,
    n: nat,
)
    requires
        n <= a.len(),
        n <= b.len(),
        forall|k: int| 0 <= k < n ==> a[k] == b[k],
    ensures
        free_paths(s, a, n) == free_paths(s, b, n),
    decreases n,
{
    if n > 0 {
        lemma_free_paths_prefix(s, a, b, (n - 1) as nat);
    }
}

} // verus!
