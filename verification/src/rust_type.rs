//! The grammar of decoded type names and of trait-implementation symbols.

use vstd::prelude::*;
use crate::rust_path::{is_word_char, RustPath};
use crate::text::{
    chars_of, ends_with, ends_with_exec, find, find_exec, is_alphanumeric_exec, matches_at,
    matches_at_exec, rfind, rfind_exec, slice_of, starts_with_exec, string_of,
};

verus! {

/// Why a text is no type name or no trait-implementation symbol.
#[derive(Debug, Clone, Copy, PartialEq, Eq, Structural)]
pub enum ParseError {
    /// `<` opens a bracket that never closes.
    BadTypeName,
    /// Text follows the `>` that closes a bracketed type without ` as `.
    UnexpectedTrailing,
    /// Text follows the `)` that closes a tuple.
    TrailingAfterTuple,
    /// `(` opens a list that never closes.
    MisalignedParenthesis,
    /// The text holds no `>::`.
    NotATraitImpl,
    /// The type is nested deeper than types are read.
    TooDeep,
}

impl ParseError {
    /// A sentence for the error.
    pub fn message(&self) -> (r: &'static str)
        ensures
            r@ == match *self {
                ParseError::BadTypeName => "Bad type name"@,
                ParseError::UnexpectedTrailing => "Unexpected characters after closing bracket"@,
                ParseError::TrailingAfterTuple => "Trailing stuff after tuple"@,
                ParseError::MisalignedParenthesis => "Misaligned parenthesis"@,
                ParseError::NotATraitImpl => "Not a trait implementation symbol"@,
                ParseError::TooDeep => "Type is nested too deeply"@,
            },
    {
        match self {
            ParseError::BadTypeName => "Bad type name",
            ParseError::UnexpectedTrailing => "Unexpected characters after closing bracket",
            ParseError::TrailingAfterTuple => "Trailing stuff after tuple",
            ParseError::MisalignedParenthesis => "Misaligned parenthesis",
            ParseError::NotATraitImpl => "Not a trait implementation symbol",
            ParseError::TooDeep => "Type is nested too deeply",
        }
    }
}

/// A parsed type name.
#[derive(Debug, PartialEq, Eq, PartialOrd, Ord)]
pub enum TypeName {
    /// `std::collection::Vec<T>`
    RustPath(RustPath),
    /// A leading token such as `&` or `mut` in front of a type.
    Prefixed { prefix: String, typ: Box<TypeName> },
    /// `[T]` or `[T; N]`; the size is not kept.
    Slice(Box<TypeName>),
    /// `(A, B, C)`
    Tuple(Vec<TypeName>),
    /// `<self_type as trait_name>`
    TypeAsTrait { self_type: Box<TypeName>, trait_name: Box<TypeName> },
    /// `<self_type as trait_name>::associated_type`
    AssociatedPath { self_type: Box<TypeName>, trait_name: Box<TypeName>, associated_type: RustPath },
    /// `fn(A, B) -> C`
    Fn { params: Vec<TypeName>, ret: Option<Box<TypeName>> },
}

/// What a `TypeName` stands for: the same tree over character sequences.
pub enum TypeNameView {
    RustPath(Seq<char>),
    Prefixed { prefix: Seq<char>, typ: Box<TypeNameView> },
    Slice(Box<TypeNameView>),
    Tuple(Seq<TypeNameView>),
    TypeAsTrait { self_type: Box<TypeNameView>, trait_name: Box<TypeNameView> },
    AssociatedPath {
        self_type: Box<TypeNameView>,
        trait_name: Box<TypeNameView>,
        associated_type: Seq<char>,
    },
    Fn { params: Seq<TypeNameView>, ret: Option<Box<TypeNameView>> },
}

/// The views of a list of type names.
pub open spec fn models(v: Seq<TypeName>) -> Seq<TypeNameView> {
    Seq::new(v.len(), |i: int| v[i].model())
}

/// The view of a list with one more item is the view of the list with the
/// item's view pushed.
pub proof fn lemma_models_push(v: Seq<TypeName>, t: TypeName)
    ensures
        models(v.push(t)) == models(v).push(t.model()),
{
    assert(models(v.push(t)) =~= models(v).push(t.model()));
}

/// A tuple's view holds the views of its elements.
pub proof fn lemma_tuple_model(v: Vec<TypeName>)
    ensures
        TypeName::Tuple(v).model() == TypeNameView::Tuple(models(v@)),
{
    let m = TypeName::Tuple(v).model();
    assert(m is Tuple);
    assert(m->Tuple_0 =~= models(v@));
}

/// A function type's view holds the views of its parameters and of its result.
pub proof fn lemma_fn_model(v: Vec<TypeName>, ret: Option<Box<TypeName>>)
    ensures
        (TypeName::Fn { params: v, ret }).model() == (TypeNameView::Fn {
            params: models(v@),
            ret: match ret {
                Some(t) => Some(Box::new((*t).model())),
                None => None,
            },
        }),
{
    let m = (TypeName::Fn { params: v, ret }).model();
    assert(m is Fn);
    assert(m->params =~= models(v@));
}

impl TypeName {
    /// The tree that this type name stands for.
    pub open spec fn model(self) -> TypeNameView
        decreases self,
    {
        match self {
            TypeName::RustPath(path) => TypeNameView::RustPath(path@),
            TypeName::Prefixed { prefix, typ } => TypeNameView::Prefixed {
                prefix: prefix@,
                typ: Box::new((*typ).model()),
            },
            TypeName::Slice(element) => TypeNameView::Slice(Box::new((*element).model())),
            TypeName::Tuple(elements) => TypeNameView::Tuple(
                Seq::new(
                    elements@.len(),
                    |i: int|
                        if 0 <= i < elements@.len() {
                            elements@[i].model()
                        } else {
                            arbitrary()
                        },
                ),
            ),
            TypeName::TypeAsTrait { self_type, trait_name } => TypeNameView::TypeAsTrait {
                self_type: Box::new((*self_type).model()),
                trait_name: Box::new((*trait_name).model()),
            },
            TypeName::AssociatedPath {
                self_type,
                trait_name,
                associated_type,
            } => TypeNameView::AssociatedPath {
                self_type: Box::new((*self_type).model()),
                trait_name: Box::new((*trait_name).model()),
                associated_type: associated_type@,
            },
            TypeName::Fn { params, ret } => TypeNameView::Fn {
                params: Seq::new(
                    params@.len(),
                    |i: int|
                        if 0 <= i < params@.len() {
                            params@[i].model()
                        } else {
                            arbitrary()
                        },
                ),
                ret: match ret {
                    Some(t) => Some(Box::new((*t).model())),
                    None => None,
                },
            },
        }
    }
}

impl View for TypeName {
    type V = TypeNameView;

    open spec fn view(&self) -> TypeNameView {
        self.model()
    }
}

/// The view of a parse result.
pub open spec fn parsed_view(r: Result<TypeName, ParseError>) -> Result<TypeNameView, ParseError> {
    match r {
        Ok(t) => Ok(t@),
        Err(e) => Err(e),
    }
}

/// The tokens that may stand in front of a type, in the order in which they
/// are tried.
pub open spec fn type_prefixes() -> Seq<Seq<char>> {
    seq!["*"@, "&"@, "const"@, "dyn"@, "mut"@, "unsafe"@, "extern \"C\""@, " "@]
}

/// The tokens that `strip_indirections` removes, in the order in which they
/// are tried.
pub open spec fn indirection_prefixes() -> Seq<Seq<char>> {
    seq!["&"@, "*"@, "mut"@, "const"@, "dyn"@, " "@]
}

/// Whether `c` may stand in a name: an identifier character, or a character
/// beyond ASCII.
pub open spec fn is_word_part(c: char) -> bool {
    is_word_char(c) || c > '\u{7f}'
}

/// Whether `s` starts with the token `token`: with its characters, and, where
/// the token is a word such as `dyn` or `mut`, with the word ending there, so
/// that `dyn` is no token of `dynamo`.
pub open spec fn starts_with_token(s: Seq<char>, token: Seq<char>) -> bool {
    token.is_prefix_of(s) && (token.len() == 0 || !is_word_part(token.last()) || s.len()
        == token.len() || !is_word_part(s[token.len() as int]))
}

/// Index of the first of `prefixes[k..]` that `s` starts with as a token.
pub open spec fn first_prefix(prefixes: Seq<Seq<char>>, s: Seq<char>, k: int) -> Option<int>
    decreases prefixes.len() - k,
{
    if k < 0 || k >= prefixes.len() {
        None
    } else if starts_with_token(s, prefixes[k]) {
        Some(k)
    } else {
        first_prefix(prefixes, s, k + 1)
    }
}

/// `path` without any leading run of indirection tokens.
pub open spec fn strip_indirections(path: Seq<char>) -> Seq<char>
    decreases path.len(),
{
    match first_prefix(indirection_prefixes(), path, 0) {
        Some(k) if 0 <= k < indirection_prefixes().len() && 0 < indirection_prefixes()[k].len()
            <= path.len() => strip_indirections(path.skip(indirection_prefixes()[k].len() as int)),
        _ => path,
    }
}

/// The depth of brackets after `c`, which follows `before`, was read at
/// depth `depth`: `<` opens, `>` closes unless it ends an arrow `->`.
pub open spec fn angle_depth_after(depth: int, before: char, c: char) -> int {
    if c == '<' {
        depth + 1
    } else if c == '>' && before != '-' {
        depth - 1
    } else {
        depth
    }
}

/// The depth of parentheses after `c` was read at depth `depth`.
pub open spec fn paren_depth_after(depth: int, c: char) -> int {
    if c == '(' {
        depth + 1
    } else if c == ')' {
        depth - 1
    } else {
        depth
    }
}

/// How deep types may be nested: a type that is nested deeper is not read.
pub const MAX_NESTING: usize = 256;

/// The type name that `s` spells.
pub open spec fn parse_type(s: Seq<char>) -> Result<TypeNameView, ParseError> {
    parse_nested(s, MAX_NESTING as nat)
}

/// The type name that `s` spells, where there is room for `room` levels of
/// nesting.
///
/// A leading `_` before `<` is dropped. A leading prefix token wraps the rest.
/// `fn(` starts a function type, `<` a bracketed type, `(` a tuple and `[` a
/// slice; anything else is a path.
pub open spec fn parse_nested(s: Seq<char>, room: nat) -> Result<TypeNameView, ParseError>
    decreases s.len(), s.len() + 2,
{
    if room == 0 {
        Err(ParseError::TooDeep)
    } else if "_<"@.is_prefix_of(s) && s.len() >= 1 {
        parse_nested(s.skip(1), (room - 1) as nat)
    } else {
        match first_prefix(type_prefixes(), s, 0) {
            Some(k) if 0 <= k < type_prefixes().len() && 0 < type_prefixes()[k].len() <= s.len() => {
                match parse_nested(s.skip(type_prefixes()[k].len() as int), (room - 1) as nat) {
                    Ok(t) => Ok(TypeNameView::Prefixed { prefix: type_prefixes()[k], typ: Box::new(t) }),
                    Err(e) => Err(e),
                }
            },
            _ => {
                if "fn("@.is_prefix_of(s) && s.len() >= 3 {
                    parse_fn(s, room)
                } else if s.len() > 0 && s[0] == '<' {
                    angle_scan(s, room, 1, 1, None)
                } else if s.len() > 0 && s[0] == '(' {
                    match parse_tuple(s, room) {
                        Ok((elements, close)) => if close + 1 == s.len() {
                            Ok(TypeNameView::Tuple(elements))
                        } else {
                            Err(ParseError::TrailingAfterTuple)
                        },
                        Err(e) => Err(e),
                    }
                } else if s.len() > 0 && s[0] == '[' {
                    parse_slice(s, room)
                } else {
                    Ok(TypeNameView::RustPath(s))
                }
            },
        }
    }
}

/// The function type that `s`, which starts with `fn(`, spells.
pub open spec fn parse_fn(s: Seq<char>, room: nat) -> Result<TypeNameView, ParseError>
    decreases s.len(), s.len() + 1,
{
    if s.len() < 3 {
        Err(ParseError::MisalignedParenthesis)
    } else {
        let list = s.skip(2);
        match parse_tuple(list, room) {
            Ok((params, close)) => {
                let rest = list.skip(close + 1);
                if 0 <= close < list.len() && " -> "@.is_prefix_of(rest) && rest.len() >= 4 {
                    match parse_nested(rest.skip(4), (room - 1) as nat) {
                        Ok(t) => Ok(TypeNameView::Fn { params, ret: Some(Box::new(t)) }),
                        Err(e) => Err(e),
                    }
                } else {
                    Ok(TypeNameView::Fn { params, ret: None })
                }
            },
            Err(e) => Err(e),
        }
    }
}

/// The slice type that `s`, which starts with `[`, spells. What follows the
/// last `; ` is not kept.
pub open spec fn parse_slice(s: Seq<char>, room: nat) -> Result<TypeNameView, ParseError>
    decreases s.len(), s.len() + 1,
{
    if s.len() >= 2 && ends_with(s, "]"@) {
        let end = match rfind(s, "; "@) {
            Some(semi) if 1 <= semi < s.len() => semi,
            _ => s.len() - 1,
        };
        match parse_nested(s.subrange(1, end), (room - 1) as nat) {
            Ok(t) => Ok(TypeNameView::Slice(Box::new(t))),
            Err(e) => Err(e),
        }
    } else {
        Err(ParseError::BadTypeName)
    }
}

/// The items of the list that `s` starts with, and the index of the `)` that
/// closes it. `s` is expected to start with `(`.
pub open spec fn parse_tuple(s: Seq<char>, room: nat) -> Result<(Seq<TypeNameView>, int), ParseError>
    decreases s.len(), s.len() + 1,
{
    if s.len() == 0 || s[0] != '(' {
        Err(ParseError::MisalignedParenthesis)
    } else {
        tuple_scan(s, room, 1, 1, 1, Seq::empty())
    }
}

/// Reads a list from index `i` on, at depth `depth` of parentheses, where the
/// current item starts at `start` and `items` were read before. A `,` at depth
/// one ends an item; the `)` that closes the list ends the last one.
pub open spec fn tuple_scan(
    s: Seq<char>,
    room: nat,
    start: int,
    i: int,
    depth: int,
    items: Seq<TypeNameView>,
) -> Result<(Seq<TypeNameView>, int), ParseError>
    decreases s.len(), s.len() - i,
{
    if start < 1 || i < start || i >= s.len() {
        Err(ParseError::MisalignedParenthesis)
    } else if s[i] == ',' && depth == 1 {
        match parse_nested(s.subrange(start, i), (room - 1) as nat) {
            Ok(t) => tuple_scan(s, room, i + 1, i + 1, depth, items.push(t)),
            Err(e) => Err(e),
        }
    } else if paren_depth_after(depth, s[i]) == 0 {
        match parse_nested(s.subrange(start, i), (room - 1) as nat) {
            Ok(t) => Ok((items.push(t), i)),
            Err(e) => Err(e),
        }
    } else {
        tuple_scan(s, room, start, i + 1, paren_depth_after(depth, s[i]), items)
    }
}

/// Reads a bracketed type from index `i` on, at depth `depth` of brackets,
/// where `as_pos` is the first ` as ` seen at depth one so far. `s` is expected
/// to start with `<`.
pub open spec fn angle_scan(
    s: Seq<char>,
    room: nat,
    i: int,
    depth: int,
    as_pos: Option<int>,
) -> Result<
    TypeNameView,
    ParseError,
>
    decreases s.len(), s.len() - i,
{
    if i < 1 || i >= s.len() {
        Err(ParseError::BadTypeName)
    } else {
        let seen = if as_pos is None && depth == 1 && matches_at(s, " as "@, i) {
            Some(i)
        } else {
            as_pos
        };
        let after = angle_depth_after(depth, s[i - 1], s[i]);
        if after == 0 {
            angle_close(s, room, i, seen)
        } else {
            angle_scan(s, room, i + 1, after, seen)
        }
    }
}

/// The bracketed type whose closing `>` stands at `close`. With ` as ` at
/// `as_pos` it is a type seen as a trait, and an associated path where `>::`
/// follows. Without it the bracket holds a path and must end the text.
pub open spec fn angle_close(s: Seq<char>, room: nat, close: int, as_pos: Option<int>) -> Result<
    TypeNameView,
    ParseError,
>
    decreases s.len(), 0int,
{
    match as_pos {
        Some(a) => {
            if 1 <= a && a + 4 <= close && close < s.len() {
                match parse_nested(s.subrange(1, a), (room - 1) as nat) {
                    Ok(self_type) => match parse_nested(
                        s.subrange(a + 4, close),
                        (room - 1) as nat,
                    ) {
                        Ok(trait_name) => if matches_at(s, ">::"@, close) {
                            Ok(
                                TypeNameView::AssociatedPath {
                                    self_type: Box::new(self_type),
                                    trait_name: Box::new(trait_name),
                                    associated_type: s.skip(close + 3),
                                },
                            )
                        } else {
                            Ok(
                                TypeNameView::TypeAsTrait {
                                    self_type: Box::new(self_type),
                                    trait_name: Box::new(trait_name),
                                },
                            )
                        },
                        Err(e) => Err(e),
                    },
                    Err(e) => Err(e),
                }
            } else {
                Err(ParseError::BadTypeName)
            }
        },
        None => {
            if close + 1 == s.len() && 1 <= close {
                Ok(TypeNameView::RustPath(strip_indirections(s.subrange(1, close))))
            } else {
                Err(ParseError::UnexpectedTrailing)
            }
        },
    }
}

/// The views of a list of tokens.
pub open spec fn token_views(tokens: Seq<&'static str>) -> Seq<Seq<char>> {
    tokens.map_values(|t: &'static str| t@)
}

/// The prefix tokens of types, as a list.
fn type_prefix_list() -> (r: Vec<&'static str>)
    ensures
        token_views(r@) == type_prefixes(),
{
    let r = vec!["*", "&", "const", "dyn", "mut", "unsafe", "extern \"C\"", " "];
    assert(token_views(r@) =~= type_prefixes());
    r
}

/// The indirection tokens, as a list.
fn indirection_prefix_list() -> (r: Vec<&'static str>)
    ensures
        token_views(r@) == indirection_prefixes(),
{
    let r = vec!["&", "*", "mut", "const", "dyn", " "];
    assert(token_views(r@) =~= indirection_prefixes());
    r
}

/// The first of `tokens` that `s` starts with: its index and its characters.
fn first_prefix_exec(tokens: &Vec<&'static str>, s: &Vec<char>) -> (r: Option<(usize, Vec<char>)>)
    ensures
        match r {
            Some((k, p)) => first_prefix(token_views(tokens@), s@, 0) == Some(k as int) && k
                < tokens.len() && p@ == token_views(tokens@)[k as int] && p@.is_prefix_of(s@),
            None => first_prefix(token_views(tokens@), s@, 0) is None,
        },
{
    let mut k: usize = 0;
    while k < tokens.len()
        invariant
            k <= tokens.len(),
            first_prefix(token_views(tokens@), s@, 0) == first_prefix(
                token_views(tokens@),
                s@,
                k as int,
            ),
        decreases tokens.len() - k,
    {
        let p = chars_of(tokens[k]);
        if starts_with_token_exec(s, &p) {
            return Some((k, p));
        }
        k += 1;
    }
    None
}

/// Whether `c` may stand in a name.
fn is_word_part_exec(c: char) -> (r: bool)
    ensures
        r == is_word_part(c),
{
    is_alphanumeric_exec(c) || c == '_' || c > '\u{7f}'
}

/// Whether `s` starts with the token `token`.
fn starts_with_token_exec(s: &Vec<char>, token: &Vec<char>) -> (r: bool)
    ensures
        r == starts_with_token(s@, token@),
{
    if !starts_with_exec(s, token) {
        return false;
    }
    let n = token.len();
    n == 0 || !is_word_part_exec(token[n - 1]) || s.len() == n || !is_word_part_exec(s[n])
}

/// `path` without any leading run of indirection tokens.
pub fn strip_indirections_chars(path: &Vec<char>) -> (r: Vec<char>)
    ensures
        r@ == strip_indirections(path@),
{
    let tokens = indirection_prefix_list();
    let mut from: usize = 0;
    assert(path@.skip(0) =~= path@);
    loop
        invariant
            from <= path.len(),
            token_views(tokens@) == indirection_prefixes(),
            strip_indirections(path@) == strip_indirections(path@.skip(from as int)),
        decreases path.len() - from,
    {
        let rest = slice_of(path, from, path.len());
        assert(rest@ =~= path@.skip(from as int));
        match first_prefix_exec(&tokens, &rest) {
            Some((k, p)) => {
                if p.len() == 0 {
                    return rest;
                }
                assert(rest@.skip(p@.len() as int) =~= path@.skip(from + p@.len()));
                from = from + p.len();
            },
            None => {
                return rest;
            },
        }
    }
}

/// The type name that `s` spells.
pub fn parse_chars(s: &Vec<char>) -> (r: Result<TypeName, ParseError>)
    ensures
        parsed_view(r) == parse_type(s@),
{
    parse_nested_chars(s, MAX_NESTING)
}

/// The type name that `s` spells, where there is room for `room` levels of
/// nesting.
fn parse_nested_chars(s: &Vec<char>, room: usize) -> (r: Result<TypeName, ParseError>)
    ensures
        parsed_view(r) == parse_nested(s@, room as nat),
    decreases s.len(), s.len() + 2,
{
    if room == 0 {
        return Err(ParseError::TooDeep);
    }
    let underscore_bracket = chars_of("_<");
    if starts_with_exec(s, &underscore_bracket) && s.len() >= 1 {
        let rest = slice_of(s, 1, s.len());
        assert(rest@ =~= s@.skip(1));
        return parse_nested_chars(&rest, room - 1);
    }
    let tokens = type_prefix_list();
    match first_prefix_exec(&tokens, s) {
        Some((k, p)) => {
            if p.len() > 0 {
                let rest = slice_of(s, p.len(), s.len());
                assert(rest@ =~= s@.skip(p@.len() as int));
                return match parse_nested_chars(&rest, room - 1) {
                    Ok(t) => Ok(TypeName::Prefixed { prefix: string_of(&p), typ: Box::new(t) }),
                    Err(e) => Err(e),
                };
            }
        },
        None => {},
    }
    let fn_open = chars_of("fn(");
    if starts_with_exec(s, &fn_open) && s.len() >= 3 {
        parse_fn_chars(s, room)
    } else if s.len() > 0 && s[0] == '<' {
        angle_chars(s, room)
    } else if s.len() > 0 && s[0] == '(' {
        match parse_tuple_chars(s, room) {
            Ok((elements, close)) => {
                if close + 1 == s.len() {
                    proof {
                        lemma_tuple_model(elements);
                    }
                    Ok(TypeName::Tuple(elements))
                } else {
                    Err(ParseError::TrailingAfterTuple)
                }
            },
            Err(e) => Err(e),
        }
    } else if s.len() > 0 && s[0] == '[' {
        parse_slice_chars(s, room)
    } else {
        Ok(TypeName::RustPath(RustPath::from_string(string_of(s))))
    }
}

/// The function type that `s`, which starts with `fn(`, spells.
fn parse_fn_chars(s: &Vec<char>, room: usize) -> (r: Result<TypeName, ParseError>)
    requires
        room > 0,
    ensures
        parsed_view(r) == parse_fn(s@, room as nat),
    decreases s.len(), s.len() + 1,
{
    if s.len() < 3 {
        return Err(ParseError::MisalignedParenthesis);
    }
    let list = slice_of(s, 2, s.len());
    assert(list@ =~= s@.skip(2));
    match parse_tuple_chars(&list, room) {
        Ok((params, close)) => {
            let rest = slice_of(&list, close + 1, list.len());
            assert(rest@ =~= list@.skip(close + 1));
            let arrow = chars_of(" -> ");
            if starts_with_exec(&rest, &arrow) && rest.len() >= 4 {
                let ret_text = slice_of(&rest, 4, rest.len());
                assert(ret_text@ =~= rest@.skip(4));
                match parse_nested_chars(&ret_text, room - 1) {
                    Ok(t) => {
                        let ret = Some(Box::new(t));
                        proof {
                            lemma_fn_model(params, ret);
                        }
                        Ok(TypeName::Fn { params, ret })
                    },
                    Err(e) => Err(e),
                }
            } else {
                proof {
                    lemma_fn_model(params, None);
                }
                Ok(TypeName::Fn { params, ret: None })
            }
        },
        Err(e) => Err(e),
    }
}

/// The slice type that `s`, which starts with `[`, spells.
fn parse_slice_chars(s: &Vec<char>, room: usize) -> (r: Result<TypeName, ParseError>)
    requires
        room > 0,
    ensures
        parsed_view(r) == parse_slice(s@, room as nat),
    decreases s.len(), s.len() + 1,
{
    let close = chars_of("]");
    if s.len() >= 2 && ends_with_exec(s, &close) {
        let separator = chars_of("; ");
        let end: usize = match rfind_exec(s, &separator) {
            Some(semi) => if 1 <= semi && semi < s.len() {
                semi
            } else {
                s.len() - 1
            },
            None => s.len() - 1,
        };
        let inner = slice_of(s, 1, end);
        match parse_nested_chars(&inner, room - 1) {
            Ok(t) => Ok(TypeName::Slice(Box::new(t))),
            Err(e) => Err(e),
        }
    } else {
        Err(ParseError::BadTypeName)
    }
}

/// The items of the list that `s` starts with, and the index of the `)` that
/// closes it.
fn parse_tuple_chars(s: &Vec<char>, room: usize) -> (r: Result<(Vec<TypeName>, usize), ParseError>)
    requires
        room > 0,
    ensures
        match r {
            Ok((items, close)) => parse_tuple(s@, room as nat) == Ok::<
                (Seq<TypeNameView>, int),
                ParseError,
            >((models(items@), close as int)) && close < s.len(),
            Err(e) => parse_tuple(s@, room as nat) == Err::<(Seq<TypeNameView>, int), ParseError>(
                e,
            ),
        },
    decreases s.len(), s.len() + 1,
{
    if s.len() == 0 || s[0] != '(' {
        return Err(ParseError::MisalignedParenthesis);
    }
    let mut items: Vec<TypeName> = Vec::new();
    let mut depth: usize = 1;
    let mut start: usize = 1;
    let mut i: usize = 1;
    assert(models(items@) =~= Seq::<TypeNameView>::empty());
    while i < s.len()
        invariant
            1 <= start <= i <= s.len(),
            1 <= depth <= i,
            room > 0,
            parse_tuple(s@, room as nat) == tuple_scan(
                s@,
                room as nat,
                start as int,
                i as int,
                depth as int,
                models(items@),
            ),
        decreases s.len() - i,
    {
        let c = s[i];
        if c == ',' && depth == 1 {
            let item = slice_of(s, start, i);
            match parse_nested_chars(&item, room - 1) {
                Ok(t) => {
                    proof {
                        lemma_models_push(items@, t);
                    }
                    items.push(t);
                    start = i + 1;
                },
                Err(e) => {
                    return Err(e);
                },
            }
        } else {
            if c == '(' {
                depth += 1;
            } else if c == ')' {
                depth -= 1;
            }
            if depth == 0 {
                let item = slice_of(s, start, i);
                match parse_nested_chars(&item, room - 1) {
                    Ok(t) => {
                        proof {
                            lemma_models_push(items@, t);
                        }
                        items.push(t);
                        return Ok((items, i));
                    },
                    Err(e) => {
                        return Err(e);
                    },
                }
            }
        }
        i += 1;
    }
    Err(ParseError::MisalignedParenthesis)
}

/// The integer behind an optional index.
pub open spec fn index_view(i: Option<usize>) -> Option<int> {
    match i {
        Some(i) => Some(i as int),
        None => None,
    }
}

/// The bracketed type that `s`, which starts with `<`, spells.
fn angle_chars(s: &Vec<char>, room: usize) -> (r: Result<TypeName, ParseError>)
    requires
        room > 0,
    ensures
        parsed_view(r) == angle_scan(s@, room as nat, 1, 1, None),
    decreases s.len(), s.len() + 1,
{
    if s.len() == 0 {
        return Err(ParseError::BadTypeName);
    }
    let as_token = chars_of(" as ");
    let mut depth: usize = 1;
    let mut as_pos: Option<usize> = None;
    let mut i: usize = 1;
    while i < s.len()
        invariant
            1 <= i <= s.len(),
            1 <= depth <= i,
            as_token@ == " as "@,
            room > 0,
            angle_scan(s@, room as nat, 1, 1, None) == angle_scan(
                s@,
                room as nat,
                i as int,
                depth as int,
                index_view(as_pos),
            ),
        decreases s.len() - i,
    {
        if as_pos.is_none() && depth == 1 && matches_at_exec(s, &as_token, i) {
            as_pos = Some(i);
        }
        let c = s[i];
        if c == '<' {
            depth += 1;
        } else if c == '>' && s[i - 1] != '-' {
            depth -= 1;
        }
        if depth == 0 {
            return angle_close_chars(s, room, i, as_pos);
        }
        i += 1;
    }
    Err(ParseError::BadTypeName)
}

/// The bracketed type whose closing `>` stands at `close`.
fn angle_close_chars(s: &Vec<char>, room: usize, close: usize, as_pos: Option<usize>) -> (r: Result<
    TypeName,
    ParseError,
>)
    requires
        room > 0,
    ensures
        parsed_view(r) == angle_close(s@, room as nat, close as int, index_view(as_pos)),
    decreases s.len(), 0int,
{
    match as_pos {
        Some(a) => {
            if 1 <= a && close >= 4 && a <= close - 4 && close < s.len() {
                let type_text = slice_of(s, 1, a);
                let self_type = match parse_nested_chars(&type_text, room - 1) {
                    Ok(t) => t,
                    Err(e) => {
                        return Err(e);
                    },
                };
                let trait_text = slice_of(s, a + 4, close);
                let trait_name = match parse_nested_chars(&trait_text, room - 1) {
                    Ok(t) => t,
                    Err(e) => {
                        return Err(e);
                    },
                };
                let path_open = chars_of(">::");
                if matches_at_exec(s, &path_open, close) {
                    proof {
                        reveal_strlit(">::");
                    }
                    let item = slice_of(s, close + 3, s.len());
                    assert(item@ =~= s@.skip(close + 3));
                    Ok(
                        TypeName::AssociatedPath {
                            self_type: Box::new(self_type),
                            trait_name: Box::new(trait_name),
                            associated_type: RustPath::from_string(string_of(&item)),
                        },
                    )
                } else {
                    Ok(
                        TypeName::TypeAsTrait {
                            self_type: Box::new(self_type),
                            trait_name: Box::new(trait_name),
                        },
                    )
                }
            } else {
                Err(ParseError::BadTypeName)
            }
        },
        None => {
            if close < s.len() && close + 1 == s.len() && 1 <= close {
                let inner = slice_of(s, 1, close);
                let path = strip_indirections_chars(&inner);
                Ok(TypeName::RustPath(RustPath::from_string(string_of(&path))))
            } else {
                Err(ParseError::UnexpectedTrailing)
            }
        },
    }
}

impl TypeName {
    /// Parses a decoded type name.
    pub fn parse(symbol: &str) -> (r: Result<Self, ParseError>)
        ensures
            parsed_view(r) == parse_type(symbol@),
    {
        let chars = chars_of(symbol);
        parse_chars(&chars)
    }
}

/// `path` up to its first `<`: a path without its generic arguments.
pub open spec fn without_generics(path: Seq<char>) -> Seq<char> {
    match find(path, "<"@) {
        Some(i) if 0 <= i <= path.len() => path.take(i),
        _ => path,
    }
}

/// The module path that a path leaf of a type names: the leaf without leading
/// indirection tokens and without generic arguments.
pub open spec fn unit_path(leaf: Seq<char>) -> Seq<char> {
    without_generics(strip_indirections(leaf))
}

/// The module paths of the path leaves of `t`, from left to right. The name of
/// an associated item belongs to no unit and is left out.
pub open spec fn paths_of(t: TypeNameView) -> Seq<Seq<char>>
    decreases t, 0nat,
{
    match t {
        TypeNameView::RustPath(path) => seq![unit_path(path)],
        TypeNameView::Prefixed { typ, .. } => paths_of(*typ),
        TypeNameView::Slice(element) => paths_of(*element),
        TypeNameView::Tuple(elements) => paths_of_first(elements, elements.len()),
        TypeNameView::TypeAsTrait { self_type, trait_name } => paths_of(*self_type) + paths_of(
            *trait_name,
        ),
        TypeNameView::AssociatedPath { self_type, trait_name, .. } => paths_of(*self_type)
            + paths_of(*trait_name),
        TypeNameView::Fn { params, ret } => paths_of_first(params, params.len()) + (match ret {
            Some(r) => paths_of(*r),
            None => Seq::empty(),
        }),
    }
}

/// The module paths of the first `n` of `ts`, from left to right.
pub open spec fn paths_of_first(ts: Seq<TypeNameView>, n: nat) -> Seq<Seq<char>>
    decreases ts, n,
{
    if n == 0 || n > ts.len() {
        Seq::empty()
    } else {
        paths_of_first(ts, (n - 1) as nat) + paths_of(ts[n - 1])
    }
}

/// The texts of a list of paths.
pub open spec fn path_views(paths: Seq<RustPath>) -> Seq<Seq<char>> {
    paths.map_values(|p: RustPath| p@)
}

/// The text of `path` up to its first `<`.
pub fn without_generics_chars(path: &Vec<char>) -> (r: Vec<char>)
    ensures
        r@ == without_generics(path@),
{
    let open = chars_of("<");
    match find_exec(path, &open) {
        Some(i) => {
            proof {
                crate::text::lemma_find_from(path@, open@, 0);
            }
            slice_of(path, 0, i)
        },
        None => {
            let r = slice_of(path, 0, path.len());
            assert(r@ =~= path@);
            r
        },
    }
}

impl TypeName {
    /// Appends the module paths of this type's path leaves to `paths`.
    pub fn collect_path(&self, paths: &mut Vec<RustPath>)
        ensures
            path_views(final(paths)@) == path_views(old(paths)@) + paths_of(self@),
        decreases self,
    {
        let ghost before = path_views(paths@);
        match self {
            TypeName::RustPath(path) => {
                let chars = chars_of(path.as_str());
                let stripped = strip_indirections_chars(&chars);
                let head = without_generics_chars(&stripped);
                let leaf = RustPath::from_string(string_of(&head));
                paths.push(leaf);
                assert(path_views(paths@) =~= before + seq![leaf@]);
            },
            TypeName::Prefixed { typ, .. } => {
                typ.collect_path(paths);
            },
            TypeName::Slice(element) => {
                element.collect_path(paths);
            },
            TypeName::Tuple(elements) => {
                proof {
                    lemma_tuple_model(*elements);
                }
                collect_paths_of(elements, paths);
            },
            TypeName::TypeAsTrait { self_type, trait_name } => {
                self_type.collect_path(paths);
                trait_name.collect_path(paths);
                assert(path_views(paths@) =~= before + (paths_of(self_type@) + paths_of(
                    trait_name@,
                )));
            },
            TypeName::AssociatedPath { self_type, trait_name, .. } => {
                self_type.collect_path(paths);
                trait_name.collect_path(paths);
                assert(path_views(paths@) =~= before + (paths_of(self_type@) + paths_of(
                    trait_name@,
                )));
            },
            TypeName::Fn { params, ret } => {
                proof {
                    lemma_fn_model(*params, *ret);
                }
                collect_paths_of(params, paths);
                match ret {
                    Some(r) => {
                        r.collect_path(paths);
                        assert(path_views(paths@) =~= before + (paths_of_first(
                            models(params@),
                            params@.len(),
                        ) + paths_of(r@)));
                    },
                    None => {
                        assert(path_views(paths@) =~= before + (paths_of_first(
                            models(params@),
                            params@.len(),
                        ) + Seq::<Seq<char>>::empty()));
                    },
                }
            },
        }
    }
}

/// Appends the module paths of each of `items` to `paths`.
fn collect_paths_of(items: &Vec<TypeName>, paths: &mut Vec<RustPath>)
    ensures
        path_views(final(paths)@) == path_views(old(paths)@) + paths_of_first(
            models(items@),
            items@.len(),
        ),
    decreases items,
{
    let ghost before = path_views(paths@);
    let mut i: usize = 0;
    assert(path_views(paths@) =~= before + paths_of_first(models(items@), 0));
    while i < items.len()
        invariant
            i <= items.len(),
            path_views(paths@) == before + paths_of_first(models(items@), i as nat),
        decreases items.len() - i,
    {
        let ghost so_far = path_views(paths@);
        items[i].collect_path(paths);
        proof {
            assert(models(items@)[i as int] == items@[i as int].model());
            assert(path_views(paths@) =~= before + paths_of_first(models(items@), (i + 1) as nat));
        }
        i += 1;
    }
}

/// A trait-implementation symbol: `<self_type as trait_name>::function_name`.
#[derive(Debug, PartialEq, Eq, PartialOrd, Ord)]
pub struct TraitFnImpl {
    pub self_type: TypeName,
    pub function_name: String,
}

/// What a `TraitFnImpl` stands for.
pub struct TraitFnImplView {
    pub self_type: TypeNameView,
    pub function_name: Seq<char>,
}

impl View for TraitFnImpl {
    type V = TraitFnImplView;

    open spec fn view(&self) -> TraitFnImplView {
        TraitFnImplView { self_type: self.self_type@, function_name: self.function_name@ }
    }
}

/// The view of the result of parsing a trait-implementation symbol.
pub open spec fn parsed_impl_view(r: Result<TraitFnImpl, ParseError>) -> Result<
    TraitFnImplView,
    ParseError,
> {
    match r {
        Ok(t) => Ok(t@),
        Err(e) => Err(e),
    }
}

/// The trait implementation that `s` spells: the type up to and with the `>`
/// of the last `>::`, and the function name behind it.
pub open spec fn parse_trait_impl(s: Seq<char>) -> Result<TraitFnImplView, ParseError> {
    match rfind(s, ">::"@) {
        Some(pos) if 0 <= pos && pos + 3 <= s.len() => match parse_type(s.take(pos + 1)) {
            Ok(t) => Ok(TraitFnImplView { self_type: t, function_name: s.skip(pos + 3) }),
            Err(e) => Err(e),
        },
        _ => Err(ParseError::NotATraitImpl),
    }
}

impl TraitFnImpl {
    /// Parses a decoded symbol as a trait implementation.
    pub fn parse(symbol: &str) -> (r: Result<Self, ParseError>)
        ensures
            parsed_impl_view(r) == parse_trait_impl(symbol@),
    {
        let chars = chars_of(symbol);
        let path_open = chars_of(">::");
        match rfind_exec(&chars, &path_open) {
            Some(pos) => {
                proof {
                    reveal_strlit(">::");
                    assert(path_open@.len() == 3);
                    crate::text::lemma_rfind_below(chars@, path_open@, chars@.len() as int + 1);
                }
                let len = chars.len();
                let type_text = slice_of(&chars, 0, pos + 1);
                assert(type_text@ =~= chars@.take(pos + 1));
                let name_text = slice_of(&chars, pos + 3, len);
                assert(name_text@ =~= chars@.skip(pos + 3));
                match parse_chars(&type_text) {
                    Ok(self_type) => Ok(
                        TraitFnImpl { self_type, function_name: string_of(&name_text) },
                    ),
                    Err(e) => Err(e),
                }
            },
            None => Err(ParseError::NotATraitImpl),
        }
    }

    /// The module paths named by the implementing type and by the trait.
    pub fn paths(&self) -> (r: Vec<RustPath>)
        ensures
            path_views(r@) == paths_of(self@.self_type),
    {
        let mut paths: Vec<RustPath> = Vec::new();
        self.self_type.collect_path(&mut paths);
        assert(path_views(paths@) =~= paths_of(self@.self_type));
        paths
    }
}

/// The text of a type: a path as it is, a prefix in front of its type, a
/// slice in square brackets, a tuple in parentheses with `, ` between its
/// items, a type seen as a trait in angle brackets, and a function type with
/// its result behind ` -> `.
pub open spec fn rendered(t: TypeNameView) -> Seq<char>
    decreases t, 0nat,
{
    match t {
        TypeNameView::RustPath(path) => path,
        TypeNameView::Prefixed { prefix, typ } => prefix + rendered(*typ),
        TypeNameView::Slice(element) => "["@ + rendered(*element) + "]"@,
        TypeNameView::Tuple(elements) => "("@ + rendered_first(elements, elements.len()) + ")"@,
        TypeNameView::TypeAsTrait { self_type, trait_name } => "<"@ + rendered(*self_type) + " as "@
            + rendered(*trait_name) + ">"@,
        TypeNameView::AssociatedPath { self_type, trait_name, associated_type } => "<"@ + rendered(
            *self_type,
        ) + " as "@ + rendered(*trait_name) + ">::"@ + associated_type,
        TypeNameView::Fn { params, ret } => "fn("@ + rendered_first(params, params.len()) + ")"@ + (
        match ret {
            Some(r) => " -> "@ + rendered(*r),
            None => Seq::empty(),
        }),
    }
}

/// The texts of the first `n` of `ts`, with `, ` between them.
pub open spec fn rendered_first(ts: Seq<TypeNameView>, n: nat) -> Seq<char>
    decreases ts, n,
{
    if n == 0 || n > ts.len() {
        Seq::empty()
    } else if n == 1 {
        rendered(ts[0])
    } else {
        rendered_first(ts, (n - 1) as nat) + ", "@ + rendered(ts[n - 1])
    }
}

/// The text of a trait implementation: its type, `::` and the function name.
pub open spec fn rendered_impl(t: TraitFnImplView) -> Seq<char> {
    rendered(t.self_type) + "::"@ + t.function_name
}

impl TypeName {
    /// Appends the text of the type to `out`.
    pub fn render_into(&self, out: &mut Vec<char>)
        ensures
            final(out)@ == old(out)@ + rendered(self@),
        decreases self,
    {
        let ghost before = out@;
        match self {
            TypeName::RustPath(path) => {
                crate::text::append_chars(out, &chars_of(path.as_str()));
            },
            TypeName::Prefixed { prefix, typ } => {
                crate::text::append_chars(out, &chars_of(prefix.as_str()));
                typ.render_into(out);
                assert(out@ =~= before + (prefix@ + rendered(typ@)));
            },
            TypeName::Slice(element) => {
                crate::text::append_chars(out, &chars_of("["));
                element.render_into(out);
                crate::text::append_chars(out, &chars_of("]"));
                assert(out@ =~= before + ("["@ + rendered(element@) + "]"@));
            },
            TypeName::Tuple(elements) => {
                proof {
                    lemma_tuple_model(*elements);
                }
                crate::text::append_chars(out, &chars_of("("));
                render_all(elements, out);
                crate::text::append_chars(out, &chars_of(")"));
                assert(out@ =~= before + ("("@ + rendered_first(
                    models(elements@),
                    elements@.len(),
                ) + ")"@));
            },
            TypeName::TypeAsTrait { self_type, trait_name } => {
                crate::text::append_chars(out, &chars_of("<"));
                self_type.render_into(out);
                crate::text::append_chars(out, &chars_of(" as "));
                trait_name.render_into(out);
                crate::text::append_chars(out, &chars_of(">"));
                assert(out@ =~= before + ("<"@ + rendered(self_type@) + " as "@ + rendered(
                    trait_name@,
                ) + ">"@));
            },
            TypeName::AssociatedPath { self_type, trait_name, associated_type } => {
                crate::text::append_chars(out, &chars_of("<"));
                self_type.render_into(out);
                crate::text::append_chars(out, &chars_of(" as "));
                trait_name.render_into(out);
                crate::text::append_chars(out, &chars_of(">::"));
                crate::text::append_chars(out, &chars_of(associated_type.as_str()));
                assert(out@ =~= before + ("<"@ + rendered(self_type@) + " as "@ + rendered(
                    trait_name@,
                ) + ">::"@ + associated_type@));
            },
            TypeName::Fn { params, ret } => {
                proof {
                    lemma_fn_model(*params, *ret);
                }
                crate::text::append_chars(out, &chars_of("fn("));
                render_all(params, out);
                crate::text::append_chars(out, &chars_of(")"));
                match ret {
                    Some(r) => {
                        crate::text::append_chars(out, &chars_of(" -> "));
                        r.render_into(out);
                        assert(out@ =~= before + ("fn("@ + rendered_first(
                            models(params@),
                            params@.len(),
                        ) + ")"@ + (" -> "@ + rendered(r@))));
                    },
                    None => {
                        assert(out@ =~= before + ("fn("@ + rendered_first(
                            models(params@),
                            params@.len(),
                        ) + ")"@ + Seq::<char>::empty()));
                    },
                }
            },
        }
    }

    /// The text of the type.
    pub fn to_string(&self) -> (r: String)
        ensures
            r@ == rendered(self@),
    {
        let mut out: Vec<char> = Vec::new();
        self.render_into(&mut out);
        assert(out@ =~= rendered(self@));
        string_of(&out)
    }
}

/// Appends the texts of `items` to `out`, with `, ` between them.
fn render_all(items: &Vec<TypeName>, out: &mut Vec<char>)
    ensures
        final(out)@ == old(out)@ + rendered_first(models(items@), items@.len()),
    decreases items,
{
    let ghost before = out@;
    let mut i: usize = 0;
    assert(out@ =~= before + rendered_first(models(items@), 0));
    while i < items.len()
        invariant
            i <= items.len(),
            out@ == before + rendered_first(models(items@), i as nat),
        decreases items.len() - i,
    {
        let ghost so_far = rendered_first(models(items@), i as nat);
        if i > 0 {
            crate::text::append_chars(out, &chars_of(", "));
        }
        items[i].render_into(out);
        proof {
            assert(models(items@)[i as int] == items@[i as int].model());
            if i == 0 {
                assert(out@ =~= before + rendered(items@[0].model()));
            } else {
                assert(out@ =~= before + (so_far + ", "@ + rendered(items@[i as int].model())));
            }
        }
        i += 1;
    }
}

impl TraitFnImpl {
    /// The text of the trait implementation.
    pub fn to_string(&self) -> (r: String)
        ensures
            r@ == rendered_impl(self@),
    {
        let mut out: Vec<char> = Vec::new();
        self.self_type.render_into(&mut out);
        crate::text::append_chars(&mut out, &chars_of("::"));
        crate::text::append_chars(&mut out, &chars_of(self.function_name.as_str()));
        assert(out@ =~= rendered_impl(self@));
        string_of(&out)
    }
}

} // verus!
