//! What the source of a build script tells: the paths that it uses.

use vstd::prelude::*;
use crate::capability::Capability;
use crate::reason::{with_reason, CapsMap, Reason, ReasonView};
use crate::rust_path::{path_sep, pushed, segments_of, RustPath};
use crate::sets::{inserted, UniqueVec};
use crate::text::{append_chars, chars_of, join, join_exec, piece_views, str_eq, string_of};

verus! {

/// What was found in a source file.
#[derive(Debug, PartialEq, Eq)]
pub struct ParsedRust {
    /// All full (absolute) paths we detected.
    pub all_paths: UniqueVec<RustPath>,
    /// All capabilities we detected.
    pub capabilities: CapsMap,
}

/// A name that a `use` item brought in: `ident` is short for `path`.
#[derive(Debug, PartialEq, Eq)]
pub struct Import {
    /// This is short for…
    pub ident: String,
    /// …all of this.
    pub path: RustPath,
}

/// What an `Import` stands for.
pub struct ImportView {
    pub ident: Seq<char>,
    pub path: Seq<char>,
}

impl View for Import {
    type V = ImportView;

    open spec fn view(&self) -> ImportView {
        ImportView { ident: self.ident@, path: self.path@ }
    }
}

/// The views of a list of imports.
pub open spec fn import_views(imports: Seq<Import>) -> Seq<ImportView> {
    imports.map_values(|i: Import| i@)
}

/// Index of the first of `imports[..n]` that is named `ident`.
pub open spec fn import_of(imports: Seq<ImportView>, ident: Seq<char>, n: nat) -> Option<int>
    decreases n,
{
    if n == 0 || n > imports.len() {
        None
    } else {
        match import_of(imports, ident, (n - 1) as nat) {
            Some(i) => Some(i),
            None => if imports[n - 1].ident == ident {
                Some(n - 1)
            } else {
                None
            },
        }
    }
}

/// The full path that the segments `segments` stand for, if they name one.
///
/// Where the first segment is an import, it stands for the imported path.
/// Without an import a single segment names a local and no path, and more
/// segments are taken to be a full path already.
pub open spec fn resolved_path(imports: Seq<ImportView>, segments: Seq<Seq<char>>) -> Option<
    Seq<char>,
> {
    if segments.len() == 0 {
        None
    } else {
        match import_of(imports, segments[0], imports.len()) {
            Some(i) => Some(join(segments_of(imports[i].path) + segments.drop_first(), path_sep())),
            None => if segments.len() < 2 {
                None
            } else {
                Some(join(segments, path_sep()))
            },
        }
    }
}

/// The text of a path that may be missing.
pub open spec fn path_view(path: Option<RustPath>) -> Option<Seq<char>> {
    match path {
        Some(p) => Some(p@),
        None => None,
    }
}

/// The texts of a list of segments.
pub open spec fn segment_views(segments: Seq<String>) -> Seq<Seq<char>> {
    segments.map_values(|s: String| s@)
}

/// Once an import was found among the first `n`, it is found among any more.
pub proof fn lemma_import_rest(imports: Seq<ImportView>, ident: Seq<char>, n: nat, m: nat)
    requires
        n <= m <= imports.len(),
        import_of(imports, ident, n) is Some,
    ensures
        import_of(imports, ident, m) == import_of(imports, ident, n),
    decreases m - n,
{
    if n < m {
        lemma_import_rest(imports, ident, n, (m - 1) as nat);
    }
}

/// Resolves the path of the segments `segments` with the imports at hand.
pub fn process_path(imports: &Vec<Import>, segments: &Vec<String>) -> (r: Option<RustPath>)
    ensures
        path_view(r) == resolved_path(import_views(imports@), segment_views(segments@)),
{
    let ghost views = import_views(imports@);
    let ghost names = segment_views(segments@);
    if segments.len() == 0 {
        return None;
    }
    assert(names[0] == segments@[0]@);
    let mut i: usize = 0;
    while i < imports.len()
        invariant
            i <= imports.len(),
            segments.len() > 0,
            views == import_views(imports@),
            names == segment_views(segments@),
            import_of(views, names[0], i as nat) is None,
        decreases imports.len() - i,
    {
        assert(views[i as int] == imports@[i as int]@);
        if str_eq(imports[i].ident.as_str(), segments[0].as_str()) {
            proof {
                lemma_import_rest(views, names[0], (i + 1) as nat, views.len());
            }
            let head = imports[i].path.segments();
            let mut all: Vec<String> = Vec::new();
            let mut k: usize = 0;
            assert(segment_views(all@) =~= segments_of(imports@[i as int].path@).take(0));
            while k < head.len()
                invariant
                    k <= head@.len(),
                    head@.map_values(|s: &str| s@) == segments_of(imports@[i as int].path@),
                    segment_views(all@) == segments_of(imports@[i as int].path@).take(k as int),
                decreases head@.len() - k,
            {
                let ghost before = segment_views(all@);
                let piece = head[k].to_owned();
                all.push(piece);
                proof {
                    let wanted = segments_of(imports@[i as int].path@);
                    assert(wanted[k as int] == head@[k as int]@);
                    assert(segment_views(all@) =~= before.push(piece@));
                    assert(wanted.take(k + 1) =~= wanted.take(k as int).push(wanted[k as int]));
                }
                k += 1;
            }
            let ghost front = segment_views(all@);
            proof {
                let wanted = segments_of(imports@[i as int].path@);
                assert(wanted.take(wanted.len() as int) =~= wanted);
            }
            let mut j: usize = 1;
            assert(segment_views(all@) =~= front + names.subrange(1, 1));
            while j < segments.len()
                invariant
                    1 <= j <= segments.len(),
                    names == segment_views(segments@),
                    segment_views(all@) == front + names.subrange(1, j as int),
                decreases segments.len() - j,
            {
                let ghost before = segment_views(all@);
                let piece = segments[j].clone();
                all.push(piece);
                proof {
                    assert(names[j as int] == segments@[j as int]@);
                    assert(segment_views(all@) =~= before.push(piece@));
                    assert(front + names.subrange(1, j + 1) =~= (front + names.subrange(
                        1,
                        j as int,
                    )).push(names[j as int]));
                }
                j += 1;
            }
            assert(names.subrange(1, names.len() as int) =~= names.drop_first());
            return Some(RustPath::from_segments(all));
        }
        i += 1;
    }
    if segments.len() < 2 {
        None
    } else {
        let mut all: Vec<String> = Vec::new();
        let mut j: usize = 0;
        assert(segment_views(all@) =~= names.take(0));
        while j < segments.len()
            invariant
                j <= segments.len(),
                names == segment_views(segments@),
                segment_views(all@) == names.take(j as int),
            decreases segments.len() - j,
        {
            let ghost before = segment_views(all@);
            let piece = segments[j].clone();
            all.push(piece);
            proof {
                assert(names[j as int] == segments@[j as int]@);
                assert(segment_views(all@) =~= before.push(piece@));
                assert(names.take(j + 1) =~= names.take(j as int).push(names[j as int]));
            }
            j += 1;
        }
        assert(names.take(names.len() as int) =~= names);
        Some(RustPath::from_segments(all))
    }
}

/// What stands behind `use`.
#[derive(Debug, PartialEq, Eq)]
pub enum UseTree {
    /// `ident::tree`
    Path(String, Box<UseTree>),
    /// `ident`
    Name(String),
    /// `ident as rename`
    Rename(String, String),
    /// `*`
    Glob,
    /// `{tree, tree}`
    Group(Vec<UseTree>),
}

/// What a `UseTree` stands for: the same tree over character sequences.
pub enum UseTreeView {
    Path(Seq<char>, Box<UseTreeView>),
    Name(Seq<char>),
    Rename(Seq<char>, Seq<char>),
    Glob,
    Group(Seq<UseTreeView>),
}

/// The views of a list of trees.
pub open spec fn tree_models(v: Seq<UseTree>) -> Seq<UseTreeView> {
    Seq::new(v.len(), |i: int| v[i].model())
}

/// A group's view holds the views of its trees.
pub proof fn lemma_group_model(v: Vec<UseTree>)
    ensures
        UseTree::Group(v).model() == UseTreeView::Group(tree_models(v@)),
{
    let m = UseTree::Group(v).model();
    assert(m is Group);
    assert(m->Group_0 =~= tree_models(v@));
}

impl UseTree {
    /// The tree that this stands for.
    pub open spec fn model(self) -> UseTreeView
        decreases self,
    {
        match self {
            UseTree::Path(ident, tree) => UseTreeView::Path(ident@, Box::new((*tree).model())),
            UseTree::Name(ident) => UseTreeView::Name(ident@),
            UseTree::Rename(ident, rename) => UseTreeView::Rename(ident@, rename@),
            UseTree::Glob => UseTreeView::Glob,
            UseTree::Group(items) => UseTreeView::Group(
                Seq::new(
                    items@.len(),
                    |i: int|
                        if 0 <= i < items@.len() {
                            items@[i].model()
                        } else {
                            arbitrary()
                        },
                ),
            ),
        }
    }
}

impl View for UseTree {
    type V = UseTreeView;

    open spec fn view(&self) -> UseTreeView {
        self.model()
    }
}

/// What was found in the source files that were read so far.
#[derive(Debug, PartialEq, Eq)]
pub struct ScanState {
    /// All full (absolute) paths we detected.
    pub all_paths: UniqueVec<RustPath>,
    /// Where there was anything that is not understood. With anything in
    /// here, the source cannot be trusted.
    pub unsupported: Vec<String>,
    /// Capabilities we detected in the code.
    pub capabilities: CapsMap,
    /// The names that the `use` items of the file at hand brought in.
    pub imports: Vec<Import>,
}

/// What a `ScanState` stands for.
pub struct ScanView {
    pub all_paths: Seq<Seq<char>>,
    pub unsupported: Seq<Seq<char>>,
    pub capabilities: Map<Capability, Seq<ReasonView>>,
    pub imports: Seq<ImportView>,
}

impl View for ScanState {
    type V = ScanView;

    open spec fn view(&self) -> ScanView {
        ScanView {
            all_paths: self.all_paths@,
            unsupported: segment_views(self.unsupported@),
            capabilities: self.capabilities@,
            imports: import_views(self.imports@),
        }
    }
}

/// Nothing found.
pub open spec fn nothing_scanned() -> ScanView {
    ScanView {
        all_paths: Seq::empty(),
        unsupported: Seq::empty(),
        capabilities: Map::empty(),
        imports: Seq::empty(),
    }
}

/// The last segment of `path`; the empty text where it has none.
pub open spec fn last_segment(path: Seq<char>) -> Seq<char> {
    if segments_of(path).len() == 0 {
        Seq::empty()
    } else {
        segments_of(path).last()
    }
}

/// What is found once a `use` tree was read that stands behind `prefix`.
///
/// A name is short for the path that leads to it, `self` for the path that
/// it stands behind, and a new name for the path that it renames. An
/// asterisk makes its path one that is used.
pub open spec fn use_noted(state: ScanView, prefix: Seq<char>, tree: UseTreeView) -> ScanView
    decreases tree, 0nat,
{
    match tree {
        UseTreeView::Path(ident, rest) => use_noted(state, pushed(prefix, ident), *rest),
        UseTreeView::Name(ident) => if ident == "self"@ {
            ScanView {
                imports: state.imports.push(
                    ImportView { ident: last_segment(prefix), path: prefix },
                ),
                ..state
            }
        } else {
            ScanView {
                imports: state.imports.push(ImportView { ident, path: pushed(prefix, ident) }),
                ..state
            }
        },
        UseTreeView::Rename(ident, rename) => ScanView {
            imports: state.imports.push(ImportView { ident: rename, path: pushed(prefix, ident) }),
            ..state
        },
        UseTreeView::Glob => ScanView { all_paths: inserted(state.all_paths, prefix), ..state },
        UseTreeView::Group(items) => uses_noted(state, prefix, items, items.len()),
    }
}

/// What is found once the first `n` of `items` were read, each behind
/// `prefix`.
pub open spec fn uses_noted(
    state: ScanView,
    prefix: Seq<char>,
    items: Seq<UseTreeView>,
    n: nat,
) -> ScanView
    decreases items, n,
{
    if n == 0 || n > items.len() {
        state
    } else {
        use_noted(uses_noted(state, prefix, items, (n - 1) as nat), prefix, items[n - 1])
    }
}

/// What is found once the path with the segments `segments` was seen: the
/// full path that they stand for, if they name one.
pub open spec fn path_noted(state: ScanView, segments: Seq<Seq<char>>) -> ScanView {
    match resolved_path(state.imports, segments) {
        Some(path) => ScanView { all_paths: inserted(state.all_paths, path), ..state },
        None => state,
    }
}

/// The complaint about source that is not understood at `places`.
pub open spec fn complaint(places: Seq<Seq<char>>) -> Seq<char> {
    "Source code contained syntax that cargo-caps is too dumb to understand: "@ + join(
        places,
        ", "@,
    )
}

impl ScanState {
    /// No path is held twice, and no reason.
    pub open spec fn wf(&self) -> bool {
        self.all_paths.wf() && self.capabilities.wf()
    }

    /// Nothing found.
    pub fn new() -> (r: Self)
        ensures
            r.wf(),
            r@ == nothing_scanned(),
    {
        let r = ScanState {
            all_paths: UniqueVec::new(),
            unsupported: Vec::new(),
            capabilities: CapsMap::new(),
            imports: Vec::new(),
        };
        assert(segment_views(r.unsupported@) =~= Seq::<Seq<char>>::empty());
        assert(import_views(r.imports@) =~= Seq::<ImportView>::empty());
        r
    }

    /// Takes note of the import `ident` for `path`.
    fn import(&mut self, ident: String, path: RustPath)
        requires
            old(self).wf(),
        ensures
            final(self).wf(),
            final(self)@ == (ScanView {
                imports: old(self)@.imports.push(ImportView { ident: ident@, path: path@ }),
                ..old(self)@
            }),
    {
        let import = Import { ident, path };
        self.imports.push(import);
        assert(import_views(self.imports@) =~= import_views(old(self).imports@).push(import@));
    }

    /// Reads a `use` tree that stands behind `prefix`.
    pub fn visit_use_tree(&mut self, prefix: RustPath, use_tree: &UseTree)
        requires
            old(self).wf(),
        ensures
            final(self).wf(),
            final(self)@ == use_noted(old(self)@, prefix@, use_tree@),
        decreases use_tree,
    {
        match use_tree {
            UseTree::Path(ident, tree) => {
                self.visit_use_tree(prefix.with_segment(ident.as_str()), tree);
            },
            UseTree::Name(ident) => {
                if str_eq(ident.as_str(), "self") {
                    let segments = prefix.segments();
                    let last = if segments.len() == 0 {
                        String::new()
                    } else {
                        segments[segments.len() - 1].to_owned()
                    };
                    self.import(last, prefix);
                } else {
                    let full_path = prefix.with_segment(ident.as_str());
                    self.import(ident.clone(), full_path);
                }
            },
            UseTree::Rename(ident, rename) => {
                let full_path = prefix.with_segment(ident.as_str());
                self.import(rename.clone(), full_path);
            },
            UseTree::Glob => {
                self.all_paths.insert(prefix);
            },
            UseTree::Group(items) => {
                proof {
                    lemma_group_model(*items);
                }
                visit_use_group(self, &prefix, items);
            },
        }
    }

    /// Takes note of a path that was seen, given by its segments.
    pub fn note_path(&mut self, segments: &Vec<String>)
        requires
            old(self).wf(),
        ensures
            final(self).wf(),
            final(self)@ == path_noted(old(self)@, segment_views(segments@)),
    {
        match process_path(&self.imports, segments) {
            Some(path) => {
                self.all_paths.insert(path);
            },
            None => {},
        }
    }

    /// Takes note that unsafe code was seen.
    pub fn note_unsafe(&mut self)
        requires
            old(self).wf(),
        ensures
            final(self).wf(),
            final(self)@ == (ScanView {
                capabilities: with_reason(
                    old(self)@.capabilities,
                    Capability::Unsafe,
                    ReasonView::SourceCodeAnalysis,
                ),
                ..old(self)@
            }),
    {
        self.capabilities.add(Capability::Unsafe, Reason::SourceCodeAnalysis);
    }

    /// Takes note that what stands at `place` is not understood.
    pub fn note_unsupported(&mut self, place: String)
        requires
            old(self).wf(),
        ensures
            final(self).wf(),
            final(self)@ == (ScanView {
                unsupported: old(self)@.unsupported.push(place@),
                ..old(self)@
            }),
    {
        self.unsupported.push(place);
        assert(segment_views(self.unsupported@) =~= segment_views(old(self).unsupported@).push(
            place@,
        ));
    }

    /// Ends the reading of one file: the names that it imported hold no
    /// longer. Source that was not understood anywhere is an error, so that
    /// the caller assumes the worst.
    pub fn end_file(&mut self) -> (r: Result<(), String>)
        requires
            old(self).wf(),
        ensures
            final(self).wf(),
            final(self)@ == (ScanView { imports: Seq::empty(), ..old(self)@ }),
            match r {
                Ok(()) => old(self)@.unsupported.len() == 0,
                Err(message) => old(self)@.unsupported.len() > 0 && message@ == complaint(
                    old(self)@.unsupported,
                ),
            },
    {
        self.imports = Vec::new();
        assert(import_views(self.imports@) =~= Seq::<ImportView>::empty());
        if self.unsupported.len() == 0 {
            Ok(())
        } else {
            let mut places: Vec<Vec<char>> = Vec::new();
            let mut i: usize = 0;
            assert(piece_views(places@) =~= segment_views(self.unsupported@).take(0));
            while i < self.unsupported.len()
                invariant
                    i <= self.unsupported.len(),
                    piece_views(places@) == segment_views(self.unsupported@).take(i as int),
                decreases self.unsupported.len() - i,
            {
                let ghost before = piece_views(places@);
                let place = chars_of(self.unsupported[i].as_str());
                places.push(place);
                proof {
                    let all = segment_views(self.unsupported@);
                    assert(all[i as int] == self.unsupported@[i as int]@);
                    assert(piece_views(places@) =~= before.push(place@));
                    assert(all.take(i + 1) =~= all.take(i as int).push(all[i as int]));
                }
                i += 1;
            }
            proof {
                let all = segment_views(self.unsupported@);
                assert(all.take(all.len() as int) =~= all);
            }
            let mut message = chars_of(
                "Source code contained syntax that cargo-caps is too dumb to understand: ",
            );
            append_chars(&mut message, &join_exec(&places, &chars_of(", ")));
            Err(string_of(&message))
        }
    }

    /// What was found in all the files that were read.
    pub fn into_parsed(self) -> (r: ParsedRust)
        requires
            self.wf(),
        ensures
            r.all_paths.wf(),
            r.capabilities.wf(),
            r.all_paths@ == self@.all_paths,
            r.capabilities@ == self@.capabilities,
    {
        ParsedRust { all_paths: self.all_paths, capabilities: self.capabilities }
    }
}

/// Reads the trees of a group, each behind `prefix`.
fn visit_use_group(state: &mut ScanState, prefix: &RustPath, items: &Vec<UseTree>)
    requires
        old(state).wf(),
    ensures
        final(state).wf(),
        final(state)@ == uses_noted(old(state)@, prefix@, tree_models(items@), items@.len()),
    decreases items,
{
    let mut i: usize = 0;
    while i < items.len()
        invariant
            i <= items.len(),
            state.wf(),
            state@ == uses_noted(old(state)@, prefix@, tree_models(items@), i as nat),
        decreases items.len() - i,
    {
        assert(tree_models(items@)[i as int] == items@[i as int].model());
        state.visit_use_tree(prefix.clone(), &items[i]);
        i += 1;
    }
}

impl Default for ScanState {
    fn default() -> (r: Self)
        ensures
            r.wf(),
            r@ == nothing_scanned(),
    {
        ScanState::new()
    }
}

} // verus!
