//! Symbols arranged in a tree by crate and module.

use vstd::prelude::*;
use crate::crate_name::{is_standard, is_standard_crate};
use crate::rust_path::{segments_of, RustPath};
use crate::rust_type::{
    parse_trait_impl, paths_of, path_views, rendered_impl, TraitFnImpl,
};
use crate::sets::{lemma_position_of, lemma_position_rest, position, position_of, with_slot};
use crate::symbol::{symbol_views, Symbol, SymbolView};
use crate::text::{chars_of, contains, find, find_exec, lemma_find_from, slice_of, starts_with_exec, str_eq, string_of};

verus! {

/// A tree of symbols: a symbol, or named children in the order in which they
/// came, each name once.
#[derive(Debug, PartialEq, Eq)]
pub enum Tree {
    Leaf(Symbol),
    Node(Vec<(String, Tree)>),
}

/// What a `Tree` stands for.
pub enum TreeView {
    Leaf(SymbolView),
    Node(Seq<(Seq<char>, TreeView)>),
}

/// The views of a list of named trees.
pub open spec fn children_views(children: Seq<(String, Tree)>) -> Seq<(Seq<char>, TreeView)> {
    Seq::new(children.len(), |i: int| (children[i].0@, children[i].1.model()))
}

impl Tree {
    /// The tree that this tree stands for.
    pub open spec fn model(self) -> TreeView
        decreases self,
    {
        match self {
            Tree::Leaf(symbol) => TreeView::Leaf(symbol@),
            Tree::Node(children) => TreeView::Node(
                Seq::new(
                    children@.len(),
                    |i: int|
                        if 0 <= i < children@.len() {
                            (children@[i].0@, children@[i].1.model())
                        } else {
                            arbitrary()
                        },
                ),
            ),
        }
    }
}

impl View for Tree {
    type V = TreeView;

    open spec fn view(&self) -> TreeView {
        self.model()
    }
}

/// A node's view holds the views of its children.
pub proof fn lemma_node_model(children: Vec<(String, Tree)>)
    ensures
        Tree::Node(children).model() == TreeView::Node(children_views(children@)),
{
    let m = Tree::Node(children).model();
    assert(m is Node);
    assert(m->Node_0 =~= children_views(children@));
}

/// The number of symbols in a tree.
pub open spec fn leaves(tree: TreeView) -> nat
    decreases tree, 0nat,
{
    match tree {
        TreeView::Leaf(_) => 1,
        TreeView::Node(children) => leaves_of_first(children, children.len()),
    }
}

/// The number of symbols in the first `n` of `children`.
pub open spec fn leaves_of_first(children: Seq<(Seq<char>, TreeView)>, n: nat) -> nat
    decreases children, n,
{
    if n == 0 || n > children.len() {
        0
    } else {
        leaves_of_first(children, (n - 1) as nat) + leaves(children[n - 1].1)
    }
}

/// `n`, or the greatest `usize` where `n` exceeds it.
pub open spec fn capped(n: nat) -> usize {
    if n <= usize::MAX {
        n as usize
    } else {
        usize::MAX
    }
}

impl Tree {
    /// The empty tree.
    pub fn new() -> (r: Self)
        ensures
            r@ == TreeView::Node(Seq::empty()),
    {
        let children: Vec<(String, Tree)> = Vec::new();
        proof {
            lemma_node_model(children);
            assert(children_views(children@) =~= Seq::<(Seq<char>, TreeView)>::empty());
        }
        Tree::Node(children)
    }

    /// Whether the tree is a single symbol.
    pub fn is_leaf(&self) -> (r: bool)
        ensures
            r == (self@ is Leaf),
    {
        match self {
            Tree::Leaf(_) => true,
            Tree::Node(_) => false,
        }
    }

    /// The number of symbols in this tree; the greatest `usize` where there
    /// are more.
    pub fn symbol_count(&self) -> (r: usize)
        ensures
            r == capped(leaves(self@)),
        decreases self,
    {
        match self {
            Tree::Leaf(_) => 1,
            Tree::Node(children) => {
                proof {
                    lemma_node_model(*children);
                }
                count_symbols(children)
            },
        }
    }

    /// A copy of the tree.
    pub fn duplicate(&self) -> (r: Self)
        ensures
            r@ == self@,
        decreases self,
    {
        match self {
            Tree::Leaf(symbol) => Tree::Leaf(symbol.clone()),
            Tree::Node(children) => {
                let copies = duplicate_children(children);
                proof {
                    lemma_node_model(*children);
                    lemma_node_model(copies);
                }
                Tree::Node(copies)
            },
        }
    }
}

/// The number of symbols in `children`; the greatest `usize` where there are
/// more.
fn count_symbols(children: &Vec<(String, Tree)>) -> (r: usize)
    ensures
        r == capped(leaves_of_first(children_views(children@), children@.len())),
    decreases children,
{
    let ghost views = children_views(children@);
    let mut total: usize = 0;
    let mut i: usize = 0;
    while i < children.len()
        invariant
            i <= children.len(),
            views == children_views(children@),
            total == capped(leaves_of_first(views, i as nat)),
        decreases children.len() - i,
    {
        let count = children[i].1.symbol_count();
        assert(views[i as int].1 == children@[i as int].1.model());
        total = if count > usize::MAX - total {
            usize::MAX
        } else {
            total + count
        };
        i += 1;
    }
    total
}

/// Copies of `children`.
fn duplicate_children(children: &Vec<(String, Tree)>) -> (r: Vec<(String, Tree)>)
    ensures
        children_views(r@) == children_views(children@),
    decreases children,
{
    let mut copies: Vec<(String, Tree)> = Vec::new();
    let mut i: usize = 0;
    while i < children.len()
        invariant
            i <= children.len(),
            children_views(copies@) == children_views(children@).take(i as int),
        decreases children.len() - i,
    {
        let ghost before = children_views(copies@);
        let copy = (children[i].0.clone(), children[i].1.duplicate());
        copies.push(copy);
        proof {
            assert(children_views(copies@) =~= before.push((copy.0@, copy.1.model())));
            assert(children_views(children@).take(i + 1) =~= children_views(children@).take(
                i as int,
            ).push(children_views(children@)[i as int]));
        }
        i += 1;
    }
    proof {
        assert(children_views(children@).take(children@.len() as int) =~= children_views(
            children@,
        ));
    }
    copies
}

/// A named tree can be swapped against another in place.
pub fn swap_child(children: &mut Vec<(String, Tree)>, i: usize, tree: Tree) -> (r: Tree)
    requires
        i < old(children)@.len(),
    ensures
        final(children)@.len() == old(children)@.len(),
        r == old(children)@[i as int].1,
        final(children)@ == old(children)@.update(i as int, (old(children)@[i as int].0, tree)),
{
    let mut held = tree;
    std::mem::swap(&mut children[i].1, &mut held);
    held
}

/// `children` with `tree` under `name`, in place of what was under it.
pub open spec fn put(
    children: Seq<(Seq<char>, TreeView)>,
    name: Seq<char>,
    tree: TreeView,
) -> Seq<(Seq<char>, TreeView)> {
    match position(children, name) {
        Some(i) => children.update(i, (name, tree)),
        None => children.push((name, tree)),
    }
}

/// Updating a child updates its view.
pub proof fn lemma_children_update(children: Seq<(String, Tree)>, i: int, name: String, tree: Tree)
    requires
        0 <= i < children.len(),
    ensures
        children_views(children.update(i, (name, tree))) == children_views(children).update(
            i,
            (name@, tree.model()),
        ),
{
    assert(children_views(children.update(i, (name, tree))) =~= children_views(children).update(
        i,
        (name@, tree.model()),
    ));
}

/// Pushing a child pushes its view.
pub proof fn lemma_children_push(children: Seq<(String, Tree)>, name: String, tree: Tree)
    ensures
        children_views(children.push((name, tree))) == children_views(children).push(
            (name@, tree.model()),
        ),
{
    assert(children_views(children.push((name, tree))) =~= children_views(children).push(
        (name@, tree.model()),
    ));
}

/// Index of the child named `name`.
pub fn child_index(children: &Vec<(String, Tree)>, name: &str) -> (r: Option<usize>)
    ensures
        match r {
            Some(i) => position(children_views(children@), name@) == Some(i as int) && i
                < children@.len(),
            None => position(children_views(children@), name@) is None,
        },
{
    let ghost views = children_views(children@);
    let mut i: usize = 0;
    while i < children.len()
        invariant
            i <= children.len(),
            views == children_views(children@),
            position_of(views, name@, i as nat) is None,
        decreases children.len() - i,
    {
        assert(views[i as int].0 == children@[i as int].0@);
        if str_eq(children[i].0.as_str(), name) {
            proof {
                lemma_position_rest(views, name@, (i + 1) as nat, views.len());
            }
            return Some(i);
        }
        i += 1;
    }
    None
}

/// Puts `tree` under `name`, in place of what was under it.
pub fn put_child(children: &mut Vec<(String, Tree)>, name: String, tree: Tree)
    ensures
        children_views(final(children)@) == put(children_views(old(children)@), name@, tree@),
{
    match child_index(children, name.as_str()) {
        Some(i) => {
            proof {
                lemma_children_update(children@, i as int, name, tree);
            }
            children[i] = (name, tree);
        },
        None => {
            proof {
                lemma_children_push(children@, name, tree);
            }
            children.push((name, tree));
        },
    }
}

/// Index of the child named `name`, which is added as an empty node where
/// there is none.
pub fn child_slot(children: &mut Vec<(String, Tree)>, name: &str) -> (i: usize)
    ensures
        i < final(children)@.len(),
        children_views(final(children)@) == with_slot(
            children_views(old(children)@),
            name@,
            TreeView::Node(Seq::empty()),
        ),
        position(children_views(final(children)@), name@) == Some(i as int),
        final(children)@[i as int].0@ == name@,
{
    match child_index(children, name) {
        Some(i) => {
            proof {
                lemma_position_of(children_views(children@), name@, children@.len());
            }
            i
        },
        None => {
            let ghost before = children_views(children@);
            let node = Tree::new();
            let key = name.to_owned();
            proof {
                lemma_children_push(children@, key, node);
                crate::sets::lemma_slot_position(before, name@, TreeView::Node(Seq::empty()));
            }
            children.push((key, node));
            children.len() - 1
        },
    }
}

/// Finds or makes the category `name` under `root`, and gives its index. A
/// category is a node; where a symbol of that name stands in its place there
/// is none.
pub fn get_or_create_category(root: &mut Vec<(String, Tree)>, name: &str) -> (r: Option<usize>)
    ensures
        children_views(final(root)@) == with_slot(
            children_views(old(root)@),
            name@,
            TreeView::Node(Seq::empty()),
        ),
        match r {
            Some(i) => position(children_views(final(root)@), name@) == Some(i as int) && i
                < final(root)@.len() && final(root)@[i as int].1 is Node,
            None => exists|i: int|
                position(children_views(final(root)@), name@) == Some(i) && 0 <= i < final(root)@.len() && (#[trigger] final(root)@[i]).1 is Leaf,
        },
{
    let i = child_slot(root, name);
    match &root[i].1 {
        Tree::Node(_) => Some(i),
        Tree::Leaf(_) => {
            assert(root@[i as int].1 is Leaf);
            None
        },
    }
}

/// `children` with the leaf `symbol` at the end of the path `parts`.
///
/// The last part stands for the symbol, which is filed under its demangled
/// name. Each part before it names a node, which is made where it is
/// missing. Where a symbol stands in the way of a node, nothing is inserted.
pub open spec fn inserted_symbol(
    children: Seq<(Seq<char>, TreeView)>,
    parts: Seq<Seq<char>>,
    symbol: SymbolView,
) -> Seq<(Seq<char>, TreeView)>
    decreases parts.len(),
{
    if parts.len() == 0 {
        children
    } else if parts.len() == 1 {
        put(children, symbol.demangled, TreeView::Leaf(symbol))
    } else {
        let base = with_slot(children, parts[0], TreeView::Node(Seq::empty()));
        match position(base, parts[0]) {
            Some(i) => match base[i].1 {
                TreeView::Node(sub) => base.update(
                    i,
                    (parts[0], TreeView::Node(inserted_symbol(sub, parts.drop_first(), symbol))),
                ),
                TreeView::Leaf(_) => base,
            },
            None => base,
        }
    }
}

/// The texts of a list of parts.
pub open spec fn part_views(parts: Seq<&str>) -> Seq<Seq<char>> {
    parts.map_values(|p: &str| p@)
}

/// Inserts a symbol into the tree at the path `parts`.
pub fn insert_symbol_into_tree(current_node: &mut Vec<(String, Tree)>, parts: &[&str], symbol: Symbol)
    ensures
        children_views(final(current_node)@) == inserted_symbol(
            children_views(old(current_node)@),
            part_views(parts@),
            symbol@,
        ),
{
    assert(part_views(parts@).skip(0) =~= part_views(parts@));
    insert_from(current_node, parts, 0, symbol)
}

/// Inserts a symbol into the tree at the path `parts[from..]`.
fn insert_from(current_node: &mut Vec<(String, Tree)>, parts: &[&str], from: usize, symbol: Symbol)
    requires
        from <= parts@.len(),
    ensures
        children_views(final(current_node)@) == inserted_symbol(
            children_views(old(current_node)@),
            part_views(parts@).skip(from as int),
            symbol@,
        ),
    decreases parts@.len() - from,
{
    let ghost rest = part_views(parts@).skip(from as int);
    let left = parts.len() - from;
    if left == 0 {
        return ;
    }
    if left == 1 {
        put_child(current_node, symbol.demangled.clone(), Tree::Leaf(symbol));
        return ;
    }
    assert(rest[0] == parts@[from as int]@);
    let i = child_slot(current_node, parts[from]);
    let ghost base = children_views(current_node@);
    let ghost held = current_node@;
    let placeholder = Tree::new();
    let ghost empty = placeholder;
    let child = swap_child(current_node, i, placeholder);
    match child {
        Tree::Node(sub) => {
            let mut sub = sub;
            proof {
                lemma_node_model(sub);
                assert(part_views(parts@).skip(from + 1) =~= rest.drop_first());
            }
            insert_from(&mut sub, parts, from + 1, symbol);
            let node = Tree::Node(sub);
            proof {
                lemma_node_model(sub);
                let key = held[i as int].0;
                lemma_children_update(held, i as int, key, empty);
                lemma_children_update(current_node@, i as int, key, node);
                assert(current_node@.update(i as int, (key, node)) =~= held.update(
                    i as int,
                    (key, node),
                ));
                lemma_children_update(held, i as int, key, node);
            }
            swap_child(current_node, i, node);
        },
        Tree::Leaf(leaf) => {
            let back = Tree::Leaf(leaf);
            proof {
                let key = held[i as int].0;
                assert(current_node@.update(i as int, (key, back)) =~= held);
            }
            swap_child(current_node, i, back);
        },
    }
}

/// Files `symbol` under its demangled name.
pub fn insert_leaf(root: &mut Vec<(String, Tree)>, symbol: &Symbol)
    ensures
        children_views(final(root)@) == put(
            children_views(old(root)@),
            symbol@.demangled,
            TreeView::Leaf(symbol@),
        ),
{
    put_child(root, symbol.demangled.clone(), Tree::Leaf(symbol.clone()));
}

/// The depth behind `depth`, as far as it counts: depths beyond five are not
/// told apart.
pub open spec fn deeper(depth: nat) -> nat {
    if depth < 5 {
        depth + 1
    } else {
        depth
    }
}

/// `tree` with its single leaves pulled up: a node more than four levels
/// deep that is its parent's only child and holds nothing but one leaf
/// becomes that leaf.
pub open spec fn collapsed(tree: TreeView, depth: nat, may_collapse: bool) -> TreeView
    decreases tree, 0nat,
{
    match tree {
        TreeView::Leaf(_) => tree,
        TreeView::Node(children) => {
            let below = collapsed_first(children, deeper(depth), children.len() == 1, children.len());
            if may_collapse && 4 < depth && below.len() == 1 && below[0].1 is Leaf {
                below[0].1
            } else {
                TreeView::Node(below)
            }
        },
    }
}

/// The first `n` of `children`, each collapsed.
pub open spec fn collapsed_first(
    children: Seq<(Seq<char>, TreeView)>,
    depth: nat,
    may_collapse: bool,
    n: nat,
) -> Seq<(Seq<char>, TreeView)>
    decreases children, n,
{
    if n == 0 || n > children.len() {
        Seq::empty()
    } else {
        collapsed_first(children, depth, may_collapse, (n - 1) as nat).push(
            (children[n - 1].0, collapsed(children[n - 1].1, depth, may_collapse)),
        )
    }
}

impl Tree {
    /// Collapses nodes that contain only a single leaf, recursively.
    pub fn collapse_single_nodes(self, depth: usize, may_collapse: bool) -> (r: Self)
        ensures
            r@ == collapsed(self@, depth as nat, may_collapse),
        decreases self,
    {
        match self {
            Tree::Leaf(symbol) => Tree::Leaf(symbol),
            Tree::Node(children) => {
                proof {
                    lemma_node_model(children);
                }
                let next = if depth < 5 {
                    depth + 1
                } else {
                    depth
                };
                let alone = children.len() == 1;
                let mut below = collapse_children(children, next, alone);
                if may_collapse && 4 < depth && below.len() == 1 && below[0].1.is_leaf() {
                    let only = swap_child(&mut below, 0, Tree::new());
                    only
                } else {
                    proof {
                        lemma_node_model(below);
                    }
                    Tree::Node(below)
                }
            },
        }
    }
}

/// Collapses each of `children`.
fn collapse_children(children: Vec<(String, Tree)>, depth: usize, may_collapse: bool) -> (r: Vec<
    (String, Tree),
>)
    ensures
        children_views(r@) == collapsed_first(
            children_views(children@),
            depth as nat,
            may_collapse,
            children@.len(),
        ),
    decreases children,
{
    let ghost views = children_views(children@);
    let mut rest = children;
    let mut out: Vec<(String, Tree)> = Vec::new();
    let mut i: usize = 0;
    proof {
        assert(children_views(out@) =~= collapsed_first(views, depth as nat, may_collapse, 0));
    }
    while i < rest.len()
        invariant
            i <= rest@.len(),
            rest@.len() == children@.len(),
            forall|k: int| i <= k < rest@.len() ==> rest@[k] == children@[k],
            views == children_views(children@),
            children_views(out@) == collapsed_first(views, depth as nat, may_collapse, i as nat),
        decreases rest@.len() - i,
    {
        let ghost before = children_views(out@);
        let name = rest[i].0.clone();
        let child = swap_child(&mut rest, i, Tree::new());
        assert(child == children@[i as int].1);
        let smaller = child.collapse_single_nodes(depth, may_collapse);
        proof {
            lemma_children_push(out@, name, smaller);
            assert(views[i as int] == (children@[i as int].0@, children@[i as int].1.model()));
        }
        out.push((name, smaller));
        i += 1;
    }
    out
}

/// The tree under the path `path` of `tree`, with nothing beside it: each
/// node on the way keeps the one child that the path names. There is none
/// where the path leads nowhere.
pub open spec fn filtered_by_path(tree: TreeView, path: Seq<Seq<char>>) -> Option<TreeView>
    decreases path.len(),
{
    if path.len() == 0 {
        Some(tree)
    } else {
        match tree {
            TreeView::Leaf(_) => None,
            TreeView::Node(children) => match position(children, path[0]) {
                Some(i) => match filtered_by_path(children[i].1, path.drop_first()) {
                    Some(below) => Some(TreeView::Node(seq![(path[0], below)])),
                    None => None,
                },
                None => None,
            },
        }
    }
}

/// The view of a tree that may be missing.
pub open spec fn tree_view(tree: Option<Tree>) -> Option<TreeView> {
    match tree {
        Some(t) => Some(t@),
        None => None,
    }
}

/// Keeps of `tree` what lies under `path`.
pub fn filter_tree_by_path(tree: &Tree, path: &[&str]) -> (r: Option<Tree>)
    ensures
        tree_view(r) == filtered_by_path(tree@, part_views(path@)),
{
    assert(part_views(path@).skip(0) =~= part_views(path@));
    filter_from(tree, path, 0)
}

/// Keeps of `tree` what lies under `path[from..]`.
fn filter_from(tree: &Tree, path: &[&str], from: usize) -> (r: Option<Tree>)
    requires
        from <= path@.len(),
    ensures
        tree_view(r) == filtered_by_path(tree@, part_views(path@).skip(from as int)),
    decreases path@.len() - from,
{
    let ghost rest = part_views(path@).skip(from as int);
    if path.len() - from == 0 {
        return Some(tree.duplicate());
    }
    assert(rest[0] == path@[from as int]@);
    match tree {
        Tree::Leaf(_) => None,
        Tree::Node(children) => {
            proof {
                lemma_node_model(*children);
                assert(part_views(path@).skip(from + 1) =~= rest.drop_first());
            }
            match child_index(children, path[from]) {
                Some(i) => {
                    assert(children_views(children@)[i as int].1 == children@[i as int].1.model());
                    match filter_from(&children[i].1, path, from + 1) {
                        Some(below) => {
                            let mut kept: Vec<(String, Tree)> = Vec::new();
                            let key = path[from].to_owned();
                            proof {
                                lemma_children_push(kept@, key, below);
                                assert(children_views(kept@).push((key@, below.model())) =~= seq![
                                    (key@, below.model()),
                                ]);
                            }
                            kept.push((key, below));
                            proof {
                                lemma_node_model(kept);
                            }
                            Some(Tree::Node(kept))
                        },
                        None => None,
                    }
                },
                None => None,
            }
        },
    }
}

/// The name under which symbols are grouped: `GCC_except_table` for the
/// tables of that name, else what stands before the first dot, else the whole
/// name.
pub open spec fn group_prefix(name: Seq<char>) -> Seq<char> {
    if "GCC_except_table"@.is_prefix_of(name) {
        "GCC_except_table"@
    } else {
        match find(name, "."@) {
            Some(dot) if 0 <= dot <= name.len() => name.take(dot),
            _ => name,
        }
    }
}

/// `groups` with `symbol` in the group of its prefix: alone it is a leaf, and
/// with others a node of leaves under their names.
pub open spec fn grouped(groups: Seq<(Seq<char>, TreeView)>, symbol: SymbolView) -> Seq<
    (Seq<char>, TreeView),
> {
    let prefix = group_prefix(symbol.demangled);
    let leaf = TreeView::Leaf(symbol);
    match position(groups, prefix) {
        None => groups.push((prefix, leaf)),
        Some(i) => match groups[i].1 {
            TreeView::Leaf(first) => groups.update(
                i,
                (
                    prefix,
                    TreeView::Node(
                        put(seq![(first.demangled, TreeView::Leaf(first))], symbol.demangled, leaf),
                    ),
                ),
            ),
            TreeView::Node(members) => groups.update(
                i,
                (prefix, TreeView::Node(put(members, symbol.demangled, leaf))),
            ),
        },
    }
}

/// The groups of the first `n` of `symbols`.
pub open spec fn grouped_first(symbols: Seq<SymbolView>, n: nat) -> Seq<(Seq<char>, TreeView)>
    decreases n,
{
    if n == 0 || n > symbols.len() {
        Seq::empty()
    } else {
        grouped(grouped_first(symbols, (n - 1) as nat), symbols[n - 1])
    }
}

/// The name under which a symbol is grouped.
fn group_prefix_of(name: &str) -> (r: String)
    ensures
        r@ == group_prefix(name@),
{
    let chars = chars_of(name);
    let table = chars_of("GCC_except_table");
    let dot = chars_of(".");
    proof {
        lemma_find_from(chars@, dot@, 0);
    }
    if starts_with_exec(&chars, &table) {
        "GCC_except_table".to_owned()
    } else {
        match find_exec(&chars, &dot) {
            Some(at) => {
                let head = slice_of(&chars, 0, at);
                assert(head@ =~= chars@.take(at as int));
                string_of(&head)
            },
            None => name.to_owned(),
        }
    }
}

/// Groups symbols by the prefix of their names.
pub fn group_symbols_by_prefix(symbols: &[Symbol]) -> (r: Vec<(String, Tree)>)
    ensures
        children_views(r@) == grouped_first(symbol_views(symbols@), symbols@.len()),
{
    let ghost views = symbol_views(symbols@);
    let mut groups: Vec<(String, Tree)> = Vec::new();
    let mut i: usize = 0;
    proof {
        assert(children_views(groups@) =~= grouped_first(views, 0));
    }
    while i < symbols.len()
        invariant
            i <= symbols@.len(),
            views == symbol_views(symbols@),
            children_views(groups@) == grouped_first(views, i as nat),
        decreases symbols@.len() - i,
    {
        let symbol = &symbols[i];
        assert(views[i as int] == symbol@);
        let prefix = group_prefix_of(symbol.demangled.as_str());
        let leaf = Tree::Leaf(symbol.clone());
        match child_index(&groups, prefix.as_str()) {
            None => {
                proof {
                    lemma_children_push(groups@, prefix, leaf);
                }
                groups.push((prefix, leaf));
            },
            Some(at) => {
                let ghost held = groups@;
                assert(children_views(held)[at as int].1 == held[at as int].1.model());
                let placeholder = Tree::new();
                let old = swap_child(&mut groups, at, placeholder);
                let mut members: Vec<(String, Tree)> = match old {
                    Tree::Leaf(first) => {
                        let mut members: Vec<(String, Tree)> = Vec::new();
                        let name = first.demangled.clone();
                        let first_leaf = Tree::Leaf(first);
                        proof {
                            lemma_children_push(members@, name, first_leaf);
                            assert(children_views(members@).push((name@, first_leaf.model()))
                                =~= seq![(name@, first_leaf.model())]);
                        }
                        members.push((name, first_leaf));
                        members
                    },
                    Tree::Node(members) => {
                        proof {
                            lemma_node_model(members);
                        }
                        members
                    },
                };
                put_child(&mut members, symbol.demangled.clone(), leaf);
                let node = Tree::Node(members);
                proof {
                    lemma_node_model(members);
                    lemma_children_update(held, at as int, prefix, node);
                    lemma_position_of(children_views(held), prefix@, held.len());
                }
                groups[at] = (prefix, node);
            },
        }
        i += 1;
    }
    groups
}

/// The category of a system symbol: one of `GCC_except_table`, `lCPI` and
/// `ltmp` where the name starts so, else what stands before the first dot,
/// else the whole name.
pub open spec fn system_category(name: Seq<char>) -> Seq<char> {
    if "GCC_except_table"@.is_prefix_of(name) {
        "GCC_except_table"@
    } else if "lCPI"@.is_prefix_of(name) {
        "lCPI"@
    } else if "ltmp"@.is_prefix_of(name) {
        "ltmp"@
    } else {
        match find(name, "."@) {
            Some(dot) if 0 <= dot <= name.len() => name.take(dot),
            _ => name,
        }
    }
}

/// The path in the tree for a path of the segments `segments`: a standard
/// crate stands at the top, any other crate under `crates`.
pub open spec fn crate_parts(segments: Seq<Seq<char>>) -> Seq<Seq<char>> {
    if segments.len() > 0 && is_standard(segments[0]) {
        segments
    } else {
        seq!["crates"@] + segments
    }
}

/// `root` with `symbol` filed under each of the first `n` of `paths` that has
/// more than one segment.
pub open spec fn filed_under(
    root: Seq<(Seq<char>, TreeView)>,
    paths: Seq<Seq<char>>,
    symbol: SymbolView,
    n: nat,
) -> Seq<(Seq<char>, TreeView)>
    decreases n,
{
    if n == 0 || n > paths.len() {
        root
    } else {
        let before = filed_under(root, paths, symbol, (n - 1) as nat);
        if segments_of(paths[n - 1]).len() > 1 {
            inserted_symbol(before, crate_parts(segments_of(paths[n - 1])), symbol)
        } else {
            before
        }
    }
}

/// `root` with `symbol` filed where it belongs.
///
/// A symbol of the compiler goes under `rustc`, by the name behind `]::`. A
/// trait implementation goes under each crate that its type or its trait
/// lies in, by its text as it was parsed. Another path goes under its crate.
/// Anything else is a system symbol and goes under `system` and its
/// category.
pub open spec fn filed(root: Seq<(Seq<char>, TreeView)>, symbol: SymbolView) -> Seq<
    (Seq<char>, TreeView),
> {
    let name = symbol.demangled;
    if "__rustc["@.is_prefix_of(name) {
        let shown = match find(name, "]::"@) {
            Some(end) if 0 <= end && end + 3 <= name.len() => name.skip(end + 3),
            _ => name,
        };
        inserted_symbol(root, seq!["rustc"@, shown], SymbolView { demangled: shown, ..symbol })
    } else {
        match parse_trait_impl(name) {
            Ok(trait_impl) => filed_under(
                root,
                paths_of(trait_impl.self_type),
                SymbolView { demangled: rendered_impl(trait_impl), ..symbol },
                paths_of(trait_impl.self_type).len(),
            ),
            Err(_) => if contains(name, "::"@) {
                inserted_symbol(root, crate_parts(segments_of(name)), symbol)
            } else {
                inserted_symbol(root, seq!["system"@, system_category(name), name], symbol)
            },
        }
    }
}

/// `root` with each of the first `n` of `symbols` filed where it belongs.
pub open spec fn filed_first(symbols: Seq<SymbolView>, n: nat) -> Seq<(Seq<char>, TreeView)>
    decreases n,
{
    if n == 0 || n > symbols.len() {
        Seq::empty()
    } else {
        filed(filed_first(symbols, (n - 1) as nat), symbols[n - 1])
    }
}

/// The category of a system symbol.
fn system_category_of(name: &str) -> (r: String)
    ensures
        r@ == system_category(name@),
{
    let chars = chars_of(name);
    let dot = chars_of(".");
    proof {
        lemma_find_from(chars@, dot@, 0);
    }
    if starts_with_exec(&chars, &chars_of("GCC_except_table")) {
        "GCC_except_table".to_owned()
    } else if starts_with_exec(&chars, &chars_of("lCPI")) {
        "lCPI".to_owned()
    } else if starts_with_exec(&chars, &chars_of("ltmp")) {
        "ltmp".to_owned()
    } else {
        match find_exec(&chars, &dot) {
            Some(at) => {
                let head = slice_of(&chars, 0, at);
                assert(head@ =~= chars@.take(at as int));
                string_of(&head)
            },
            None => name.to_owned(),
        }
    }
}

/// Files `symbol` under the crate of the path `path`, where the path has more
/// than one segment.
fn file_under_crate(root: &mut Vec<(String, Tree)>, path: &RustPath, symbol: Symbol) -> (done: bool)
    ensures
        done == (segments_of(path@).len() > 1),
        children_views(final(root)@) == if segments_of(path@).len() > 1 {
            inserted_symbol(children_views(old(root)@), crate_parts(segments_of(path@)), symbol@)
        } else {
            children_views(old(root)@)
        },
{
    let segments = path.segments();
    let ghost views = part_views(segments@);
    assert(views == segments_of(path@));
    if segments.len() > 1 {
        assert(views[0] == segments@[0]@);
        if is_standard_crate(segments[0]) {
            insert_symbol_into_tree(root, segments.as_slice(), symbol);
        } else {
            let mut parts: Vec<&str> = Vec::new();
            parts.push("crates");
            let mut i: usize = 0;
            assert(part_views(parts@) =~= seq!["crates"@] + views.take(0));
            while i < segments.len()
                invariant
                    i <= segments@.len(),
                    views == part_views(segments@),
                    part_views(parts@) == seq!["crates"@] + views.take(i as int),
                decreases segments@.len() - i,
            {
                let ghost before = part_views(parts@);
                parts.push(segments[i]);
                proof {
                    assert(part_views(parts@) =~= before.push(segments@[i as int]@));
                    assert(views.take(i + 1) =~= views.take(i as int).push(views[i as int]));
                    assert(seq!["crates"@] + views.take(i + 1) =~= (seq!["crates"@] + views.take(
                        i as int,
                    )).push(views[i as int]));
                }
                i += 1;
            }
            assert(views.take(views.len() as int) =~= views);
            insert_symbol_into_tree(root, parts.as_slice(), symbol);
        }
        true
    } else {
        false
    }
}

/// Arranges symbols in a tree by crate and module.
pub fn tree_from_symbols(symbols: &[Symbol]) -> (r: Tree)
    ensures
        r@ == TreeView::Node(filed_first(symbol_views(symbols@), symbols@.len())),
{
    let ghost views = symbol_views(symbols@);
    let mut root: Vec<(String, Tree)> = Vec::new();
    let mut i: usize = 0;
    proof {
        assert(children_views(root@) =~= filed_first(views, 0));
    }
    while i < symbols.len()
        invariant
            i <= symbols@.len(),
            views == symbol_views(symbols@),
            children_views(root@) == filed_first(views, i as nat),
        decreases symbols@.len() - i,
    {
        assert(views[i as int] == symbols@[i as int]@);
        file_symbol(&mut root, &symbols[i]);
        i += 1;
    }
    proof {
        lemma_node_model(root);
    }
    Tree::Node(root)
}

/// Files `symbol` where it belongs.
fn file_symbol(root: &mut Vec<(String, Tree)>, symbol: &Symbol)
    ensures
        children_views(final(root)@) == filed(children_views(old(root)@), symbol@),
{
    let name = symbol.demangled.as_str();
    let chars = chars_of(name);
    let close = chars_of("]::");
    let sep = chars_of("::");
    proof {
        reveal_strlit("]::");
        assert(close@.len() == 3);
        lemma_find_from(chars@, close@, 0);
    }
    if starts_with_exec(&chars, &chars_of("__rustc[")) {
        let len = chars.len();
        let shown = match find_exec(&chars, &close) {
            Some(end) => {
                let tail = slice_of(&chars, end + 3, len);
                assert(tail@ =~= chars@.skip(end + 3));
                string_of(&tail)
            },
            None => name.to_owned(),
        };
        let mut renamed = symbol.clone();
        renamed.demangled = shown.clone();
        let mut parts: Vec<&str> = Vec::new();
        parts.push("rustc");
        parts.push(shown.as_str());
        assert(part_views(parts@) =~= seq!["rustc"@, shown@]);
        insert_symbol_into_tree(root, parts.as_slice(), renamed);
        return ;
    }
    match TraitFnImpl::parse(name) {
        Ok(trait_impl) => {
            let mut renamed = symbol.clone();
            renamed.demangled = trait_impl.to_string();
            let paths = trait_impl.paths();
            let ghost texts = path_views(paths@);
            let ghost start = children_views(root@);
            let mut k: usize = 0;
            while k < paths.len()
                invariant
                    k <= paths@.len(),
                    texts == path_views(paths@),
                    children_views(root@) == filed_under(start, texts, renamed@, k as nat),
                decreases paths@.len() - k,
            {
                assert(texts[k as int] == paths@[k as int]@);
                file_under_crate(root, &paths[k], renamed.clone());
                k += 1;
            }
        },
        Err(_) => {
            if find_exec(&chars, &sep).is_some() {
                let path = RustPath::new(name);
                file_under_crate(root, &path, symbol.clone());
                proof {
                    lemma_path_has_segments(name@);
                }
            } else {
                let category = system_category_of(name);
                let mut parts: Vec<&str> = Vec::new();
                parts.push("system");
                parts.push(category.as_str());
                parts.push(name);
                assert(part_views(parts@) =~= seq!["system"@, category@, name@]);
                insert_symbol_into_tree(root, parts.as_slice(), symbol.clone());
            }
        },
    }
}

/// A text that holds `::` has more than one segment.
pub proof fn lemma_path_has_segments(path: Seq<char>)
    requires
        contains(path, "::"@),
    ensures
        segments_of(path).len() > 1,
{
    crate::rust_path::lemma_path_sep();
    let sep = crate::rust_path::path_sep();
    lemma_find_from(path, sep, 0);
    let i = find(path, sep)->0;
    assert(crate::text::matches_at(path, sep, i));
    crate::text::lemma_split_nonempty(path.skip(i + sep.len()), sep);
}

impl Tree {
    /// Creates a tree from a list of symbols, grouped by the prefix of their
    /// names.
    pub fn from_symbols(symbols: &[Symbol]) -> (r: Self)
        ensures
            r@ == TreeView::Node(grouped_first(symbol_views(symbols@), symbols@.len())),
    {
        let grouped = group_symbols_by_prefix(symbols);
        proof {
            lemma_node_model(grouped);
        }
        Tree::Node(grouped)
    }
}

impl Default for Tree {
    fn default() -> (r: Self)
        ensures
            r@ == TreeView::Node(Seq::empty()),
    {
        Tree::new()
    }
}

} // verus!
