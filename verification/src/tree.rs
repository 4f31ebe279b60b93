//! Relation trees: nodes whose children are shared trees, each with the
//! board that says what is known of it.

use std::sync::Arc;
use vstd::prelude::*;
use crate::context::Context;
use crate::error::{board_view, ValidateError, ValidateErrorView, ValidateResult};
use crate::key::ContextKey;
use crate::meta::{node_views, ExprMeta, Repr, TableMeta, TableMetaView};
use crate::rel::{all_cloned, borrowed, GenericRel, NodeView, Shape};

verus! {

/// An expression as a relation tree carries it: what the expression is,
/// which the tree never looks into, and the board that says what is known
/// of it.
#[derive(Debug)]
pub struct ExprT<B, X> {
    pub root: X,
    pub board: ValidateResult<B>,
}

/// What stands at the root of a tree: a table, or an operator over trees.
#[derive(Debug)]
pub enum Root<B, E> {
    Leaf(ContextKey),
    Inner(GenericRel<E, Arc<RelT<B, E>>>),
}

/// A relation tree: a relation node over shared subtrees, with its board.
///
/// A tree is never changed once it is made. The board of a tree with
/// children is derived from the node and from the boards of its
/// expressions and children; the board of a table is what was found out
/// about the table.
#[derive(Debug)]
pub struct RelT<B, E> {
    pub root: Root<B, E>,
    pub board: ValidateResult<B>,
}

/// The place of the first failure: a failure that only successes precede.
pub open spec fn fails_first_at<V, X>(items: Seq<Result<V, X>>, i: int) -> bool {
    &&& 0 <= i < items.len()
    &&& items[i].is_err()
    &&& forall|j: int| 0 <= j < i ==> (#[trigger] items[j]).is_ok()
}

/// The error of the first failure, if there is a failure.
pub open spec fn first_failure<V, X>(items: Seq<Result<V, X>>) -> Option<X> {
    if exists|i: int| fails_first_at(items, i) {
        Some(items[choose|i: int| fails_first_at(items, i)]->Err_0)
    } else {
        None
    }
}

/// What the successes carry, place by place.
pub open spec fn values_of<V, X>(items: Seq<Result<V, X>>) -> Seq<V> {
    Seq::new(items.len(), |i: int| items[i]->Ok_0)
}

/// The board of a node, given its shape and the boards of its expressions
/// and of its children.
///
/// The first child, left before right, whose board is an error hands that
/// error on. Where every child is valid, the first expression, in the
/// order of the fields, whose board is an error does. Where all are valid,
/// the board is what the representation derives from their metadata.
pub open spec fn derive<R: Repr>(
    shape: Shape,
    expr_boards: Seq<Result<<R::ExprRepr as View>::V, ValidateErrorView>>,
    kid_boards: Seq<Result<R::V, ValidateErrorView>>,
) -> Result<R::V, ValidateErrorView> {
    match first_failure(kid_boards) {
        Some(error) => Err(error),
        None => match first_failure(expr_boards) {
            Some(error) => Err(error),
            None => R::dot_spec(
                NodeView { shape, exprs: values_of(expr_boards), kids: values_of(kid_boards) },
            ),
        },
    }
}

/// The boards of the expressions of a node, as plain values.
pub open spec fn expr_boards<M: View, X>(exprs: Seq<ExprT<M, X>>) -> Seq<
    Result<M::V, ValidateErrorView>,
> {
    Seq::new(exprs.len(), |i: int| board_view(exprs[i].board))
}

/// The boards of the children of a node, as plain values.
pub open spec fn kid_boards<B: View, E>(kids: Seq<Arc<RelT<B, E>>>) -> Seq<
    Result<B::V, ValidateErrorView>,
> {
    Seq::new(kids.len(), |i: int| board_view(kids[i].board))
}

/// The board that a node over the given expressions and children is to have.
pub open spec fn derived_board<R: Repr, X>(
    node: NodeView<ExprT<R::ExprRepr, X>, Arc<RelT<R, ExprT<R::ExprRepr, X>>>>,
) -> Result<R::V, ValidateErrorView> {
    derive::<R>(node.shape, expr_boards(node.exprs), kid_boards(node.kids))
}

/// The board of a node is a function of its shape and of the boards of its
/// expressions and children: two nodes that agree on these have the same.
pub proof fn law_board_deterministic<R: Repr, X>(
    a: NodeView<ExprT<R::ExprRepr, X>, Arc<RelT<R, ExprT<R::ExprRepr, X>>>>,
    b: NodeView<ExprT<R::ExprRepr, X>, Arc<RelT<R, ExprT<R::ExprRepr, X>>>>,
)
    requires
        a.shape == b.shape,
        a.exprs.len() == b.exprs.len(),
        a.kids.len() == b.kids.len(),
        forall|i: int|
            0 <= i < a.exprs.len() ==> board_view(a.exprs[i].board) == board_view(b.exprs[i].board),
        forall|i: int|
            0 <= i < a.kids.len() ==> board_view(a.kids[i].board) == board_view(b.kids[i].board),
    ensures
        derived_board::<R, X>(a) == derived_board::<R, X>(b),
{
    assert(expr_boards(a.exprs) =~= expr_boards(b.exprs));
    assert(kid_boards(a.kids) =~= kid_boards(b.kids));
}

impl<B, E> RelT<B, E> {
    /// The node at the root: its shape, its expressions and its children.
    pub open spec fn node(self) -> NodeView<E, Arc<RelT<B, E>>> {
        match self.root {
            Root::Leaf(key) => NodeView {
                shape: Shape::Table(key@),
                exprs: Seq::empty(),
                kids: Seq::empty(),
            },
            Root::Inner(node) => node@,
        }
    }

    /// Whether the tree is a table, which has no children.
    pub fn is_leaf(&self) -> (leaf: bool)
        ensures
            leaf == (self.node().shape is Table),
    {
        match &self.root {
            Root::Leaf(_) => true,
            Root::Inner(node) => match node {
                GenericRel::Table(_) => true,
                _ => false,
            },
        }
    }

    /// The node at the root, borrowing each expression and each child.
    pub fn as_ref(&self) -> (out: GenericRel<&E, &Arc<RelT<B, E>>>)
        ensures
            out@.shape == self.node().shape,
            borrowed(self.node().exprs, out@.exprs),
            borrowed(self.node().kids, out@.kids),
    {
        match &self.root {
            Root::Leaf(key) => GenericRel::Table(key.clone()),
            Root::Inner(node) => node.as_ref(),
        }
    }
}

/// A failure that only successes precede is the first failure.
pub proof fn lemma_first_failure_at<V, X>(items: Seq<Result<V, X>>, i: int)
    requires
        fails_first_at(items, i),
    ensures
        first_failure(items) == Some(items[i]->Err_0),
{
    let c = choose|c: int| fails_first_at(items, c);
    if c < i {
        assert(items[c].is_ok());
    }
    if i < c {
        assert(items[i].is_ok());
    }
}

/// Where every item is a success there is no first failure.
pub proof fn lemma_no_failure<V, X>(items: Seq<Result<V, X>>)
    requires
        forall|j: int| 0 <= j < items.len() ==> (#[trigger] items[j]).is_ok(),
    ensures
        first_failure(items).is_none(),
{
    if exists|i: int| fails_first_at(items, i) {
        let c = choose|c: int| fails_first_at(items, c);
        assert(items[c].is_ok());
    }
}

/// The boards of the trees behind the handles, as plain values.
pub open spec fn handle_boards<B: View, E>(kids: Seq<&Arc<RelT<B, E>>>) -> Seq<
    Result<B::V, ValidateErrorView>,
> {
    Seq::new(kids.len(), |i: int| board_view(kids[i].board))
}

/// The metadata of the trees, where every one is valid, or the error of
/// the first that is not.
pub fn gather_metas<'a, B: View, E>(kids: &Vec<&'a Arc<RelT<B, E>>>) -> (out: Result<
    Vec<&'a B>,
    &'a ValidateError,
>)
    ensures
        match out {
            Ok(metas) => {
                &&& first_failure(handle_boards(kids@)).is_none()
                &&& metas@.len() == kids@.len()
                &&& forall|j: int|
                    0 <= j < kids@.len() ==> #[trigger] handle_boards(kids@)[j] == Ok::<
                        B::V,
                        ValidateErrorView,
                    >(metas@[j]@)
            },
            Err(error) => first_failure(handle_boards(kids@)) == Some(error@),
        },
{
    let ghost kb = handle_boards(kids@);
    let mut metas: Vec<&'a B> = Vec::new();
    let mut i: usize = 0;
    while i < kids.len()
        invariant
            i <= kids.len(),
            kb == handle_boards(kids@),
            metas@.len() == i,
            forall|j: int| 0 <= j < i ==> #[trigger] kb[j] == Ok::<B::V, ValidateErrorView>(metas@[j]@),
        decreases kids.len() - i,
    {
        let kid: &'a Arc<RelT<B, E>> = kids[i];
        match &kid.board {
            Ok(meta) => {
                metas.push(meta);
            },
            Err(error) => {
                proof {
                    assert(kb[i as int] == Err::<B::V, ValidateErrorView>(error@));
                    assert forall|j: int| 0 <= j < i implies (#[trigger] kb[j]).is_ok() by {
                        assert(kb[j] == Ok::<B::V, ValidateErrorView>(metas@[j]@));
                    }
                    lemma_first_failure_at(kb, i as int);
                }
                return Err(error);
            },
        }
        i += 1;
    }
    proof {
        assert forall|j: int| 0 <= j < kb.len() implies (#[trigger] kb[j]).is_ok() by {
            assert(kb[j] == Ok::<B::V, ValidateErrorView>(metas@[j]@));
        }
        lemma_no_failure(kb);
    }
    Ok(metas)
}

impl<R: Repr, X> RelT<R, ExprT<R::ExprRepr, X>> {
    /// The tree that stands for the table `key` and is known by `board`:
    /// a leaf, whose board is what was found out about the table.
    pub fn leaf(key: ContextKey, board: ValidateResult<R>) -> (tree: Self)
        ensures
            tree.root is Leaf,
            tree.node().shape == Shape::Table(key@),
            tree.node().exprs.len() == 0,
            tree.node().kids.len() == 0,
            tree.board == board,
            tree.well_formed(),
    {
        RelT { root: Root::Leaf(key), board }
    }

    /// Derives the board of a node from the boards of its children and of
    /// its expressions.
    pub fn board_of(root: &GenericRel<ExprT<R::ExprRepr, X>, Arc<Self>>) -> (board: ValidateResult<R>)
        ensures
            board_view(board) == derived_board::<R, X>(root@),
    {
        let ghost kb = kid_boards(root@.kids);
        let ghost eb = expr_boards(root@.exprs);
        let kids = root.children();
        proof {
            assert(handle_boards(kids@) =~= kb);
        }
        let kid_metas = match gather_metas(&kids) {
            Ok(metas) => metas,
            Err(error) => {
                return Err(error.clone());
            },
        };
        let exprs = root.expressions();
        let mut expr_metas: Vec<&R::ExprRepr> = Vec::new();
        let mut i: usize = 0;
        while i < exprs.len()
            invariant
                i <= exprs.len(),
                borrowed(root@.exprs, exprs@),
                eb == expr_boards(root@.exprs),
                kb == kid_boards(root@.kids),
                first_failure(kb).is_none(),
                expr_metas@.len() == i,
                forall|j: int|
                    0 <= j < i ==> #[trigger] eb[j] == Ok::<<R::ExprRepr as View>::V, ValidateErrorView>(
                        expr_metas@[j]@,
                    ),
            decreases exprs.len() - i,
        {
            assert(*exprs@[i as int] == root@.exprs[i as int]);
            match &exprs[i].board {
                Ok(meta) => {
                    expr_metas.push(meta);
                },
                Err(error) => {
                    proof {
                        assert(eb[i as int] == Err::<<R::ExprRepr as View>::V, ValidateErrorView>(
                            error@,
                        ));
                        assert forall|j: int| 0 <= j < i implies (#[trigger] eb[j]).is_ok() by {
                            assert(eb[j] == Ok::<<R::ExprRepr as View>::V, ValidateErrorView>(
                                expr_metas@[j]@,
                            ));
                        }
                        lemma_first_failure_at(eb, i as int);
                    }
                    return Err(error.clone());
                },
            }
            i += 1;
        }
        proof {
            assert forall|j: int| 0 <= j < eb.len() implies (#[trigger] eb[j]).is_ok() by {
                assert(eb[j] == Ok::<<R::ExprRepr as View>::V, ValidateErrorView>(expr_metas@[j]@));
            }
            lemma_no_failure(eb);
        }
        let node = root.rebuild(expr_metas, kid_metas);
        proof {
            let views = node_views(node@);
            assert(views.exprs =~= values_of(eb)) by {
                assert forall|j: int| 0 <= j < eb.len() implies views.exprs[j] == values_of(eb)[j] by {
                    assert(eb[j] == Ok::<<R::ExprRepr as View>::V, ValidateErrorView>(
                        expr_metas@[j]@,
                    ));
                }
            }
            assert(views.kids =~= values_of(kb)) by {
                assert forall|j: int| 0 <= j < kb.len() implies views.kids[j] == values_of(kb)[j] by {
                    assert(kb[j] == Ok::<R::V, ValidateErrorView>(kid_metas@[j]@));
                }
            }
        }
        R::dot(node)
    }

    /// The tree over a node whose children are shared already. Its board
    /// is derived from the node and the boards of its parts.
    pub fn from_wrapped(root: GenericRel<ExprT<R::ExprRepr, X>, Arc<Self>>) -> (tree: Self)
        ensures
            tree.node() == root@,
            board_view(tree.board) == derived_board::<R, X>(root@),
            (forall|i: int| 0 <= i < root@.kids.len() ==> (#[trigger] root@.kids[i]).well_formed())
                ==> tree.well_formed(),
    {
        let board = Self::board_of(&root);
        match root {
            GenericRel::Table(key) => {
                let tree = RelT { root: Root::Leaf(key), board };
                assert(tree.node().exprs =~= root@.exprs);
                assert(tree.node().kids =~= root@.kids);
                tree
            },
            other => RelT { root: Root::Inner(other), board },
        }
    }

    /// The tree over a node and the trees that are its children. The
    /// children are put behind shared handles, and the board is derived
    /// from the node and the boards of its parts.
    pub fn from(node: GenericRel<ExprT<R::ExprRepr, X>, Self>) -> (tree: Self)
        ensures
            tree.node().shape == node@.shape,
            tree.node().exprs == node@.exprs,
            tree.node().kids.len() == node@.kids.len(),
            forall|i: int| 0 <= i < node@.kids.len() ==> *#[trigger] tree.node().kids[i] == node@.kids[i],
            board_view(tree.board) == derived_board::<R, X>(tree.node()),
            (forall|i: int| 0 <= i < node@.kids.len() ==> (#[trigger] node@.kids[i]).well_formed())
                ==> tree.well_formed(),
    {
        let wrap = |child: Self| -> (handle: Arc<Self>)
            ensures
                *handle == child,
            { Arc::new(child) };
        let root = node.map_owned(&wrap);
        Self::from_wrapped(root)
    }
}

impl<X> RelT<TableMeta, ExprT<ExprMeta, X>> {
    /// The columns of the relation as a context, or why the tree is not valid.
    pub fn try_to_context(&self) -> (context: ValidateResult<Context<ExprMeta>>)
        ensures
            match context {
                Ok(columns) => board_view(self.board).is_ok() && columns@ == board_view(
                    self.board,
                )->Ok_0.columns,
                Err(error) => board_view(self.board) == Err::<
                    TableMetaView,
                    ValidateErrorView,
                >(error@),
            },
    {
        match &self.board {
            Ok(meta) => Ok(meta.to_context()),
            Err(error) => Err(error.clone()),
        }
    }
}

/// The greater of two numbers.
pub open spec fn greater(a: nat, b: nat) -> nat {
    if a >= b {
        a
    } else {
        b
    }
}

impl<B, E> RelT<B, E> {
    /// The number of operators on the longest way from the root to a table.
    pub open spec fn height(self) -> nat
        decreases self,
    {
        match self.root {
            Root::Leaf(_) => 0,
            Root::Inner(node) => match node {
                GenericRel::Aggregation { from, .. } => 1 + from.height(),
                GenericRel::Projection { from, .. } => 1 + from.height(),
                GenericRel::Selection { from, .. } => 1 + from.height(),
                GenericRel::Join { left, right, .. } => 1 + greater(left.height(), right.height()),
                GenericRel::SetOperation { left, right, .. } => 1 + greater(
                    left.height(),
                    right.height(),
                ),
                GenericRel::Offset { from, .. } => 1 + from.height(),
                GenericRel::Limit { from, .. } => 1 + from.height(),
                GenericRel::OrderBy { from, .. } => 1 + from.height(),
                GenericRel::Distinct { from } => 1 + from.height(),
                GenericRel::WithAlias { from, .. } => 1 + from.height(),
                GenericRel::Table(_) => 0,
            },
        }
    }

    /// A child is less high than the tree that holds it.
    pub proof fn lemma_kid_lower(self, i: int)
        requires
            0 <= i < self.node().kids.len(),
        ensures
            self.node().kids[i].height() < self.height(),
    {
    }

    /// The children of the root, borrowed, left before right.
    pub fn children(&self) -> (out: Vec<&RelT<B, E>>)
        ensures
            out@.len() == self.node().kids.len(),
            forall|i: int| 0 <= i < out@.len() ==> *#[trigger] out@[i] == *self.node().kids[i],
    {
        match &self.root {
            Root::Leaf(_) => Vec::new(),
            Root::Inner(node) => {
                let handles = node.children();
                let mut out: Vec<&RelT<B, E>> = Vec::new();
                let mut i: usize = 0;
                while i < handles.len()
                    invariant
                        i <= handles.len(),
                        out@.len() == i,
                        forall|j: int| 0 <= j < i ==> *#[trigger] out@[j] == **handles@[j],
                    decreases handles.len() - i,
                {
                    let handle: &Arc<RelT<B, E>> = handles[i];
                    out.push(&**handle);
                    i += 1;
                }
                out
            },
        }
    }

    /// The expressions of the root, borrowed, in the order of its fields.
    pub fn expressions(&self) -> (out: Vec<&E>)
        ensures
            borrowed(self.node().exprs, out@),
    {
        match &self.root {
            Root::Leaf(_) => Vec::new(),
            Root::Inner(node) => node.expressions(),
        }
    }
}

impl<R: Repr, X> RelT<R, ExprT<R::ExprRepr, X>> {
    /// Whether every board in the tree is what it is to be: that of each
    /// tree with an operator at its root is derived from the node and from
    /// the boards of its expressions and children.
    pub open spec fn well_formed(self) -> bool
        decreases self.height(),
    {
        match self.root {
            Root::Leaf(_) => true,
            Root::Inner(_) => {
                &&& board_view(self.board) == derived_board::<R, X>(self.node())
                &&& forall|i: int|
                    0 <= i < self.node().kids.len() ==> {
                        proof {
                            self.lemma_kid_lower(i);
                        }
                        (#[trigger] self.node().kids[i]).well_formed()
                    }
            },
        }
    }
}

impl<B: Clone, X: Clone> Clone for ExprT<B, X> {
    /// The expression over a clone of what it is and of its board.
    fn clone(&self) -> (out: ExprT<B, X>)
        ensures
            cloned(self.root, out.root),
            match self.board {
                Ok(meta) => out.board.is_ok() && cloned(meta, out.board->Ok_0),
                Err(error) => out.board.is_err() && out.board->Err_0@ == error@,
            },
    {
        let board = match &self.board {
            Ok(meta) => Ok(meta.clone()),
            Err(error) => Err(error.clone()),
        };
        ExprT { root: self.root.clone(), board }
    }
}

impl<B: Clone, E: Clone> Clone for RelT<B, E> {
    /// The tree over a clone of each expression, another handle on each
    /// child, and a clone of the board.
    fn clone(&self) -> (out: RelT<B, E>)
        ensures
            out.node().shape == self.node().shape,
            all_cloned(self.node().exprs, out.node().exprs),
            all_cloned(self.node().kids, out.node().kids),
            match self.board {
                Ok(meta) => out.board.is_ok() && cloned(meta, out.board->Ok_0),
                Err(error) => out.board.is_err() && out.board->Err_0@ == error@,
            },
    {
        let root = match &self.root {
            Root::Leaf(key) => Root::Leaf(key.clone()),
            Root::Inner(node) => Root::Inner(node.clone()),
        };
        let board = match &self.board {
            Ok(meta) => Ok(meta.clone()),
            Err(error) => Err(error.clone()),
        };
        RelT { root, board }
    }
}

impl<B: Clone, E: Clone> RelT<B, E> {
    /// The node at the root over trees of their own: each child is cloned
    /// out of its shared handle.
    pub fn into_inner(self) -> (out: GenericRel<E, RelT<B, E>>)
        ensures
            out@.shape == self.node().shape,
            out@.exprs == self.node().exprs,
            out@.kids.len() == self.node().kids.len(),
            forall|i: int|
                0 <= i < out@.kids.len() ==> cloned(*self.node().kids[i], #[trigger] out@.kids[i]),
    {
        match self.root {
            Root::Leaf(key) => GenericRel::Table(key),
            Root::Inner(node) => {
                let unwrap = |handle: Arc<RelT<B, E>>| -> (tree: RelT<B, E>)
                    ensures
                        cloned(*handle, tree),
                    { (*handle).clone() };
                node.map_owned(&unwrap)
            },
        }
    }
}

} // verus!
