//! Rebasing: resolving the tables of a tree against a context of names,
//! and deriving anew what is known of everything above them.

use std::sync::Arc;
use vstd::prelude::*;
use crate::context::{has_key, lemma_has_position, lookup, position, Context, Entries};
use crate::error::{board_view, ValidateError, ValidateErrorView, ValidateResult};
use crate::key::ContextKey;
use crate::meta::{ExprMeta, Repr, TableMeta, TableMetaView};
use crate::rel::{borrowed, push_borrows, GenericRel, Shape};
use crate::tree::{
    derived_board, first_failure, gather_metas, handle_boards, kid_boards, law_board_deterministic,
    values_of, ExprT, RelT, Root,
};

verus! {

/// A relation tree in the representation `R`, over expressions of kind `X`.
pub type Relation<R, X> = RelT<R, ExprT<<R as Repr>::ExprRepr, X>>;

/// A rule that says what a tree is to become in the representation `To`.
pub trait RebaseRel<From: Repr, To: Repr, X>: Sized {
    /// Whether the rule can be asked about the tree `at`.
    spec fn ready(&self, at: Relation<From, X>) -> bool;

    /// Whether `out` is an answer of the rule for the tree `at`: the tree
    /// that takes its place, or nothing where the rule leaves the tree to
    /// be rebased part by part.
    spec fn rebases_at(&self, at: Relation<From, X>, out: Option<Relation<To, X>>) -> bool;

    /// Asks the rule about the tree `at`.
    fn rebase_at(&self, at: &Relation<From, X>) -> (out: Option<Relation<To, X>>)
        requires
            self.ready(*at),
        ensures
            self.rebases_at(*at, out),
    ;
}

/// The columns that the expressions of a node see once its children are
/// rebased: those of the children where all of them are valid, else none.
pub open spec fn inherited<To: Repr>(kids: Seq<Result<To::V, ValidateErrorView>>) -> Entries<
    <To::ExprRepr as View>::V,
> {
    if first_failure(kids).is_none() {
        To::inner_context_spec(values_of(kids))
    } else {
        Seq::empty()
    }
}

/// Whether `out` is the tree that is made again over the rebased children
/// of `root`: a node of the shape of `root`, over those children and over
/// the expressions of `root` resolved against what the children offer,
/// with the board that this node is to have.
pub open spec fn remade<From: Repr, To: Repr, X, G: Fn(
    &Context<To::ExprRepr>,
    &ExprT<From::ExprRepr, X>,
) -> ExprT<To::ExprRepr, X>>(
    resolve: G,
    root: Relation<From, X>,
    kids: Seq<Arc<Relation<To, X>>>,
    out: Relation<To, X>,
) -> bool {
    &&& out.node().shape == root.node().shape
    &&& out.node().kids == kids
    &&& out.node().exprs.len() == root.node().exprs.len()
    &&& exists|context: Context<To::ExprRepr>|
        {
            &&& context@ == inherited::<To>(kid_boards(kids))
            &&& forall|j: int|
                0 <= j < root.node().exprs.len() ==> call_ensures(
                    resolve,
                    (&context, &root.node().exprs[j]),
                    #[trigger] out.node().exprs[j],
                )
        }
    &&& board_view(out.board) == derived_board::<To, X>(out.node())
}

/// Whether `out` is what rebasing `root` part by part may give: the tree
/// made again over children that are each what rebasing a child of `root`
/// may give.
pub open spec fn descended<From: Repr, To: Repr, X, T: RebaseRel<From, To, X>, G: Fn(
    &Context<To::ExprRepr>,
    &ExprT<From::ExprRepr, X>,
) -> ExprT<To::ExprRepr, X>>(rule: T, resolve: G, root: Relation<From, X>, out: Relation<To, X>) -> bool
    decreases root.height(), 0nat,
{
    &&& out.node().kids.len() == root.node().kids.len()
    &&& forall|i: int|
        0 <= i < root.node().kids.len() ==> {
            proof {
                root.lemma_kid_lower(i);
            }
            rebased(rule, resolve, *#[trigger] root.node().kids[i], *out.node().kids[i])
        }
    &&& remade(resolve, root, out.node().kids, out)
}

/// Whether `out` is what rebasing `root` may give: the answer of the rule
/// for `root` where it has one, else what rebasing it part by part gives.
pub open spec fn rebased<From: Repr, To: Repr, X, T: RebaseRel<From, To, X>, G: Fn(
    &Context<To::ExprRepr>,
    &ExprT<From::ExprRepr, X>,
) -> ExprT<To::ExprRepr, X>>(rule: T, resolve: G, root: Relation<From, X>, out: Relation<To, X>) -> bool
    decreases root.height(), 1nat,
{
    exists|found: Option<Relation<To, X>>|
        #![trigger rule.rebases_at(root, found)]
        rule.rebases_at(root, found) && match found {
            Some(tree) => out == tree,
            None => descended(rule, resolve, root, out),
        }
}

/// Whether `resolve` may be called on every expression at the root of the
/// tree, whatever the columns that it is to resolve them against.
pub open spec fn resolvable<From: Repr, To: Repr, X, G: Fn(
    &Context<To::ExprRepr>,
    &ExprT<From::ExprRepr, X>,
) -> ExprT<To::ExprRepr, X>>(resolve: G, root: Relation<From, X>) -> bool {
    forall|context: Context<To::ExprRepr>, j: int|
        0 <= j < root.node().exprs.len() ==> call_requires(
            resolve,
            (&context, &#[trigger] root.node().exprs[j]),
        )
}

/// Whether a tree can be rebased: the rule can be asked about the tree
/// and about every tree below it, and `resolve` may be called on every
/// expression in them.
pub open spec fn rebasable<From: Repr, To: Repr, X, T: RebaseRel<From, To, X>, G: Fn(
    &Context<To::ExprRepr>,
    &ExprT<From::ExprRepr, X>,
) -> ExprT<To::ExprRepr, X>>(rule: T, resolve: G, root: Relation<From, X>) -> bool
    decreases root.height(),
{
    &&& rule.ready(root)
    &&& resolvable::<From, To, X, G>(resolve, root)
    &&& forall|i: int|
        0 <= i < root.node().kids.len() ==> {
            proof {
                root.lemma_kid_lower(i);
            }
            rebasable(rule, resolve, *#[trigger] root.node().kids[i])
        }
}

/// A rule that can be asked about every tree and a way to resolve that
/// may be called on every expression can rebase every tree.
pub proof fn lemma_rebasable<From: Repr, To: Repr, X, T: RebaseRel<From, To, X>, G: Fn(
    &Context<To::ExprRepr>,
    &ExprT<From::ExprRepr, X>,
) -> ExprT<To::ExprRepr, X>>(rule: T, resolve: G, root: Relation<From, X>)
    requires
        forall|at: Relation<From, X>| #[trigger] rule.ready(at),
        forall|context: Context<To::ExprRepr>, e: ExprT<From::ExprRepr, X>|
            call_requires(resolve, (&context, &e)),
    ensures
        rebasable(rule, resolve, root),
    decreases root.height(),
{
    assert forall|i: int| 0 <= i < root.node().kids.len() implies rebasable(
        rule,
        resolve,
        *#[trigger] root.node().kids[i],
    ) by {
        root.lemma_kid_lower(i);
        lemma_rebasable(rule, resolve, *root.node().kids[i]);
    }
}

/// The columns that the expressions of the node see whose rebased
/// children are `kids`: those of the children where all of them are valid,
/// else none.
fn inherited_context<From: Repr, To: Repr, X>(
    root: &Relation<From, X>,
    kids: &Vec<Arc<Relation<To, X>>>,
) -> (context: Context<To::ExprRepr>)
    requires
        kids@.len() == root.node().kids.len(),
    ensures
        context@ == inherited::<To>(kid_boards(kids@)),
{
    let ghost kb = kid_boards(kids@);
    let mut handles: Vec<&Arc<Relation<To, X>>> = Vec::new();
    push_borrows(&mut handles, kids);
    proof {
        assert(handle_boards(handles@) =~= kb);
    }
    let metas = match gather_metas(&handles) {
        Ok(metas) => metas,
        Err(_) => {
            return Context::new();
        },
    };
    let node = root.as_ref().rebuild(root.expressions(), metas);
    proof {
        assert(Seq::new(node@.kids.len(), |i: int| node@.kids[i]@) =~= values_of(kb)) by {
            assert forall|j: int| 0 <= j < kb.len() implies node@.kids[j]@ == values_of(kb)[j] by {
                assert(kb[j] == Ok::<To::V, ValidateErrorView>(metas@[j]@));
            }
        }
    }
    To::to_inner_context(&node)
}

/// Makes a tree again over its rebased children: resolves every
/// expression of the root against the columns that the children offer and
/// derives the board of the new tree.
pub fn remake<From: Repr, To: Repr, X, G: Fn(
    &Context<To::ExprRepr>,
    &ExprT<From::ExprRepr, X>,
) -> ExprT<To::ExprRepr, X>>(
    root: &Relation<From, X>,
    kids: Vec<Arc<Relation<To, X>>>,
    resolve: &G,
) -> (out: Relation<To, X>)
    requires
        kids@.len() == root.node().kids.len(),
        resolvable::<From, To, X, G>(*resolve, *root),
    ensures
        remade(*resolve, *root, kids@, out),
        (forall|i: int| 0 <= i < kids@.len() ==> (#[trigger] kids@[i]).well_formed())
            ==> out.well_formed(),
{
    let context = inherited_context::<From, To, X>(root, &kids);
    let exprs = root.expressions();
    let mut new_exprs: Vec<ExprT<To::ExprRepr, X>> = Vec::new();
    let mut j: usize = 0;
    while j < exprs.len()
        invariant
            j <= exprs.len(),
            resolvable::<From, To, X, G>(*resolve, *root),
            borrowed(root.node().exprs, exprs@),
            new_exprs@.len() == j,
            forall|k: int|
                0 <= k < j ==> call_ensures(
                    *resolve,
                    (&context, &root.node().exprs[k]),
                    #[trigger] new_exprs@[k],
                ),
        decreases exprs.len() - j,
    {
        assert(*exprs@[j as int] == root.node().exprs[j as int]);
        let e = resolve(&context, exprs[j]);
        new_exprs.push(e);
        j += 1;
    }
    let new_root = root.as_ref().rebuild(new_exprs, kids);
    RelT::<To, ExprT<To::ExprRepr, X>>::from_wrapped(new_root)
}

/// Rebases a tree: resolves its tables against what the rule knows and
/// derives the boards above them anew.
///
/// The rule is asked about the root first, and its answer is the result
/// where it has one. Else every child is rebased, every expression of the
/// root is resolved against the columns that the rebased children offer,
/// and the tree is made again over them, which derives its board.
pub fn rebase<From: Repr, To: Repr, X, T: RebaseRel<From, To, X>, G: Fn(
    &Context<To::ExprRepr>,
    &ExprT<From::ExprRepr, X>,
) -> ExprT<To::ExprRepr, X>>(rule: &T, root: &Relation<From, X>, resolve: &G) -> (out: Relation<To, X>)
    requires
        rebasable(*rule, *resolve, *root),
    ensures
        rebased(*rule, *resolve, *root, out),
        answers_well_formed::<From, To, X, T>(*rule) ==> out.well_formed(),
    decreases root.height(),
{
    match rule.rebase_at(root) {
        Some(new_base) => {
            assert(rule.rebases_at(*root, Some(new_base)));
            new_base
        },
        None => {
            assert(rule.rebases_at(*root, None));
            let kids = root.children();
            let mut new_kids: Vec<Arc<Relation<To, X>>> = Vec::new();
            let mut i: usize = 0;
            while i < kids.len()
                invariant
                    i <= kids.len(),
                    rebasable(*rule, *resolve, *root),
                    kids@.len() == root.node().kids.len(),
                    forall|j: int| 0 <= j < kids@.len() ==> *#[trigger] kids@[j] == *root.node().kids[j],
                    new_kids@.len() == i,
                    forall|j: int|
                        0 <= j < i ==> rebased(
                            *rule,
                            *resolve,
                            *#[trigger] root.node().kids[j],
                            *new_kids@[j],
                        ),
                decreases kids.len() - i,
            {
                proof {
                    root.lemma_kid_lower(i as int);
                    assert(*kids@[i as int] == *root.node().kids[i as int]);
                    assert(rebasable(*rule, *resolve, *root.node().kids[i as int]));
                }
                let kid = rebase(rule, kids[i], resolve);
                new_kids.push(Arc::new(kid));
                i += 1;
            }
            let out = remake(root, new_kids, resolve);
            proof {
                assert(descended(*rule, *resolve, *root, out));
                if answers_well_formed::<From, To, X, T>(*rule) {
                    lemma_rebased_well_formed(*rule, *resolve, *root, out);
                }
            }
            out
        },
    }
}

/// What a rule that looks tables up is to do with a tree.
pub enum Lookup<'a, B> {
    /// The tree is no table: it is rebased part by part.
    Descend,
    /// The tree is a table that is not valid: it keeps its error.
    Keep(&'a ContextKey, &'a ValidateError),
    /// The tree is a valid table: what is known of it and its key are to
    /// be handed to the lookup.
    Ask(&'a ContextKey, &'a B),
}

impl<B, E> RelT<B, E> {
    /// The key of the table that the tree is, where it is one.
    pub open spec fn key_of(self) -> Option<ContextKey> {
        match self.root {
            Root::Leaf(key) => Some(key),
            Root::Inner(node) => match node {
                GenericRel::Table(key) => Some(key),
                _ => None,
            },
        }
    }

    /// The key of the table that the tree is, where it is one.
    pub fn table_key(&self) -> (key: Option<&ContextKey>)
        ensures
            match key {
                Some(key) => self.key_of() == Some(*key) && self.node().shape == Shape::Table(key@),
                None => self.key_of().is_none() && !(self.node().shape is Table),
            },
    {
        match &self.root {
            Root::Leaf(key) => Some(key),
            Root::Inner(node) => match node {
                GenericRel::Table(key) => Some(key),
                _ => None,
            },
        }
    }

    /// What a rule that looks tables up is to do with the tree.
    pub fn lookup_step(&self) -> (step: Lookup<'_, B>)
        ensures
            match step {
                Lookup::Descend => !(self.node().shape is Table),
                Lookup::Keep(key, error) => self.key_of() == Some(*key) && self.node().shape
                    == Shape::Table(key@) && self.board == Err::<B, ValidateError>(*error),
                Lookup::Ask(key, meta) => self.key_of() == Some(*key) && self.node().shape
                    == Shape::Table(key@) && self.board == Ok::<B, ValidateError>(*meta),
            },
    {
        match self.table_key() {
            None => Lookup::Descend,
            Some(key) => match &self.board {
                Err(error) => Lookup::Keep(key, error),
                Ok(meta) => Lookup::Ask(key, meta),
            },
        }
    }
}

/// Whether `tree` is a leaf that stands for the table of the given key.
pub open spec fn is_table<B, E>(tree: RelT<B, E>, key: Seq<Seq<char>>) -> bool {
    &&& tree.root is Leaf
    &&& tree.node().shape == Shape::Table(key)
    &&& tree.node().exprs.len() == 0
    &&& tree.node().kids.len() == 0
}

/// The rule that looks each table up with a function: the function is
/// handed what is known of the table and its key, and what it returns is
/// the board of the table that takes its place.
pub struct RebaseClosure<C> {
    pub closure: C,
}

impl<C> RebaseClosure<C> {
    /// The rule that looks tables up with `closure`.
    pub fn new(closure: C) -> (rule: RebaseClosure<C>)
        ensures
            rule.closure == closure,
    {
        RebaseClosure { closure }
    }
}

impl<From: Repr, To: Repr, X, C: Fn(&From, &ContextKey) -> ValidateResult<To>> RebaseRel<
    From,
    To,
    X,
> for RebaseClosure<C> {
    /// The function is to take what is known of a valid table and its key.
    open spec fn ready(&self, at: Relation<From, X>) -> bool {
        match (at.key_of(), at.board) {
            (Some(key), Ok(meta)) => call_requires(self.closure, (&meta, &key)),
            _ => true,
        }
    }

    /// A table is replaced by a table of the same key. Where it was not
    /// valid the new one has its error; else its board is what the
    /// function returns. Any other tree is left to be rebased part by part.
    open spec fn rebases_at(&self, at: Relation<From, X>, out: Option<Relation<To, X>>) -> bool {
        match at.node().shape {
            Shape::Table(key) => {
                &&& out matches Some(tree)
                &&& is_table(tree, key)
                &&& match at.board {
                    Err(error) => board_view(tree.board) == Err::<To::V, ValidateErrorView>(error@),
                    Ok(meta) => exists|k: ContextKey|
                        k@ == key && #[trigger] call_ensures(self.closure, (&meta, &k), tree.board),
                }
            },
            _ => out.is_none(),
        }
    }

    fn rebase_at(&self, at: &Relation<From, X>) -> (out: Option<Relation<To, X>>) {
        match at.lookup_step() {
            Lookup::Descend => None,
            Lookup::Keep(context_key, error) => Some(
                RelT::leaf(context_key.clone(), Err(error.clone())),
            ),
            Lookup::Ask(context_key, board) => {
                let found = (self.closure)(board, context_key);
                assert(call_ensures(self.closure, (&at.board->Ok_0, context_key), found));
                Some(RelT::leaf(context_key.clone(), found))
            },
        }
    }
}

/// What a context of tables answers for a key: the metadata that it holds
/// under the key, or that there is no such table.
pub open spec fn resolved(tables: Entries<TableMetaView>, key: Seq<Seq<char>>) -> Result<
    TableMetaView,
    ValidateErrorView,
> {
    match lookup(tables, key) {
        Some(meta) => Ok(meta),
        None => Err(ValidateErrorView::TableNotFound(key)),
    }
}

/// Whether `board` is what a context answers for a key: a clone of the
/// metadata that it holds under the key, or the error that no such table
/// is found.
pub open spec fn answered<M: View + Clone>(
    tables: Context<M>,
    key: Seq<Seq<char>>,
    board: ValidateResult<M>,
) -> bool {
    if has_key(tables@, key) {
        board matches Ok(meta) && cloned(tables.stored(key), meta)
    } else {
        board matches Err(error) && error@ == ValidateErrorView::TableNotFound(key)
    }
}

/// What a context of table metadata answers is, as plain values, what it
/// holds under the key.
pub proof fn lemma_answered_view(
    tables: Context<TableMeta>,
    key: Seq<Seq<char>>,
    board: ValidateResult<TableMeta>,
)
    requires
        answered(tables, key, board),
    ensures
        board_view(board) == resolved(tables@, key),
{
    if has_key(tables@, key) {
        lemma_has_position(tables@, key);
        let at = position(tables@, key);
        assert(tables@[at].1 == tables.entries@[at].1@);
    }
}

impl<From: Repr, To: Repr + Clone, X> RebaseRel<From, To, X> for Context<To> {
    open spec fn ready(&self, at: Relation<From, X>) -> bool {
        true
    }

    /// A table is replaced by a table of the same key. Where it was not
    /// valid the new one has its error; else its board is what the context
    /// holds under the key, or the error that no such table is found. Any
    /// other tree is left to be rebased part by part.
    open spec fn rebases_at(&self, at: Relation<From, X>, out: Option<Relation<To, X>>) -> bool {
        match at.node().shape {
            Shape::Table(key) => {
                &&& out matches Some(tree)
                &&& is_table(tree, key)
                &&& match at.board {
                    Err(error) => board_view(tree.board) == Err::<To::V, ValidateErrorView>(error@),
                    Ok(_) => answered(*self, key, tree.board),
                }
            },
            _ => out.is_none(),
        }
    }

    fn rebase_at(&self, at: &Relation<From, X>) -> (out: Option<Relation<To, X>>) {
        match at.lookup_step() {
            Lookup::Descend => None,
            Lookup::Keep(context_key, error) => Some(
                RelT::leaf(context_key.clone(), Err(error.clone())),
            ),
            Lookup::Ask(context_key, _) => {
                let board = match self.get(context_key) {
                    Some(meta) => Ok(meta.clone()),
                    None => Err(ValidateError::TableNotFound(context_key.clone())),
                };
                Some(RelT::leaf(context_key.clone(), board))
            },
        }
    }
}

/// Whether every table of the tree is valid and is held by `tables`, under
/// its key, with the very metadata that it has.
pub open spec fn fully_matched<X>(tables: Entries<TableMetaView>, tree: Relation<TableMeta, X>) -> bool
    decreases tree.height(),
{
    match tree.node().shape {
        Shape::Table(key) => board_view(tree.board).is_ok() && lookup(tables, key) == Some(
            board_view(tree.board)->Ok_0,
        ),
        _ => forall|i: int|
            0 <= i < tree.node().kids.len() ==> {
                proof {
                    tree.lemma_kid_lower(i);
                }
                fully_matched(tables, *#[trigger] tree.node().kids[i])
            },
    }
}

/// Whether resolving an expression never changes its board.
pub open spec fn keeps_boards<X, G: Fn(&Context<ExprMeta>, &ExprT<ExprMeta, X>) -> ExprT<
    ExprMeta,
    X,
>>(resolve: G) -> bool {
    forall|context: Context<ExprMeta>, e: ExprT<ExprMeta, X>, out: ExprT<ExprMeta, X>|
        #[trigger] call_ensures(resolve, (&context, &e), out) ==> board_view(out.board) == board_view(
            e.board,
        )
}

/// Rebasing against a context that holds every table of a tree as the
/// tree knows it changes no metadata: the board of the rebased tree is
/// that of the tree. This is said of a well-formed tree and of a way to
/// resolve expressions that leaves their boards as they are.
pub proof fn law_rebase_full_match<X, G: Fn(&Context<ExprMeta>, &ExprT<ExprMeta, X>) -> ExprT<
    ExprMeta,
    X,
>>(
    tables: Context<TableMeta>,
    resolve: G,
    root: Relation<TableMeta, X>,
    out: Relation<TableMeta, X>,
)
    requires
        root.well_formed(),
        fully_matched(tables@, root),
        keeps_boards(resolve),
        rebased(tables, resolve, root, out),
    ensures
        board_view(out.board) == board_view(root.board),
    decreases root.height(),
{
    let found = choose|found: Option<Relation<TableMeta, X>>|
        #![trigger tables.rebases_at(root, found)]
        tables.rebases_at(root, found) && match found {
            Some(tree) => out == tree,
            None => descended(tables, resolve, root, out),
        };
    match root.node().shape {
        Shape::Table(key) => {
            lemma_answered_view(tables, key, out.board);
        },
        _ => {
            assert(descended(tables, resolve, root, out));
            assert forall|i: int| 0 <= i < root.node().kids.len() implies board_view(
                out.node().kids[i].board,
            ) == board_view(root.node().kids[i].board) by {
                root.lemma_kid_lower(i);
                assert(fully_matched(tables@, *root.node().kids[i]));
                assert(root.node().kids[i].well_formed());
                assert(rebased(tables, resolve, *root.node().kids[i], *out.node().kids[i]));
                law_rebase_full_match(
                    tables,
                    resolve,
                    *root.node().kids[i],
                    *out.node().kids[i],
                );
            }
            let context = choose|context: Context<ExprMeta>|
                {
                    &&& context@ == inherited::<TableMeta>(kid_boards(out.node().kids))
                    &&& forall|j: int|
                        0 <= j < root.node().exprs.len() ==> call_ensures(
                            resolve,
                            (&context, &root.node().exprs[j]),
                            #[trigger] out.node().exprs[j],
                        )
                };
            assert forall|j: int| 0 <= j < root.node().exprs.len() implies board_view(
                out.node().exprs[j].board,
            ) == board_view(root.node().exprs[j].board) by {
                assert(call_ensures(resolve, (&context, &root.node().exprs[j]), out.node().exprs[j]));
            }
            law_board_deterministic::<TableMeta, X>(out.node(), root.node());
        },
    }
}

/// Whether every tree that the rule answers with is well formed.
pub open spec fn answers_well_formed<From: Repr, To: Repr, X, T: RebaseRel<From, To, X>>(rule: T) -> bool {
    forall|at: Relation<From, X>, tree: Relation<To, X>|
        #[trigger] rule.rebases_at(at, Some(tree)) ==> tree.well_formed()
}

/// The rule that looks tables up with a function answers with leaves,
/// which are well formed.
pub proof fn lemma_closure_answers_well_formed<
    From: Repr,
    To: Repr,
    X,
    C: Fn(&From, &ContextKey) -> ValidateResult<To>,
>(rule: RebaseClosure<C>)
    ensures
        answers_well_formed::<From, To, X, RebaseClosure<C>>(rule),
{
    assert forall|at: Relation<From, X>, tree: Relation<To, X>| #[trigger]
        rule.rebases_at(at, Some(tree)) implies tree.well_formed() by {
        assert(tree.root is Leaf);
    }
}

/// A context of tables answers with leaves, which are well formed.
pub proof fn lemma_context_answers_well_formed<From: Repr, X>(tables: Context<TableMeta>)
    ensures
        answers_well_formed::<From, TableMeta, X, Context<TableMeta>>(tables),
{
    assert forall|at: Relation<From, X>, tree: Relation<TableMeta, X>| #[trigger]
        tables.rebases_at(at, Some(tree)) implies tree.well_formed() by {
        assert(tree.root is Leaf);
    }
}

/// Rebasing with a rule whose answers are well formed gives a well-formed
/// tree, whatever the tree that is rebased.
pub proof fn lemma_rebased_well_formed<From: Repr, To: Repr, X, T: RebaseRel<From, To, X>, G: Fn(
    &Context<To::ExprRepr>,
    &ExprT<From::ExprRepr, X>,
) -> ExprT<To::ExprRepr, X>>(rule: T, resolve: G, root: Relation<From, X>, out: Relation<To, X>)
    requires
        answers_well_formed::<From, To, X, T>(rule),
        rebased(rule, resolve, root, out),
    ensures
        out.well_formed(),
    decreases root.height(),
{
    let found = choose|found: Option<Relation<To, X>>|
        #![trigger rule.rebases_at(root, found)]
        rule.rebases_at(root, found) && match found {
            Some(tree) => out == tree,
            None => descended(rule, resolve, root, out),
        };
    match found {
        Some(tree) => {
            assert(rule.rebases_at(root, Some(tree)));
        },
        None => {
            assert(descended(rule, resolve, root, out));
            assert forall|i: int| 0 <= i < out.node().kids.len() implies (
            #[trigger] out.node().kids[i]).well_formed() by {
                root.lemma_kid_lower(i);
                assert(rebased(rule, resolve, *root.node().kids[i], *out.node().kids[i]));
                lemma_rebased_well_formed(
                    rule,
                    resolve,
                    *root.node().kids[i],
                    *out.node().kids[i],
                );
            }
        },
    }
}

/// Rebasing a tree whose tables a context holds as the tree knows them
/// gives a tree whose tables the context holds as that tree knows them.
pub proof fn lemma_rebased_fully_matched<X, G: Fn(&Context<ExprMeta>, &ExprT<ExprMeta, X>) -> ExprT<
    ExprMeta,
    X,
>>(
    tables: Context<TableMeta>,
    resolve: G,
    root: Relation<TableMeta, X>,
    out: Relation<TableMeta, X>,
)
    requires
        fully_matched(tables@, root),
        rebased(tables, resolve, root, out),
    ensures
        fully_matched(tables@, out),
    decreases root.height(),
{
    let found = choose|found: Option<Relation<TableMeta, X>>|
        #![trigger tables.rebases_at(root, found)]
        tables.rebases_at(root, found) && match found {
            Some(tree) => out == tree,
            None => descended(tables, resolve, root, out),
        };
    match root.node().shape {
        Shape::Table(key) => {
            lemma_answered_view(tables, key, out.board);
        },
        _ => {
            assert(descended(tables, resolve, root, out));
            assert forall|i: int| 0 <= i < out.node().kids.len() implies fully_matched(
                tables@,
                *#[trigger] out.node().kids[i],
            ) by {
                root.lemma_kid_lower(i);
                assert(fully_matched(tables@, *root.node().kids[i]));
                assert(rebased(tables, resolve, *root.node().kids[i], *out.node().kids[i]));
                lemma_rebased_fully_matched(
                    tables,
                    resolve,
                    *root.node().kids[i],
                    *out.node().kids[i],
                );
            }
        },
    }
}

/// Rebasing once more changes nothing either: after a rebase against a
/// context that holds every table of a tree as the tree knows it, and
/// after a second rebase of the result against the same context, the
/// board is that of the tree. This is said of a well-formed tree and of a
/// way to resolve expressions that leaves their boards as they are.
pub proof fn law_rebase_again<X, G: Fn(&Context<ExprMeta>, &ExprT<ExprMeta, X>) -> ExprT<ExprMeta, X>>(
    tables: Context<TableMeta>,
    resolve: G,
    root: Relation<TableMeta, X>,
    once: Relation<TableMeta, X>,
    twice: Relation<TableMeta, X>,
)
    requires
        root.well_formed(),
        fully_matched(tables@, root),
        keeps_boards(resolve),
        rebased(tables, resolve, root, once),
        rebased(tables, resolve, once, twice),
    ensures
        once.well_formed(),
        fully_matched(tables@, once),
        board_view(once.board) == board_view(root.board),
        board_view(twice.board) == board_view(root.board),
{
    lemma_context_answers_well_formed::<TableMeta, X>(tables);
    lemma_rebased_well_formed(tables, resolve, root, once);
    lemma_rebased_fully_matched(tables, resolve, root, once);
    law_rebase_full_match(tables, resolve, root, once);
    law_rebase_full_match(tables, resolve, once, twice);
}

} // verus!
