//! Relation nodes: the operators of the relational algebra over any kind of
//! expression and any kind of child, and the ways to walk them.

use vstd::prelude::*;
use crate::key::ContextKey;

verus! {

/// The direction of a sort key.
#[derive(Clone, Copy, Debug, PartialEq, Eq, Structural)]
pub enum Order {
    Asc,
    Desc,
}

/// How two relations with the same columns are combined.
#[derive(Clone, Copy, Debug, PartialEq, Eq, Structural)]
pub enum SetOperator {
    Union,
    Except,
    Intersect,
}

/// Which pairs of rows a join keeps.
#[derive(Debug, PartialEq, Eq)]
pub enum JoinConstraint<E> {
    On(E),
    Using(Vec<ContextKey>),
    Natural,
}

/// The kind of a join, with its constraint.
#[derive(Debug, PartialEq, Eq)]
pub enum JoinOperator<E> {
    Inner(JoinConstraint<E>),
    LeftOuter(JoinConstraint<E>),
    RightOuter(JoinConstraint<E>),
    FullOuter(JoinConstraint<E>),
    CrossJoin,
}

/// A relational operator over expressions `E` and children `C`.
#[derive(Debug, PartialEq, Eq)]
#[allow(inconsistent_fields)]
pub enum GenericRel<E, C> {
    Aggregation { attributes: Vec<E>, group_by: Vec<E>, from: C },
    Projection { attributes: Vec<E>, from: C },
    Selection { from: C, where_: E },
    Join { left: C, right: C, operator: JoinOperator<E> },
    SetOperation { operator: SetOperator, left: C, right: C },
    Offset { offset: E, from: C },
    Limit { number_rows: E, from: C },
    OrderBy { order: Vec<Order>, by: Vec<E>, from: C },
    Distinct { from: C },
    WithAlias { from: C, alias: String },
    Table(ContextKey),
}

/// A join constraint without its expression.
pub enum ConstraintShape {
    On,
    Using(Seq<Seq<Seq<char>>>),
    Natural,
}

/// A join operator without its expression.
pub enum JoinShape {
    Inner(ConstraintShape),
    LeftOuter(ConstraintShape),
    RightOuter(ConstraintShape),
    FullOuter(ConstraintShape),
    CrossJoin,
}

/// What is left of a node when its expressions and children are taken out:
/// the operator and what it holds besides them.
pub enum Shape {
    /// An aggregation whose first `attributes` expressions are its
    /// attributes; the others are what it groups by.
    Aggregation { attributes: nat },
    Projection,
    Selection,
    Join(JoinShape),
    SetOperation(SetOperator),
    Offset,
    Limit,
    OrderBy(Seq<Order>),
    Distinct,
    WithAlias(Seq<char>),
    Table(Seq<Seq<char>>),
}

/// A node as its shape, its expressions in order and its children in order.
pub struct NodeView<E, C> {
    pub shape: Shape,
    pub exprs: Seq<E>,
    pub kids: Seq<C>,
}

/// The views of a list of keys.
pub open spec fn key_views(keys: Seq<ContextKey>) -> Seq<Seq<Seq<char>>> {
    Seq::new(keys.len(), |i: int| keys[i]@)
}

/// Whether `f` may be called on every item.
pub open spec fn callable<E, O, F: Fn(&E) -> O>(f: F, items: Seq<E>) -> bool {
    forall|i: int| 0 <= i < items.len() ==> call_requires(f, (&#[trigger] items[i],))
}

/// Whether `out` holds, place by place, what `f` may return on the items.
pub open spec fn mapped<E, O, F: Fn(&E) -> O>(f: F, items: Seq<E>, out: Seq<O>) -> bool {
    &&& out.len() == items.len()
    &&& forall|i: int| 0 <= i < items.len() ==> call_ensures(f, (&items[i],), #[trigger] out[i])
}

/// Whether `f` may be called on every item, handed over by value.
pub open spec fn callable_owned<E, O, F: Fn(E) -> O>(f: F, items: Seq<E>) -> bool {
    forall|i: int| 0 <= i < items.len() ==> call_requires(f, (#[trigger] items[i],))
}

/// Whether `out` holds, place by place, what `f` may return on the items,
/// handed over by value.
pub open spec fn mapped_owned<E, O, F: Fn(E) -> O>(f: F, items: Seq<E>, out: Seq<O>) -> bool {
    &&& out.len() == items.len()
    &&& forall|i: int| 0 <= i < items.len() ==> call_ensures(f, (items[i],), #[trigger] out[i])
}

/// Whether `out` holds, place by place, a clone of each item.
pub open spec fn all_cloned<T: Clone>(items: Seq<T>, out: Seq<T>) -> bool {
    &&& out.len() == items.len()
    &&& forall|i: int| 0 <= i < items.len() ==> cloned(items[i], #[trigger] out[i])
}

/// Whether every item is a success and `values` holds what they carry.
pub open spec fn all_ok<V, X>(items: Seq<Result<V, X>>, values: Seq<V>) -> bool {
    &&& values.len() == items.len()
    &&& forall|i: int| 0 <= i < items.len() ==> #[trigger] items[i] == Ok::<V, X>(values[i])
}

/// Whether `error` is carried by the first item that is a failure.
pub open spec fn first_error<V, X>(items: Seq<Result<V, X>>, error: X) -> bool {
    exists|i: int|
        0 <= i < items.len() && #[trigger] items[i] == Err::<V, X>(error) && forall|j: int|
            0 <= j < i ==> (#[trigger] items[j]).is_ok()
}

/// Whether `out` borrows the items, place by place.
pub open spec fn borrowed<T>(items: Seq<T>, out: Seq<&T>) -> bool {
    &&& out.len() == items.len()
    &&& forall|i: int| 0 <= i < items.len() ==> *#[trigger] out[i] == items[i]
}

/// A copy of a list of keys.
pub fn clone_keys(keys: &Vec<ContextKey>) -> (copy: Vec<ContextKey>)
    ensures
        key_views(copy@) == key_views(keys@),
{
    let mut copy: Vec<ContextKey> = Vec::new();
    let mut i: usize = 0;
    while i < keys.len()
        invariant
            i <= keys.len(),
            copy@.len() == i,
            forall|j: int| 0 <= j < i ==> copy@[j]@ == keys@[j]@,
        decreases keys.len() - i,
    {
        copy.push(keys[i].clone());
        i += 1;
    }
    assert(key_views(copy@) =~= key_views(keys@));
    copy
}

/// A copy of a list of sort directions.
pub fn clone_order(order: &Vec<Order>) -> (copy: Vec<Order>)
    ensures
        copy@ == order@,
{
    let mut copy: Vec<Order> = Vec::new();
    let mut i: usize = 0;
    while i < order.len()
        invariant
            i <= order.len(),
            copy@ == order@.take(i as int),
        decreases order.len() - i,
    {
        copy.push(order[i]);
        assert(copy@ =~= order@.take(i + 1));
        i += 1;
    }
    assert(order@.take(i as int) =~= order@);
    copy
}

/// The items in the opposite order.
pub fn reversed<T>(items: Vec<T>) -> (out: Vec<T>)
    ensures
        out@.len() == items@.len(),
        forall|i: int| 0 <= i < items@.len() ==> #[trigger] out@[i] == items@[items@.len() - 1 - i],
{
    let ghost all = items@;
    let mut left = items;
    let mut out: Vec<T> = Vec::new();
    while left.len() > 0
        invariant
            left@.len() + out@.len() == all.len(),
            forall|j: int| 0 <= j < left@.len() ==> left@[j] == all[j],
            forall|j: int| 0 <= j < out@.len() ==> #[trigger] out@[j] == all[all.len() - 1 - j],
        decreases left.len(),
    {
        let item = left.pop().unwrap();
        out.push(item);
    }
    out
}

/// What `f` returns on each item, in order.
pub fn map_items<E, O, F: Fn(&E) -> O>(items: &Vec<E>, f: &F) -> (out: Vec<O>)
    requires
        callable(*f, items@),
    ensures
        mapped(*f, items@, out@),
{
    let mut out: Vec<O> = Vec::new();
    let mut i: usize = 0;
    while i < items.len()
        invariant
            i <= items.len(),
            callable(*f, items@),
            out@.len() == i,
            forall|j: int| 0 <= j < i ==> call_ensures(*f, (&items@[j],), #[trigger] out@[j]),
        decreases items.len() - i,
    {
        assert(call_requires(*f, (&items@[i as int],)));
        let o = f(&items[i]);
        out.push(o);
        i += 1;
    }
    out
}

/// The values of a list of successes, or the error of its first failure.
pub fn collect_results<V, X>(items: Vec<Result<V, X>>) -> (out: Result<Vec<V>, X>)
    ensures
        match out {
            Ok(values) => all_ok(items@, values@),
            Err(error) => first_error(items@, error),
        },
{
    let ghost all = items@;
    let mut left = items;
    let mut rest: Vec<Result<V, X>> = Vec::new();
    // Turn the list round, so that its items can be taken from the front.
    while left.len() > 0
        invariant
            left@.len() + rest@.len() == all.len(),
            forall|j: int| 0 <= j < left@.len() ==> left@[j] == all[j],
            forall|j: int| 0 <= j < rest@.len() ==> rest@[j] == all[all.len() - 1 - j],
        decreases left.len(),
    {
        let item = left.pop().unwrap();
        rest.push(item);
    }
    let mut values: Vec<V> = Vec::new();
    while rest.len() > 0
        invariant
            all == items@,
            values@.len() + rest@.len() == all.len(),
            forall|j: int| 0 <= j < rest@.len() ==> rest@[j] == all[all.len() - 1 - j],
            forall|j: int| 0 <= j < values@.len() ==> #[trigger] all[j] == Ok::<V, X>(values@[j]),
        decreases rest.len(),
    {
        let ghost at = values@.len() as int;
        let item = rest.pop().unwrap();
        assert(item == all[at]);
        match item {
            Ok(value) => {
                values.push(value);
            },
            Err(error) => {
                assert(all[at] == Err::<V, X>(error));
                assert forall|j: int| 0 <= j < at implies (#[trigger] all[j]).is_ok() by {
                    assert(all[j] == Ok::<V, X>(values@[j]));
                }
                return Err(error);
            },
        }
    }
    Ok(values)
}

impl<E> JoinConstraint<E> {
    /// The constraint without its expression.
    pub open spec fn shape(self) -> ConstraintShape {
        match self {
            JoinConstraint::On(_) => ConstraintShape::On,
            JoinConstraint::Using(keys) => ConstraintShape::Using(key_views(keys@)),
            JoinConstraint::Natural => ConstraintShape::Natural,
        }
    }

    /// The expressions of the constraint: the condition of `On`, else none.
    pub open spec fn exprs(self) -> Seq<E> {
        match self {
            JoinConstraint::On(e) => seq![e],
            _ => Seq::empty(),
        }
    }

    /// The same constraint over what `f` returns on its expression.
    pub fn map_expressions<O, F: Fn(&E) -> O>(&self, f: &F) -> (out: JoinConstraint<O>)
        requires
            callable(*f, self.exprs()),
        ensures
            out.shape() == self.shape(),
            mapped(*f, self.exprs(), out.exprs()),
    {
        match self {
            JoinConstraint::On(e) => {
                assert(self.exprs()[0] == *e);
                JoinConstraint::On(f(e))
            },
            JoinConstraint::Using(what) => JoinConstraint::Using(clone_keys(what)),
            JoinConstraint::Natural => JoinConstraint::Natural,
        }
    }
}

impl<V, X> JoinConstraint<Result<V, X>> {
    /// The constraint over the value of its expression, or the error that
    /// the expression is.
    pub fn into_result_expressions(self) -> (out: Result<JoinConstraint<V>, X>)
        ensures
            match out {
                Ok(constraint) => constraint.shape() == self.shape() && all_ok(
                    self.exprs(),
                    constraint.exprs(),
                ),
                Err(error) => first_error(self.exprs(), error),
            },
    {
        match self {
            JoinConstraint::On(e) => match e {
                Ok(value) => Ok(JoinConstraint::On(value)),
                Err(error) => {
                    assert(self.exprs()[0] == Err::<V, X>(error));
                    Err(error)
                },
            },
            JoinConstraint::Using(what) => Ok(JoinConstraint::Using(what)),
            JoinConstraint::Natural => Ok(JoinConstraint::Natural),
        }
    }
}

impl<E> JoinOperator<E> {
    /// The operator without its expression.
    pub open spec fn shape(self) -> JoinShape {
        match self {
            JoinOperator::Inner(c) => JoinShape::Inner(c.shape()),
            JoinOperator::LeftOuter(c) => JoinShape::LeftOuter(c.shape()),
            JoinOperator::RightOuter(c) => JoinShape::RightOuter(c.shape()),
            JoinOperator::FullOuter(c) => JoinShape::FullOuter(c.shape()),
            JoinOperator::CrossJoin => JoinShape::CrossJoin,
        }
    }

    /// The expressions of the operator: those of its constraint.
    pub open spec fn exprs(self) -> Seq<E> {
        match self {
            JoinOperator::Inner(c) => c.exprs(),
            JoinOperator::LeftOuter(c) => c.exprs(),
            JoinOperator::RightOuter(c) => c.exprs(),
            JoinOperator::FullOuter(c) => c.exprs(),
            JoinOperator::CrossJoin => Seq::empty(),
        }
    }

    /// The same operator over what `f` returns on its expression.
    pub fn map_expressions<O, F: Fn(&E) -> O>(&self, f: &F) -> (out: JoinOperator<O>)
        requires
            callable(*f, self.exprs()),
        ensures
            out.shape() == self.shape(),
            mapped(*f, self.exprs(), out.exprs()),
    {
        match self {
            JoinOperator::Inner(inner) => JoinOperator::Inner(inner.map_expressions(f)),
            JoinOperator::LeftOuter(inner) => JoinOperator::LeftOuter(inner.map_expressions(f)),
            JoinOperator::RightOuter(inner) => JoinOperator::RightOuter(inner.map_expressions(f)),
            JoinOperator::FullOuter(inner) => JoinOperator::FullOuter(inner.map_expressions(f)),
            JoinOperator::CrossJoin => JoinOperator::CrossJoin,
        }
    }
}

impl<V, X> JoinOperator<Result<V, X>> {
    /// The operator over the value of its expression, or the error that the
    /// expression is.
    pub fn into_result_expressions(self) -> (out: Result<JoinOperator<V>, X>)
        ensures
            match out {
                Ok(operator) => operator.shape() == self.shape() && all_ok(
                    self.exprs(),
                    operator.exprs(),
                ),
                Err(error) => first_error(self.exprs(), error),
            },
    {
        match self {
            JoinOperator::Inner(inner) => match inner.into_result_expressions() {
                Ok(c) => Ok(JoinOperator::Inner(c)),
                Err(error) => Err(error),
            },
            JoinOperator::LeftOuter(inner) => match inner.into_result_expressions() {
                Ok(c) => Ok(JoinOperator::LeftOuter(c)),
                Err(error) => Err(error),
            },
            JoinOperator::RightOuter(inner) => match inner.into_result_expressions() {
                Ok(c) => Ok(JoinOperator::RightOuter(c)),
                Err(error) => Err(error),
            },
            JoinOperator::FullOuter(inner) => match inner.into_result_expressions() {
                Ok(c) => Ok(JoinOperator::FullOuter(c)),
                Err(error) => Err(error),
            },
            JoinOperator::CrossJoin => Ok(JoinOperator::CrossJoin),
        }
    }
}

/// Where `f` may be called on all of a list, it may be called on each part of it.
pub proof fn lemma_callable_parts<E, O, F: Fn(&E) -> O>(f: F, a: Seq<E>, b: Seq<E>)
    requires
        callable(f, a + b),
    ensures
        callable(f, a),
        callable(f, b),
{
    assert forall|i: int| 0 <= i < a.len() implies call_requires(f, (&#[trigger] a[i],)) by {
        assert((a + b)[i] == a[i]);
    }
    assert forall|i: int| 0 <= i < b.len() implies call_requires(f, (&#[trigger] b[i],)) by {
        assert((a + b)[a.len() + i] == b[i]);
    }
}

/// Two mapped lists, one after the other, are the mapping of the two lists
/// one after the other.
pub proof fn lemma_mapped_parts<E, O, F: Fn(&E) -> O>(
    f: F,
    a: Seq<E>,
    b: Seq<E>,
    x: Seq<O>,
    y: Seq<O>,
)
    requires
        mapped(f, a, x),
        mapped(f, b, y),
    ensures
        mapped(f, a + b, x + y),
{
    assert forall|i: int| 0 <= i < (a + b).len() implies call_ensures(
        f,
        (&(a + b)[i],),
        #[trigger] (x + y)[i],
    ) by {
        if i < a.len() {
            assert((x + y)[i] == x[i]);
        } else {
            assert((x + y)[i] == y[i - a.len()]);
        }
    }
}

impl<E, C> GenericRel<E, C> {
    /// The operator and what it holds besides expressions and children.
    pub open spec fn shape(self) -> Shape {
        match self {
            GenericRel::Aggregation { attributes, .. } => Shape::Aggregation {
                attributes: attributes@.len(),
            },
            GenericRel::Projection { .. } => Shape::Projection,
            GenericRel::Selection { .. } => Shape::Selection,
            GenericRel::Join { operator, .. } => Shape::Join(operator.shape()),
            GenericRel::SetOperation { operator, .. } => Shape::SetOperation(operator),
            GenericRel::Offset { .. } => Shape::Offset,
            GenericRel::Limit { .. } => Shape::Limit,
            GenericRel::OrderBy { order, .. } => Shape::OrderBy(order@),
            GenericRel::Distinct { .. } => Shape::Distinct,
            GenericRel::WithAlias { alias, .. } => Shape::WithAlias(alias@),
            GenericRel::Table(key) => Shape::Table(key@),
        }
    }

    /// The expressions of the node, in the order of its fields.
    pub open spec fn exprs(self) -> Seq<E> {
        match self {
            GenericRel::Aggregation { attributes, group_by, .. } => attributes@ + group_by@,
            GenericRel::Projection { attributes, .. } => attributes@,
            GenericRel::Selection { where_, .. } => seq![where_],
            GenericRel::Join { operator, .. } => operator.exprs(),
            GenericRel::SetOperation { .. } => Seq::empty(),
            GenericRel::Offset { offset, .. } => seq![offset],
            GenericRel::Limit { number_rows, .. } => seq![number_rows],
            GenericRel::OrderBy { by, .. } => by@,
            GenericRel::Distinct { .. } => Seq::empty(),
            GenericRel::WithAlias { .. } => Seq::empty(),
            GenericRel::Table(_) => Seq::empty(),
        }
    }

    /// The children of the node, left before right.
    pub open spec fn kids(self) -> Seq<C> {
        match self {
            GenericRel::Aggregation { from, .. } => seq![from],
            GenericRel::Projection { from, .. } => seq![from],
            GenericRel::Selection { from, .. } => seq![from],
            GenericRel::Join { left, right, .. } => seq![left, right],
            GenericRel::SetOperation { left, right, .. } => seq![left, right],
            GenericRel::Offset { from, .. } => seq![from],
            GenericRel::Limit { from, .. } => seq![from],
            GenericRel::OrderBy { from, .. } => seq![from],
            GenericRel::Distinct { from } => seq![from],
            GenericRel::WithAlias { from, .. } => seq![from],
            GenericRel::Table(_) => Seq::empty(),
        }
    }
}

impl<E, C> View for GenericRel<E, C> {
    type V = NodeView<E, C>;

    open spec fn view(&self) -> NodeView<E, C> {
        NodeView { shape: self.shape(), exprs: self.exprs(), kids: self.kids() }
    }
}

impl<E, C: Clone> GenericRel<E, C> {
    /// The same node over what `f` returns on each expression. The children
    /// are cloned, and what else the node holds is kept.
    pub fn map_expressions<O, F: Fn(&E) -> O>(&self, f: &F) -> (out: GenericRel<O, C>)
        requires
            callable(*f, self@.exprs),
        ensures
            out@.shape == self@.shape,
            mapped(*f, self@.exprs, out@.exprs),
            all_cloned(self@.kids, out@.kids),
    {
        match self {
            GenericRel::Aggregation { attributes, group_by, from } => {
                proof {
                    lemma_callable_parts(*f, attributes@, group_by@);
                }
                let a = map_items(attributes, f);
                let g = map_items(group_by, f);
                proof {
                    lemma_mapped_parts(*f, attributes@, group_by@, a@, g@);
                }
                GenericRel::Aggregation { attributes: a, group_by: g, from: from.clone() }
            },
            GenericRel::Projection { attributes, from } => GenericRel::Projection {
                attributes: map_items(attributes, f),
                from: from.clone(),
            },
            GenericRel::Selection { from, where_ } => {
                assert(self@.exprs[0] == *where_);
                GenericRel::Selection { from: from.clone(), where_: f(where_) }
            },
            GenericRel::Offset { offset, from } => {
                assert(self@.exprs[0] == *offset);
                GenericRel::Offset { offset: f(offset), from: from.clone() }
            },
            GenericRel::Limit { number_rows, from } => {
                assert(self@.exprs[0] == *number_rows);
                GenericRel::Limit { number_rows: f(number_rows), from: from.clone() }
            },
            GenericRel::OrderBy { order, by, from } => GenericRel::OrderBy {
                order: clone_order(order),
                by: map_items(by, f),
                from: from.clone(),
            },
            GenericRel::Join { left, right, operator } => GenericRel::Join {
                left: left.clone(),
                right: right.clone(),
                operator: operator.map_expressions(f),
            },
            GenericRel::SetOperation { operator, left, right } => GenericRel::SetOperation {
                operator: *operator,
                left: left.clone(),
                right: right.clone(),
            },
            GenericRel::Distinct { from } => GenericRel::Distinct { from: from.clone() },
            GenericRel::WithAlias { from, alias } => GenericRel::WithAlias {
                from: from.clone(),
                alias: alias.clone(),
            },
            GenericRel::Table(context_key) => GenericRel::Table(context_key.clone()),
        }
    }
}

impl<V, X, T> GenericRel<Result<V, X>, T> {
    /// The node over the values of its expressions, or the error of the
    /// first expression, in the order of the fields, that is one.
    pub fn into_result_expressions(self) -> (out: Result<GenericRel<V, T>, X>)
        ensures
            match out {
                Ok(node) => {
                    &&& node@.shape == self@.shape
                    &&& all_ok(self@.exprs, node@.exprs)
                    &&& node@.kids == self@.kids
                },
                Err(error) => first_error(self@.exprs, error),
            },
    {
        match self {
            GenericRel::Aggregation { attributes, group_by, from } => {
                let ghost all = attributes@ + group_by@;
                match collect_results(attributes) {
                    Err(error) => {
                        proof {
                            let i = choose|i: int|
                                0 <= i < attributes@.len() && #[trigger] attributes@[i] == Err::<
                                    V,
                                    X,
                                >(error) && forall|j: int|
                                    0 <= j < i ==> (#[trigger] attributes@[j]).is_ok();
                            assert(all[i] == Err::<V, X>(error));
                            assert forall|j: int| 0 <= j < i implies (#[trigger] all[j]).is_ok() by {
                                assert(all[j] == attributes@[j]);
                            }
                        }
                        Err(error)
                    },
                    Ok(a) => match collect_results(group_by) {
                        Err(error) => {
                            proof {
                                let n = attributes@.len() as int;
                                let i = choose|i: int|
                                    0 <= i < group_by@.len() && #[trigger] group_by@[i] == Err::<
                                        V,
                                        X,
                                    >(error) && forall|j: int|
                                        0 <= j < i ==> (#[trigger] group_by@[j]).is_ok();
                                assert(all[n + i] == Err::<V, X>(error));
                                assert forall|j: int| 0 <= j < n + i implies (
                                #[trigger] all[j]).is_ok() by {
                                    if j < n {
                                        assert(all[j] == attributes@[j]);
                                    } else {
                                        assert(all[j] == group_by@[j - n]);
                                    }
                                }
                            }
                            Err(error)
                        },
                        Ok(g) => {
                            proof {
                                let n = attributes@.len() as int;
                                assert forall|i: int| 0 <= i < all.len() implies #[trigger] all[i]
                                    == Ok::<V, X>((a@ + g@)[i]) by {
                                    if i < n {
                                        assert(attributes@[i] == Ok::<V, X>(a@[i]));
                                    } else {
                                        assert(group_by@[i - n] == Ok::<V, X>(g@[i - n]));
                                    }
                                }
                            }
                            Ok(GenericRel::Aggregation { attributes: a, group_by: g, from })
                        },
                    },
                }
            },
            GenericRel::Projection { attributes, from } => match collect_results(attributes) {
                Err(error) => Err(error),
                Ok(a) => Ok(GenericRel::Projection { attributes: a, from }),
            },
            GenericRel::Selection { from, where_ } => match where_ {
                Err(error) => {
                    assert(self@.exprs[0] == Err::<V, X>(error));
                    Err(error)
                },
                Ok(value) => Ok(GenericRel::Selection { from, where_: value }),
            },
            GenericRel::Offset { offset, from } => match offset {
                Err(error) => {
                    assert(self@.exprs[0] == Err::<V, X>(error));
                    Err(error)
                },
                Ok(value) => Ok(GenericRel::Offset { offset: value, from }),
            },
            GenericRel::Limit { number_rows, from } => match number_rows {
                Err(error) => {
                    assert(self@.exprs[0] == Err::<V, X>(error));
                    Err(error)
                },
                Ok(value) => Ok(GenericRel::Limit { number_rows: value, from }),
            },
            GenericRel::OrderBy { order, by, from } => match collect_results(by) {
                Err(error) => Err(error),
                Ok(b) => Ok(GenericRel::OrderBy { order, by: b, from }),
            },
            GenericRel::Join { left, right, operator } => match operator.into_result_expressions() {
                Err(error) => Err(error),
                Ok(op) => Ok(GenericRel::Join { left, right, operator: op }),
            },
            GenericRel::SetOperation { operator, left, right } => Ok(
                GenericRel::SetOperation { operator, left, right },
            ),
            GenericRel::Distinct { from } => Ok(GenericRel::Distinct { from }),
            GenericRel::WithAlias { from, alias } => Ok(GenericRel::WithAlias { from, alias }),
            GenericRel::Table(context_key) => Ok(GenericRel::Table(context_key)),
        }
    }
}

/// Adds to `out` a borrow of each item, in order.
pub fn push_borrows<'a, T>(out: &mut Vec<&'a T>, items: &'a Vec<T>)
    ensures
        final(out)@.len() == old(out)@.len() + items@.len(),
        forall|i: int| 0 <= i < old(out)@.len() ==> final(out)@[i] == old(out)@[i],
        forall|i: int| 0 <= i < items@.len() ==> *final(out)@[old(out)@.len() + i] == items@[i],
{
    let ghost before = out@;
    let mut i: usize = 0;
    while i < items.len()
        invariant
            i <= items.len(),
            out@.len() == before.len() + i,
            forall|j: int| 0 <= j < before.len() ==> out@[j] == before[j],
            forall|j: int| 0 <= j < i ==> *out@[before.len() + j] == items@[j],
        decreases items.len() - i,
    {
        out.push(&items[i]);
        i += 1;
    }
}

impl<E> JoinConstraint<E> {
    /// The condition of an `On` constraint.
    pub fn expression(&self) -> (e: Option<&E>)
        ensures
            match e {
                Some(e) => self.exprs() == seq![*e],
                None => self.exprs() == Seq::<E>::empty(),
            },
    {
        match self {
            JoinConstraint::On(e) => Some(e),
            _ => None,
        }
    }

    /// The same constraint over another expression: over `e` where this is
    /// an `On` constraint, which is the only one that holds an expression.
    pub fn with_expression<O>(&self, e: Option<O>) -> (out: JoinConstraint<O>)
        requires
            e.is_some() <==> self.exprs().len() == 1,
        ensures
            out.shape() == self.shape(),
            out.exprs() == (match e {
                Some(e) => seq![e],
                None => Seq::<O>::empty(),
            }),
    {
        match self {
            JoinConstraint::On(_) => {
                assert(self.exprs().len() == 1);
                JoinConstraint::On(e.unwrap())
            },
            JoinConstraint::Using(what) => JoinConstraint::Using(clone_keys(what)),
            JoinConstraint::Natural => JoinConstraint::Natural,
        }
    }
}

impl<E: Clone> Clone for JoinConstraint<E> {
    fn clone(&self) -> (out: JoinConstraint<E>)
        ensures
            out.shape() == self.shape(),
            all_cloned(self.exprs(), out.exprs()),
    {
        match self {
            JoinConstraint::On(e) => JoinConstraint::On(e.clone()),
            JoinConstraint::Using(what) => JoinConstraint::Using(clone_keys(what)),
            JoinConstraint::Natural => JoinConstraint::Natural,
        }
    }
}

impl<E> JoinOperator<E> {
    /// The condition of the join, where its constraint is an `On`.
    pub fn expression(&self) -> (e: Option<&E>)
        ensures
            match e {
                Some(e) => self.exprs() == seq![*e],
                None => self.exprs() == Seq::<E>::empty(),
            },
    {
        match self {
            JoinOperator::Inner(c) => c.expression(),
            JoinOperator::LeftOuter(c) => c.expression(),
            JoinOperator::RightOuter(c) => c.expression(),
            JoinOperator::FullOuter(c) => c.expression(),
            JoinOperator::CrossJoin => None,
        }
    }

    /// The same operator over another expression: over `e` where the
    /// constraint is an `On`, which is the only one that holds an expression.
    pub fn with_expression<O>(&self, e: Option<O>) -> (out: JoinOperator<O>)
        requires
            e.is_some() <==> self.exprs().len() == 1,
        ensures
            out.shape() == self.shape(),
            out.exprs() == (match e {
                Some(e) => seq![e],
                None => Seq::<O>::empty(),
            }),
    {
        match self {
            JoinOperator::Inner(c) => JoinOperator::Inner(c.with_expression(e)),
            JoinOperator::LeftOuter(c) => JoinOperator::LeftOuter(c.with_expression(e)),
            JoinOperator::RightOuter(c) => JoinOperator::RightOuter(c.with_expression(e)),
            JoinOperator::FullOuter(c) => JoinOperator::FullOuter(c.with_expression(e)),
            JoinOperator::CrossJoin => JoinOperator::CrossJoin,
        }
    }
}

impl<E: Clone> Clone for JoinOperator<E> {
    fn clone(&self) -> (out: JoinOperator<E>)
        ensures
            out.shape() == self.shape(),
            all_cloned(self.exprs(), out.exprs()),
    {
        match self {
            JoinOperator::Inner(c) => JoinOperator::Inner(c.clone()),
            JoinOperator::LeftOuter(c) => JoinOperator::LeftOuter(c.clone()),
            JoinOperator::RightOuter(c) => JoinOperator::RightOuter(c.clone()),
            JoinOperator::FullOuter(c) => JoinOperator::FullOuter(c.clone()),
            JoinOperator::CrossJoin => JoinOperator::CrossJoin,
        }
    }
}

impl<E, C> GenericRel<E, C> {
    /// The expressions of the node, borrowed, in the order of its fields.
    pub fn expressions(&self) -> (out: Vec<&E>)
        ensures
            borrowed(self@.exprs, out@),
    {
        let mut out: Vec<&E> = Vec::new();
        match self {
            GenericRel::Aggregation { attributes, group_by, .. } => {
                push_borrows(&mut out, attributes);
                push_borrows(&mut out, group_by);
            },
            GenericRel::Projection { attributes, .. } => {
                push_borrows(&mut out, attributes);
            },
            GenericRel::Selection { where_, .. } => {
                out.push(where_);
            },
            GenericRel::Join { operator, .. } => {
                match operator.expression() {
                    Some(e) => {
                        out.push(e);
                    },
                    None => {},
                }
            },
            GenericRel::SetOperation { .. } => {},
            GenericRel::Offset { offset, .. } => {
                out.push(offset);
            },
            GenericRel::Limit { number_rows, .. } => {
                out.push(number_rows);
            },
            GenericRel::OrderBy { by, .. } => {
                push_borrows(&mut out, by);
            },
            GenericRel::Distinct { .. } => {},
            GenericRel::WithAlias { .. } => {},
            GenericRel::Table(_) => {},
        }
        out
    }

    /// The children of the node, borrowed, left before right.
    pub fn children(&self) -> (out: Vec<&C>)
        ensures
            borrowed(self@.kids, out@),
    {
        let mut out: Vec<&C> = Vec::new();
        match self {
            GenericRel::Aggregation { from, .. } => {
                out.push(from);
            },
            GenericRel::Projection { from, .. } => {
                out.push(from);
            },
            GenericRel::Selection { from, .. } => {
                out.push(from);
            },
            GenericRel::Join { left, right, .. } => {
                out.push(left);
                out.push(right);
            },
            GenericRel::SetOperation { left, right, .. } => {
                out.push(left);
                out.push(right);
            },
            GenericRel::Offset { from, .. } => {
                out.push(from);
            },
            GenericRel::Limit { from, .. } => {
                out.push(from);
            },
            GenericRel::OrderBy { from, .. } => {
                out.push(from);
            },
            GenericRel::Distinct { from } => {
                out.push(from);
            },
            GenericRel::WithAlias { from, .. } => {
                out.push(from);
            },
            GenericRel::Table(_) => {},
        }
        out
    }

    /// The node of the same shape that holds `exprs` in place of the
    /// expressions and `kids` in place of the children, place by place.
    pub fn rebuild<E2, C2>(&self, exprs: Vec<E2>, kids: Vec<C2>) -> (out: GenericRel<E2, C2>)
        requires
            exprs@.len() == self@.exprs.len(),
            kids@.len() == self@.kids.len(),
        ensures
            out@.shape == self@.shape,
            out@.exprs == exprs@,
            out@.kids == kids@,
    {
        let mut exprs = exprs;
        let mut kids = kids;
        let ghost es = exprs@;
        let ghost ks = kids@;
        match self {
            GenericRel::Aggregation { attributes, .. } => {
                let group_by = exprs.split_off(attributes.len());
                let from = kids.pop().unwrap();
                assert(exprs@ + group_by@ =~= es);
                assert(seq![from] =~= ks);
                GenericRel::Aggregation { attributes: exprs, group_by, from }
            },
            GenericRel::Projection { .. } => {
                let from = kids.pop().unwrap();
                assert(seq![from] =~= ks);
                GenericRel::Projection { attributes: exprs, from }
            },
            GenericRel::Selection { .. } => {
                let from = kids.pop().unwrap();
                let where_ = exprs.pop().unwrap();
                assert(seq![from] =~= ks);
                assert(seq![where_] =~= es);
                GenericRel::Selection { from, where_ }
            },
            GenericRel::Join { operator, .. } => {
                let right = kids.pop().unwrap();
                let left = kids.pop().unwrap();
                assert(seq![left, right] =~= ks);
                let e = exprs.pop();
                proof {
                    if e.is_some() {
                        assert(seq![e.unwrap()] =~= es);
                    } else {
                        assert(Seq::<E2>::empty() =~= es);
                    }
                }
                GenericRel::Join { left, right, operator: operator.with_expression(e) }
            },
            GenericRel::SetOperation { operator, .. } => {
                let right = kids.pop().unwrap();
                let left = kids.pop().unwrap();
                assert(seq![left, right] =~= ks);
                assert(Seq::<E2>::empty() =~= es);
                GenericRel::SetOperation { operator: *operator, left, right }
            },
            GenericRel::Offset { .. } => {
                let from = kids.pop().unwrap();
                let offset = exprs.pop().unwrap();
                assert(seq![from] =~= ks);
                assert(seq![offset] =~= es);
                GenericRel::Offset { offset, from }
            },
            GenericRel::Limit { .. } => {
                let from = kids.pop().unwrap();
                let number_rows = exprs.pop().unwrap();
                assert(seq![from] =~= ks);
                assert(seq![number_rows] =~= es);
                GenericRel::Limit { number_rows, from }
            },
            GenericRel::OrderBy { order, .. } => {
                let from = kids.pop().unwrap();
                assert(seq![from] =~= ks);
                GenericRel::OrderBy { order: clone_order(order), by: exprs, from }
            },
            GenericRel::Distinct { .. } => {
                let from = kids.pop().unwrap();
                assert(seq![from] =~= ks);
                assert(Seq::<E2>::empty() =~= es);
                GenericRel::Distinct { from }
            },
            GenericRel::WithAlias { alias, .. } => {
                let from = kids.pop().unwrap();
                assert(seq![from] =~= ks);
                assert(Seq::<E2>::empty() =~= es);
                GenericRel::WithAlias { from, alias: alias.clone() }
            },
            GenericRel::Table(context_key) => {
                assert(Seq::<E2>::empty() =~= es);
                assert(Seq::<C2>::empty() =~= ks);
                GenericRel::Table(context_key.clone())
            },
        }
    }

    /// The node of the same shape that borrows each expression and each child.
    pub fn as_ref(&self) -> (out: GenericRel<&E, &C>)
        ensures
            out@.shape == self@.shape,
            borrowed(self@.exprs, out@.exprs),
            borrowed(self@.kids, out@.kids),
    {
        self.rebuild(self.expressions(), self.children())
    }
}

impl<E: Clone, C> GenericRel<E, C> {
    /// The same node over what `f` returns on each child. The expressions
    /// are cloned, and what else the node holds is kept.
    pub fn map<CC, F: Fn(&C) -> CC>(&self, f: &F) -> (out: GenericRel<E, CC>)
        requires
            callable(*f, self@.kids),
        ensures
            out@.shape == self@.shape,
            all_cloned(self@.exprs, out@.exprs),
            mapped(*f, self@.kids, out@.kids),
    {
        match self {
            GenericRel::Aggregation { attributes, group_by, from } => {
                assert(self@.kids[0] == *from);
                let a = attributes.clone();
                let g = group_by.clone();
                assert forall|i: int| 0 <= i < self@.exprs.len() implies cloned(
                    self@.exprs[i],
                    #[trigger] (a@ + g@)[i],
                ) by {
                    if i < attributes@.len() {
                        assert(cloned(attributes@[i], a@[i]));
                    } else {
                        assert(cloned(group_by@[i - attributes@.len()], g@[i - attributes@.len()]));
                    }
                }
                GenericRel::Aggregation { attributes: a, group_by: g, from: f(from) }
            },
            GenericRel::Projection { attributes, from } => {
                assert(self@.kids[0] == *from);
                GenericRel::Projection { attributes: attributes.clone(), from: f(from) }
            },
            GenericRel::Selection { from, where_ } => {
                assert(self@.kids[0] == *from);
                GenericRel::Selection { from: f(from), where_: where_.clone() }
            },
            GenericRel::Offset { offset, from } => {
                assert(self@.kids[0] == *from);
                GenericRel::Offset { offset: offset.clone(), from: f(from) }
            },
            GenericRel::Limit { number_rows, from } => {
                assert(self@.kids[0] == *from);
                GenericRel::Limit { number_rows: number_rows.clone(), from: f(from) }
            },
            GenericRel::OrderBy { order, by, from } => {
                assert(self@.kids[0] == *from);
                GenericRel::OrderBy { order: clone_order(order), by: by.clone(), from: f(from) }
            },
            GenericRel::Join { left, right, operator } => {
                assert(self@.kids[0] == *left);
                assert(self@.kids[1] == *right);
                let l = f(left);
                let r = f(right);
                GenericRel::Join { left: l, right: r, operator: operator.clone() }
            },
            GenericRel::SetOperation { operator, left, right } => {
                assert(self@.kids[0] == *left);
                assert(self@.kids[1] == *right);
                let l = f(left);
                let r = f(right);
                GenericRel::SetOperation { operator: *operator, left: l, right: r }
            },
            GenericRel::Distinct { from } => {
                assert(self@.kids[0] == *from);
                GenericRel::Distinct { from: f(from) }
            },
            GenericRel::WithAlias { from, alias } => {
                assert(self@.kids[0] == *from);
                GenericRel::WithAlias { from: f(from), alias: alias.clone() }
            },
            GenericRel::Table(context_key) => GenericRel::Table(context_key.clone()),
        }
    }
}

impl<E, C> GenericRel<E, C> {
    /// The same node over what `f` returns on each child, which it takes by
    /// value. The expressions and what else the node holds are moved over.
    pub fn map_owned<CC, F: Fn(C) -> CC>(self, f: &F) -> (out: GenericRel<E, CC>)
        requires
            callable_owned(*f, self@.kids),
        ensures
            out@.shape == self@.shape,
            out@.exprs == self@.exprs,
            mapped_owned(*f, self@.kids, out@.kids),
    {
        match self {
            GenericRel::Aggregation { attributes, group_by, from } => {
                assert(self@.kids[0] == from);
                GenericRel::Aggregation { attributes, group_by, from: f(from) }
            },
            GenericRel::Projection { attributes, from } => {
                assert(self@.kids[0] == from);
                GenericRel::Projection { attributes, from: f(from) }
            },
            GenericRel::Selection { from, where_ } => {
                assert(self@.kids[0] == from);
                GenericRel::Selection { from: f(from), where_ }
            },
            GenericRel::Offset { offset, from } => {
                assert(self@.kids[0] == from);
                GenericRel::Offset { offset, from: f(from) }
            },
            GenericRel::Limit { number_rows, from } => {
                assert(self@.kids[0] == from);
                GenericRel::Limit { number_rows, from: f(from) }
            },
            GenericRel::OrderBy { order, by, from } => {
                assert(self@.kids[0] == from);
                GenericRel::OrderBy { order, by, from: f(from) }
            },
            GenericRel::Join { left, right, operator } => {
                assert(self@.kids[0] == left);
                assert(self@.kids[1] == right);
                let l = f(left);
                let r = f(right);
                GenericRel::Join { left: l, right: r, operator }
            },
            GenericRel::SetOperation { operator, left, right } => {
                assert(self@.kids[0] == left);
                assert(self@.kids[1] == right);
                let l = f(left);
                let r = f(right);
                GenericRel::SetOperation { operator, left: l, right: r }
            },
            GenericRel::Distinct { from } => {
                assert(self@.kids[0] == from);
                GenericRel::Distinct { from: f(from) }
            },
            GenericRel::WithAlias { from, alias } => {
                assert(self@.kids[0] == from);
                GenericRel::WithAlias { from: f(from), alias }
            },
            GenericRel::Table(context_key) => GenericRel::Table(context_key),
        }
    }
}

impl<E, V, X> GenericRel<E, Result<V, X>> {
    /// The node over the values of its children, or the error of the first
    /// child, left before right, that is one.
    pub fn into_result(self) -> (out: Result<GenericRel<E, V>, X>)
        ensures
            match out {
                Ok(node) => {
                    &&& node@.shape == self@.shape
                    &&& node@.exprs == self@.exprs
                    &&& all_ok(self@.kids, node@.kids)
                },
                Err(error) => first_error(self@.kids, error),
            },
    {
        match self {
            GenericRel::Aggregation { attributes, group_by, from } => match from {
                Err(error) => {
                    assert(self@.kids[0] == Err::<V, X>(error));
                    Err(error)
                },
                Ok(from) => Ok(GenericRel::Aggregation { attributes, group_by, from }),
            },
            GenericRel::Projection { attributes, from } => match from {
                Err(error) => {
                    assert(self@.kids[0] == Err::<V, X>(error));
                    Err(error)
                },
                Ok(from) => Ok(GenericRel::Projection { attributes, from }),
            },
            GenericRel::Selection { from, where_ } => match from {
                Err(error) => {
                    assert(self@.kids[0] == Err::<V, X>(error));
                    Err(error)
                },
                Ok(from) => Ok(GenericRel::Selection { from, where_ }),
            },
            GenericRel::Offset { offset, from } => match from {
                Err(error) => {
                    assert(self@.kids[0] == Err::<V, X>(error));
                    Err(error)
                },
                Ok(from) => Ok(GenericRel::Offset { offset, from }),
            },
            GenericRel::Limit { number_rows, from } => match from {
                Err(error) => {
                    assert(self@.kids[0] == Err::<V, X>(error));
                    Err(error)
                },
                Ok(from) => Ok(GenericRel::Limit { number_rows, from }),
            },
            GenericRel::OrderBy { order, by, from } => match from {
                Err(error) => {
                    assert(self@.kids[0] == Err::<V, X>(error));
                    Err(error)
                },
                Ok(from) => Ok(GenericRel::OrderBy { order, by, from }),
            },
            GenericRel::Join { left, right, operator } => match left {
                Err(error) => {
                    assert(self@.kids[0] == Err::<V, X>(error));
                    Err(error)
                },
                Ok(left) => match right {
                    Err(error) => {
                        assert(self@.kids[0].is_ok());
                        assert(self@.kids[1] == Err::<V, X>(error));
                        Err(error)
                    },
                    Ok(right) => {
                        assert(self@.kids[0] == Ok::<V, X>(left));
                        assert(self@.kids[1] == Ok::<V, X>(right));
                        Ok(GenericRel::Join { left, right, operator })
                    },
                },
            },
            GenericRel::SetOperation { operator, left, right } => match left {
                Err(error) => {
                    assert(self@.kids[0] == Err::<V, X>(error));
                    Err(error)
                },
                Ok(left) => match right {
                    Err(error) => {
                        assert(self@.kids[0].is_ok());
                        assert(self@.kids[1] == Err::<V, X>(error));
                        Err(error)
                    },
                    Ok(right) => {
                        assert(self@.kids[0] == Ok::<V, X>(left));
                        assert(self@.kids[1] == Ok::<V, X>(right));
                        Ok(GenericRel::SetOperation { operator, left, right })
                    },
                },
            },
            GenericRel::Distinct { from } => match from {
                Err(error) => {
                    assert(self@.kids[0] == Err::<V, X>(error));
                    Err(error)
                },
                Ok(from) => Ok(GenericRel::Distinct { from }),
            },
            GenericRel::WithAlias { from, alias } => match from {
                Err(error) => {
                    assert(self@.kids[0] == Err::<V, X>(error));
                    Err(error)
                },
                Ok(from) => Ok(GenericRel::WithAlias { from, alias }),
            },
            GenericRel::Table(context_key) => Ok(GenericRel::Table(context_key)),
        }
    }
}

/// A clone of what each borrow points to, in order.
pub fn clone_borrowed<T: Clone>(items: &Vec<&T>) -> (out: Vec<T>)
    ensures
        out@.len() == items@.len(),
        forall|i: int| 0 <= i < items@.len() ==> cloned(*items@[i], #[trigger] out@[i]),
{
    let mut out: Vec<T> = Vec::new();
    let mut i: usize = 0;
    while i < items.len()
        invariant
            i <= items.len(),
            out@.len() == i,
            forall|j: int| 0 <= j < i ==> cloned(*items@[j], #[trigger] out@[j]),
        decreases items.len() - i,
    {
        let item: &T = items[i];
        out.push(item.clone());
        i += 1;
    }
    out
}

impl<E: Clone, C: Clone> Clone for GenericRel<E, C> {
    /// The node of the same shape over a clone of each expression and of
    /// each child.
    fn clone(&self) -> (out: GenericRel<E, C>)
        ensures
            out@.shape == self@.shape,
            all_cloned(self@.exprs, out@.exprs),
            all_cloned(self@.kids, out@.kids),
    {
        let exprs = clone_borrowed(&self.expressions());
        let kids = clone_borrowed(&self.children());
        self.rebuild(exprs, kids)
    }
}

} // verus!
