//! The syntax of queries, and the lowering of relation nodes into it.
//!
//! The syntax is kept as plain data over any kind of lowered expression
//! `A`: a caller turns it into the tree of its parser of choice.

use vstd::prelude::*;
use crate::key::segments_view;
use crate::error::CompositionError;
use crate::key::ContextKey;
use crate::rel::{
    borrowed, callable, key_views, reversed, ConstraintShape, GenericRel, JoinConstraint, JoinOperator, JoinShape, Order,
    SetOperator, Shape,
};
use crate::tree::RelT;

verus! {

/// Something to select from.
#[derive(Debug, PartialEq, Eq)]
pub enum TableFactor<A> {
    /// A table by its name, outermost scope first.
    Table { name: Vec<String>, alias: Option<String> },
    /// A query in brackets.
    Derived { subquery: Box<Query<A>>, alias: Option<String> },
    /// Joined tables in brackets.
    NestedJoin(Box<TableWithJoins<A>>),
}

/// The condition of a join.
#[derive(Debug, PartialEq, Eq)]
pub enum SqlJoinConstraint<A> {
    On(A),
    Using(Vec<String>),
    Natural,
}

/// The kind of a join, with its condition.
#[derive(Debug, PartialEq, Eq)]
pub enum SqlJoinOperator<A> {
    Inner(SqlJoinConstraint<A>),
    LeftOuter(SqlJoinConstraint<A>),
    RightOuter(SqlJoinConstraint<A>),
    FullOuter(SqlJoinConstraint<A>),
    CrossJoin,
}

/// One join clause: what is joined, and how.
#[derive(Debug, PartialEq, Eq)]
pub struct Join<A> {
    pub relation: TableFactor<A>,
    pub join_operator: SqlJoinOperator<A>,
}

/// A table factor and the joins that follow it.
#[derive(Debug, PartialEq, Eq)]
pub struct TableWithJoins<A> {
    pub relation: TableFactor<A>,
    pub joins: Vec<Join<A>>,
}

/// One item of a select list.
#[derive(Debug, PartialEq, Eq)]
pub enum SelectItem<A> {
    UnnamedExpr(A),
    Wildcard,
}

/// A `SELECT`.
#[derive(Debug, PartialEq, Eq)]
pub struct Select<A> {
    pub distinct: bool,
    pub projection: Vec<SelectItem<A>>,
    pub from: Vec<TableWithJoins<A>>,
    pub selection: Option<A>,
    pub group_by: Vec<A>,
}

/// The body of a query.
#[derive(Debug, PartialEq, Eq)]
pub enum SetExpr<A> {
    Select(Box<Select<A>>),
    Query(Box<Query<A>>),
    SetOperation { op: SetOperator, all: bool, left: Box<SetExpr<A>>, right: Box<SetExpr<A>> },
}

/// One key of an `ORDER BY`.
#[derive(Debug, PartialEq, Eq)]
pub struct OrderByExpr<A> {
    pub expr: A,
    pub asc: Option<bool>,
}

/// A query: a body with what orders and bounds its rows.
#[derive(Debug, PartialEq, Eq)]
pub struct Query<A> {
    pub body: SetExpr<A>,
    pub order_by: Vec<OrderByExpr<A>>,
    pub limit: Option<A>,
    pub offset: Option<A>,
}

/// What a relation lowers to: one of the forms of the syntax.
#[derive(Debug, PartialEq, Eq)]
pub enum RelAnsatz<A> {
    Query(Query<A>),
    Select(Select<A>),
    SetExpr(SetExpr<A>),
    TableWithJoins(TableWithJoins<A>),
    TableFactor(TableFactor<A>),
}

/// A table factor as plain values.
pub enum TableFactorModel<A> {
    Table { name: Seq<Seq<char>>, alias: Option<Seq<char>> },
    Derived { subquery: Box<QueryModel<A>>, alias: Option<Seq<char>> },
    NestedJoin(Box<TableWithJoinsModel<A>>),
}

/// The condition of a join as plain values.
pub enum SqlJoinConstraintModel<A> {
    On(A),
    Using(Seq<Seq<char>>),
    Natural,
}

/// The kind of a join as plain values.
pub enum SqlJoinOperatorModel<A> {
    Inner(SqlJoinConstraintModel<A>),
    LeftOuter(SqlJoinConstraintModel<A>),
    RightOuter(SqlJoinConstraintModel<A>),
    FullOuter(SqlJoinConstraintModel<A>),
    CrossJoin,
}

/// A join clause as plain values.
pub struct JoinModel<A> {
    pub relation: TableFactorModel<A>,
    pub join_operator: SqlJoinOperatorModel<A>,
}

/// A table factor with its joins as plain values.
pub struct TableWithJoinsModel<A> {
    pub relation: TableFactorModel<A>,
    pub joins: Seq<JoinModel<A>>,
}

/// A `SELECT` as plain values.
pub struct SelectModel<A> {
    pub distinct: bool,
    pub projection: Seq<SelectItem<A>>,
    pub from: Seq<TableWithJoinsModel<A>>,
    pub selection: Option<A>,
    pub group_by: Seq<A>,
}

/// The body of a query as plain values.
pub enum SetExprModel<A> {
    Select(Box<SelectModel<A>>),
    Query(Box<QueryModel<A>>),
    SetOperation {
        op: SetOperator,
        all: bool,
        left: Box<SetExprModel<A>>,
        right: Box<SetExprModel<A>>,
    },
}

/// A query as plain values.
pub struct QueryModel<A> {
    pub body: SetExprModel<A>,
    pub order_by: Seq<OrderByExpr<A>>,
    pub limit: Option<A>,
    pub offset: Option<A>,
}

/// A lowered relation as plain values.
pub enum RelAnsatzModel<A> {
    Query(QueryModel<A>),
    Select(SelectModel<A>),
    SetExpr(SetExprModel<A>),
    TableWithJoins(TableWithJoinsModel<A>),
    TableFactor(TableFactorModel<A>),
}

/// An optional string as an optional sequence of characters.
pub open spec fn text_view(text: Option<String>) -> Option<Seq<char>> {
    match text {
        Some(text) => Some(text@),
        None => None,
    }
}

impl<A> TableFactor<A> {
    /// The table factor as plain values.
    pub open spec fn model(self) -> TableFactorModel<A>
        decreases self,
    {
        match self {
            TableFactor::Table { name, alias } => TableFactorModel::Table {
                name: segments_view(name@),
                alias: text_view(alias),
            },
            TableFactor::Derived { subquery, alias } => TableFactorModel::Derived {
                subquery: Box::new(subquery.model()),
                alias: text_view(alias),
            },
            TableFactor::NestedJoin(joined) => TableFactorModel::NestedJoin(Box::new(joined.model())),
        }
    }
}

impl<A> SqlJoinConstraint<A> {
    /// The condition as plain values.
    pub open spec fn model(self) -> SqlJoinConstraintModel<A> {
        match self {
            SqlJoinConstraint::On(e) => SqlJoinConstraintModel::On(e),
            SqlJoinConstraint::Using(names) => SqlJoinConstraintModel::Using(segments_view(names@)),
            SqlJoinConstraint::Natural => SqlJoinConstraintModel::Natural,
        }
    }
}

impl<A> SqlJoinOperator<A> {
    /// The kind of join as plain values.
    pub open spec fn model(self) -> SqlJoinOperatorModel<A> {
        match self {
            SqlJoinOperator::Inner(c) => SqlJoinOperatorModel::Inner(c.model()),
            SqlJoinOperator::LeftOuter(c) => SqlJoinOperatorModel::LeftOuter(c.model()),
            SqlJoinOperator::RightOuter(c) => SqlJoinOperatorModel::RightOuter(c.model()),
            SqlJoinOperator::FullOuter(c) => SqlJoinOperatorModel::FullOuter(c.model()),
            SqlJoinOperator::CrossJoin => SqlJoinOperatorModel::CrossJoin,
        }
    }
}

impl<A> Join<A> {
    /// The join clause as plain values.
    pub open spec fn model(self) -> JoinModel<A>
        decreases self,
    {
        JoinModel { relation: self.relation.model(), join_operator: self.join_operator.model() }
    }
}

impl<A> TableWithJoins<A> {
    /// The table factor with its joins as plain values.
    pub open spec fn model(self) -> TableWithJoinsModel<A>
        decreases self,
    {
        TableWithJoinsModel {
            relation: self.relation.model(),
            joins: Seq::new(
                self.joins@.len(),
                |i: int|
                    if 0 <= i < self.joins@.len() {
                        self.joins@[i].model()
                    } else {
                        arbitrary()
                    },
            ),
        }
    }
}

impl<A> Select<A> {
    /// The `SELECT` as plain values.
    pub open spec fn model(self) -> SelectModel<A>
        decreases self,
    {
        SelectModel {
            distinct: self.distinct,
            projection: self.projection@,
            from: Seq::new(
                self.from@.len(),
                |i: int|
                    if 0 <= i < self.from@.len() {
                        self.from@[i].model()
                    } else {
                        arbitrary()
                    },
            ),
            selection: self.selection,
            group_by: self.group_by@,
        }
    }
}

impl<A> SetExpr<A> {
    /// The body as plain values.
    pub open spec fn model(self) -> SetExprModel<A>
        decreases self,
    {
        match self {
            SetExpr::Select(select) => SetExprModel::Select(Box::new(select.model())),
            SetExpr::Query(query) => SetExprModel::Query(Box::new(query.model())),
            SetExpr::SetOperation { op, all, left, right } => SetExprModel::SetOperation {
                op,
                all,
                left: Box::new(left.model()),
                right: Box::new(right.model()),
            },
        }
    }
}

impl<A> Query<A> {
    /// The query as plain values.
    pub open spec fn model(self) -> QueryModel<A>
        decreases self,
    {
        QueryModel {
            body: self.body.model(),
            order_by: self.order_by@,
            limit: self.limit,
            offset: self.offset,
        }
    }
}

impl<A> RelAnsatz<A> {
    /// The lowered relation as plain values.
    pub open spec fn model(self) -> RelAnsatzModel<A> {
        match self {
            RelAnsatz::Query(q) => RelAnsatzModel::Query(q.model()),
            RelAnsatz::Select(s) => RelAnsatzModel::Select(s.model()),
            RelAnsatz::SetExpr(e) => RelAnsatzModel::SetExpr(e.model()),
            RelAnsatz::TableWithJoins(t) => RelAnsatzModel::TableWithJoins(t.model()),
            RelAnsatz::TableFactor(f) => RelAnsatzModel::TableFactor(f.model()),
        }
    }
}

/// The query whose body is `body` and that neither orders nor bounds its rows.
pub open spec fn plain_query<A>(body: SetExprModel<A>) -> QueryModel<A> {
    QueryModel { body, order_by: Seq::empty(), limit: None, offset: None }
}

/// The `SELECT` of every column from `from`.
pub open spec fn select_all<A>(from: TableWithJoinsModel<A>) -> SelectModel<A> {
    SelectModel {
        distinct: false,
        projection: seq![SelectItem::Wildcard],
        from: seq![from],
        selection: None,
        group_by: Seq::empty(),
    }
}

/// The query in brackets, without a name.
pub open spec fn derived<A>(query: QueryModel<A>) -> TableFactorModel<A> {
    TableFactorModel::Derived { subquery: Box::new(query), alias: None }
}

impl<A> RelAnsatzModel<A> {
    /// The form as something to select from: a table factor is itself,
    /// joined tables go into brackets, and a query, a `SELECT` or a body
    /// becomes a query in brackets.
    pub open spec fn into_table_factor(self) -> TableFactorModel<A> {
        match self {
            RelAnsatzModel::TableFactor(f) => f,
            RelAnsatzModel::TableWithJoins(t) => TableFactorModel::NestedJoin(Box::new(t)),
            RelAnsatzModel::Query(q) => derived(q),
            RelAnsatzModel::Select(s) => derived(plain_query(SetExprModel::Select(Box::new(s)))),
            RelAnsatzModel::SetExpr(e) => derived(plain_query(e)),
        }
    }

    /// The form as a table with joins: joined tables are themselves, and
    /// any other form is its table factor without joins.
    pub open spec fn into_table_with_joins(self) -> TableWithJoinsModel<A> {
        match self {
            RelAnsatzModel::TableWithJoins(t) => t,
            _ => TableWithJoinsModel { relation: self.into_table_factor(), joins: Seq::empty() },
        }
    }

    /// A new `SELECT` of every column from the form.
    pub open spec fn wrapped(self) -> SelectModel<A> {
        select_all(self.into_table_with_joins())
    }

    /// The form as a `SELECT`: a `SELECT` is itself, and any other form is
    /// selected from.
    pub open spec fn into_select(self) -> SelectModel<A> {
        match self {
            RelAnsatzModel::Select(s) => s,
            _ => self.wrapped(),
        }
    }

    /// The form as the body of a query.
    pub open spec fn into_set_expr(self) -> SetExprModel<A> {
        match self {
            RelAnsatzModel::SetExpr(e) => e,
            RelAnsatzModel::Select(s) => SetExprModel::Select(Box::new(s)),
            RelAnsatzModel::Query(q) => SetExprModel::Query(Box::new(q)),
            _ => SetExprModel::Select(Box::new(self.wrapped())),
        }
    }

    /// The form as a query: a query is itself, and any other form is the
    /// body of a query that neither orders nor bounds its rows.
    pub open spec fn into_query(self) -> QueryModel<A> {
        match self {
            RelAnsatzModel::Query(q) => q,
            _ => plain_query(self.into_set_expr()),
        }
    }

    /// The form under the name `alias`: its table factor with the name; joined
    /// tables are selected from in brackets, which can take a name.
    pub open spec fn with_alias(self, alias: Seq<char>) -> TableFactorModel<A> {
        match self.into_table_factor() {
            TableFactorModel::Table { name, .. } => TableFactorModel::Table {
                name,
                alias: Some(alias),
            },
            TableFactorModel::Derived { subquery, .. } => TableFactorModel::Derived {
                subquery,
                alias: Some(alias),
            },
            TableFactorModel::NestedJoin(joined) => TableFactorModel::Derived {
                subquery: Box::new(plain_query(SetExprModel::Select(Box::new(select_all(*joined))))),
                alias: Some(alias),
            },
        }
    }
}

/// The names of the keys: of each its least significant segment.
pub open spec fn key_names(keys: Seq<Seq<Seq<char>>>) -> Seq<Seq<char>> {
    Seq::new(keys.len(), |i: int| keys[i][0])
}

/// The condition of a join in the syntax: a condition stays one, over the
/// lowered expression; the keys of `Using` give their names; `Natural` stays.
pub open spec fn lower_constraint<A>(shape: ConstraintShape, exprs: Seq<A>) -> SqlJoinConstraintModel<A> {
    match shape {
        ConstraintShape::On => SqlJoinConstraintModel::On(exprs[0]),
        ConstraintShape::Using(keys) => SqlJoinConstraintModel::Using(key_names(keys)),
        ConstraintShape::Natural => SqlJoinConstraintModel::Natural,
    }
}

/// The kind of a join in the syntax: each kind is the one of the same name.
pub open spec fn lower_operator<A>(shape: JoinShape, exprs: Seq<A>) -> SqlJoinOperatorModel<A> {
    match shape {
        JoinShape::Inner(c) => SqlJoinOperatorModel::Inner(lower_constraint(c, exprs)),
        JoinShape::LeftOuter(c) => SqlJoinOperatorModel::LeftOuter(lower_constraint(c, exprs)),
        JoinShape::RightOuter(c) => SqlJoinOperatorModel::RightOuter(lower_constraint(c, exprs)),
        JoinShape::FullOuter(c) => SqlJoinOperatorModel::FullOuter(lower_constraint(c, exprs)),
        JoinShape::CrossJoin => SqlJoinOperatorModel::CrossJoin,
    }
}

/// The keys of an `ORDER BY`: each expression with its direction, for as
/// many as have both.
pub open spec fn order_keys<A>(by: Seq<A>, order: Seq<Order>) -> Seq<OrderByExpr<A>> {
    Seq::new(
        if by.len() <= order.len() {
            by.len()
        } else {
            order.len()
        },
        |i: int| OrderByExpr { expr: by[i], asc: Some(order[i] is Asc) },
    )
}

/// The items of a select list that the expressions are.
pub open spec fn select_items<A>(exprs: Seq<A>) -> Seq<SelectItem<A>> {
    Seq::new(exprs.len(), |i: int| SelectItem::UnnamedExpr(exprs[i]))
}

/// What a node lowers to, given its shape, its lowered expressions and
/// its lowered children.
pub open spec fn lower_spec<A>(shape: Shape, exprs: Seq<A>, kids: Seq<RelAnsatzModel<A>>) -> RelAnsatzModel<A> {
    match shape {
        Shape::OrderBy(order) => {
            let query = kids[0].into_query();
            RelAnsatzModel::Query(
                QueryModel {
                    body: query.body,
                    order_by: order_keys(exprs, order),
                    limit: query.limit,
                    offset: query.offset,
                },
            )
        },
        Shape::Distinct => {
            let select = kids[0].into_select();
            RelAnsatzModel::Select(
                SelectModel {
                    distinct: true,
                    projection: select.projection,
                    from: select.from,
                    selection: select.selection,
                    group_by: select.group_by,
                },
            )
        },
        Shape::Limit => {
            let query = kids[0].into_query();
            RelAnsatzModel::Query(
                QueryModel {
                    body: query.body,
                    order_by: query.order_by,
                    limit: Some(exprs[0]),
                    offset: query.offset,
                },
            )
        },
        Shape::Offset => {
            let query = kids[0].into_query();
            RelAnsatzModel::Query(
                QueryModel {
                    body: query.body,
                    order_by: query.order_by,
                    limit: query.limit,
                    offset: Some(exprs[0]),
                },
            )
        },
        Shape::SetOperation(op) => RelAnsatzModel::SetExpr(
            SetExprModel::SetOperation {
                op,
                all: false,
                left: Box::new(kids[0].into_set_expr()),
                right: Box::new(kids[1].into_set_expr()),
            },
        ),
        Shape::Join(operator) => {
            let left = kids[0].into_table_with_joins();
            RelAnsatzModel::TableWithJoins(
                TableWithJoinsModel {
                    relation: left.relation,
                    joins: left.joins.push(
                        JoinModel {
                            relation: kids[1].into_table_factor(),
                            join_operator: lower_operator(operator, exprs),
                        },
                    ),
                },
            )
        },
        Shape::Selection => {
            let select = kids[0].wrapped();
            RelAnsatzModel::Select(
                SelectModel {
                    distinct: select.distinct,
                    projection: select.projection,
                    from: select.from,
                    selection: Some(exprs[0]),
                    group_by: select.group_by,
                },
            )
        },
        Shape::Aggregation { attributes } => {
            let select = kids[0].wrapped();
            RelAnsatzModel::Select(
                SelectModel {
                    distinct: select.distinct,
                    projection: select_items(exprs.take(attributes as int)),
                    from: select.from,
                    selection: select.selection,
                    group_by: exprs.skip(attributes as int),
                },
            )
        },
        Shape::Projection => {
            let select = kids[0].wrapped();
            RelAnsatzModel::Select(
                SelectModel {
                    distinct: select.distinct,
                    projection: select_items(exprs),
                    from: select.from,
                    selection: select.selection,
                    group_by: select.group_by,
                },
            )
        },
        Shape::WithAlias(alias) => RelAnsatzModel::TableFactor(kids[0].with_alias(alias)),
        Shape::Table(key) => RelAnsatzModel::TableFactor(
            TableFactorModel::Table { name: key.reverse(), alias: None },
        ),
    }
}

/// The query whose body is `body` and that neither orders nor bounds its rows.
fn make_plain_query<A>(body: SetExpr<A>) -> (query: Query<A>)
    ensures
        query.model() == plain_query(body.model()),
{
    let query = Query { body, order_by: Vec::new(), limit: None, offset: None };
    assert(query.model().order_by =~= Seq::empty());
    query
}

/// The `SELECT` of every column from `from`.
fn make_select_all<A>(from: TableWithJoins<A>) -> (select: Select<A>)
    ensures
        select.model() == select_all(from.model()),
{
    let mut projection: Vec<SelectItem<A>> = Vec::new();
    projection.push(SelectItem::Wildcard);
    let mut sources: Vec<TableWithJoins<A>> = Vec::new();
    sources.push(from);
    let select = Select {
        distinct: false,
        projection,
        from: sources,
        selection: None,
        group_by: Vec::new(),
    };
    assert(select.model().projection =~= seq![SelectItem::Wildcard]);
    assert(select.model().from =~= seq![from.model()]);
    assert(select.model().group_by =~= Seq::empty());
    select
}

/// The query in brackets, without a name.
fn make_derived<A>(query: Query<A>) -> (factor: TableFactor<A>)
    ensures
        factor.model() == derived(query.model()),
{
    TableFactor::Derived { subquery: Box::new(query), alias: None }
}

impl<A> RelAnsatz<A> {
    /// The form as something to select from.
    pub fn into_table_factor(self) -> (factor: TableFactor<A>)
        ensures
            factor.model() == self.model().into_table_factor(),
    {
        match self {
            RelAnsatz::TableFactor(f) => f,
            RelAnsatz::TableWithJoins(t) => TableFactor::NestedJoin(Box::new(t)),
            RelAnsatz::Query(q) => make_derived(q),
            RelAnsatz::Select(s) => make_derived(make_plain_query(SetExpr::Select(Box::new(s)))),
            RelAnsatz::SetExpr(e) => make_derived(make_plain_query(e)),
        }
    }

    /// The form as a table with joins.
    pub fn into_table_with_joins(self) -> (joined: TableWithJoins<A>)
        ensures
            joined.model() == self.model().into_table_with_joins(),
    {
        match self {
            RelAnsatz::TableWithJoins(t) => t,
            other => {
                let joined = TableWithJoins { relation: other.into_table_factor(), joins: Vec::new() };
                assert(joined.model().joins =~= Seq::empty());
                joined
            },
        }
    }

    /// A new `SELECT` of every column from the form.
    pub fn wrapped(self) -> (select: Select<A>)
        ensures
            select.model() == self.model().wrapped(),
    {
        make_select_all(self.into_table_with_joins())
    }

    /// The form as a `SELECT`.
    pub fn into_select(self) -> (select: Select<A>)
        ensures
            select.model() == self.model().into_select(),
    {
        match self {
            RelAnsatz::Select(s) => s,
            other => other.wrapped(),
        }
    }

    /// The form as the body of a query.
    pub fn into_set_expr(self) -> (body: SetExpr<A>)
        ensures
            body.model() == self.model().into_set_expr(),
    {
        match self {
            RelAnsatz::SetExpr(e) => e,
            RelAnsatz::Select(s) => SetExpr::Select(Box::new(s)),
            RelAnsatz::Query(q) => SetExpr::Query(Box::new(q)),
            other => SetExpr::Select(Box::new(other.wrapped())),
        }
    }

    /// The form as a query.
    pub fn into_query(self) -> (query: Query<A>)
        ensures
            query.model() == self.model().into_query(),
    {
        match self {
            RelAnsatz::Query(q) => q,
            other => make_plain_query(other.into_set_expr()),
        }
    }

    /// The form under the name `alias`.
    pub fn with_alias(self, alias: &str) -> (factor: TableFactor<A>)
        ensures
            factor.model() == self.model().with_alias(alias@),
    {
        match self.into_table_factor() {
            TableFactor::Table { name, alias: _ } => TableFactor::Table {
                name,
                alias: Some(alias.to_owned()),
            },
            TableFactor::Derived { subquery, alias: _ } => TableFactor::Derived {
                subquery,
                alias: Some(alias.to_owned()),
            },
            TableFactor::NestedJoin(joined) => TableFactor::Derived {
                subquery: Box::new(make_plain_query(SetExpr::Select(Box::new(make_select_all(*joined))))),
                alias: Some(alias.to_owned()),
            },
        }
    }
}

/// The names of the keys, in order.
fn names_of(keys: &Vec<ContextKey>) -> (names: Vec<String>)
    ensures
        segments_view(names@) == key_names(key_views(keys@)),
{
    let mut names: Vec<String> = Vec::new();
    let mut i: usize = 0;
    while i < keys.len()
        invariant
            i <= keys.len(),
            names@.len() == i,
            forall|j: int| 0 <= j < i ==> names@[j]@ == keys@[j]@[0],
        decreases keys.len() - i,
    {
        names.push(keys[i].name().to_owned());
        i += 1;
    }
    assert(segments_view(names@) =~= key_names(key_views(keys@)));
    names
}

impl<A> JoinConstraint<A> {
    /// The constraint in the syntax, over its lowered expression.
    pub fn into_ansatz(self) -> (out: SqlJoinConstraint<A>)
        ensures
            out.model() == lower_constraint(self.shape(), self.exprs()),
    {
        match self {
            JoinConstraint::On(expr) => SqlJoinConstraint::On(expr),
            JoinConstraint::Using(keys) => SqlJoinConstraint::Using(names_of(&keys)),
            JoinConstraint::Natural => SqlJoinConstraint::Natural,
        }
    }
}

impl<A> JoinOperator<A> {
    /// The operator in the syntax, over its lowered expression.
    pub fn into_ansatz(self) -> (out: SqlJoinOperator<A>)
        ensures
            out.model() == lower_operator(self.shape(), self.exprs()),
    {
        match self {
            JoinOperator::Inner(c) => SqlJoinOperator::Inner(c.into_ansatz()),
            JoinOperator::LeftOuter(c) => SqlJoinOperator::LeftOuter(c.into_ansatz()),
            JoinOperator::RightOuter(c) => SqlJoinOperator::RightOuter(c.into_ansatz()),
            JoinOperator::FullOuter(c) => SqlJoinOperator::FullOuter(c.into_ansatz()),
            JoinOperator::CrossJoin => SqlJoinOperator::CrossJoin,
        }
    }
}

/// The keys of an `ORDER BY`: each expression with its direction, for as
/// many as have both.
fn make_order_keys<A>(by: Vec<A>, order: &Vec<Order>) -> (keys: Vec<OrderByExpr<A>>)
    ensures
        keys@ == order_keys(by@, order@),
{
    let ghost all = by@;
    let mut rest = reversed(by);
    let mut keys: Vec<OrderByExpr<A>> = Vec::new();
    let mut i: usize = 0;
    while i < order.len() && rest.len() > 0
        invariant
            i <= order.len(),
            i + rest@.len() == all.len(),
            forall|j: int| 0 <= j < rest@.len() ==> #[trigger] rest@[j] == all[all.len() - 1 - j],
            keys@.len() == i,
            forall|j: int|
                0 <= j < i ==> #[trigger] keys@[j] == (OrderByExpr {
                    expr: all[j],
                    asc: Some(order@[j] is Asc),
                }),
        decreases rest.len(),
    {
        let ghost at = rest@.len() - 1;
        let expr = rest.pop().unwrap();
        assert(expr == all[all.len() - 1 - at]);
        let asc = match order[i] {
            Order::Asc => true,
            Order::Desc => false,
        };
        keys.push(OrderByExpr { expr, asc: Some(asc) });
        i += 1;
    }
    assert(keys@ =~= order_keys(all, order@));
    keys
}

/// The items of a select list that the expressions are.
fn make_select_items<A>(exprs: Vec<A>) -> (items: Vec<SelectItem<A>>)
    ensures
        items@ == select_items(exprs@),
{
    let ghost all = exprs@;
    let mut rest = reversed(exprs);
    let mut items: Vec<SelectItem<A>> = Vec::new();
    while rest.len() > 0
        invariant
            items@.len() + rest@.len() == all.len(),
            forall|j: int| 0 <= j < rest@.len() ==> #[trigger] rest@[j] == all[all.len() - 1 - j],
            forall|j: int| 0 <= j < items@.len() ==> #[trigger] items@[j] == SelectItem::UnnamedExpr(all[j]),
        decreases rest.len(),
    {
        let ghost at = rest@.len() - 1;
        let expr = rest.pop().unwrap();
        assert(expr == all[all.len() - 1 - at]);
        items.push(SelectItem::UnnamedExpr(expr));
    }
    assert(items@ =~= select_items(all));
    items
}

/// A join on the columns that keys name lowers to a join on the names of
/// the keys, in order, whatever its kind, whatever else the node holds and
/// whatever the keys are qualified by.
pub proof fn law_using_lowers_to_names<A>(
    keys: Seq<Seq<Seq<char>>>,
    exprs: Seq<A>,
    kids: Seq<RelAnsatzModel<A>>,
)
    ensures
        key_names(keys).len() == keys.len(),
        forall|i: int| 0 <= i < keys.len() ==> #[trigger] key_names(keys)[i] == keys[i][0],
        lower_operator(JoinShape::Inner(ConstraintShape::Using(keys)), exprs)
            == SqlJoinOperatorModel::Inner(SqlJoinConstraintModel::<A>::Using(key_names(keys))),
        lower_operator(JoinShape::LeftOuter(ConstraintShape::Using(keys)), exprs)
            == SqlJoinOperatorModel::LeftOuter(SqlJoinConstraintModel::<A>::Using(key_names(keys))),
        lower_operator(JoinShape::RightOuter(ConstraintShape::Using(keys)), exprs)
            == SqlJoinOperatorModel::RightOuter(SqlJoinConstraintModel::<A>::Using(key_names(keys))),
        lower_operator(JoinShape::FullOuter(ConstraintShape::Using(keys)), exprs)
            == SqlJoinOperatorModel::FullOuter(SqlJoinConstraintModel::<A>::Using(key_names(keys))),
        lower_spec(Shape::Join(JoinShape::Inner(ConstraintShape::Using(keys))), exprs, kids) matches RelAnsatzModel::TableWithJoins(
            joined,
        ) && joined.joins.len() > 0 && joined.joins.last().join_operator
            == SqlJoinOperatorModel::Inner(SqlJoinConstraintModel::<A>::Using(key_names(keys))),
{
}

/// The lowered children of a node as plain values.
pub open spec fn kid_models<A>(kids: Seq<RelAnsatz<A>>) -> Seq<RelAnsatzModel<A>> {
    Seq::new(kids.len(), |i: int| kids[i].model())
}

/// Lowers a node whose expressions and children are lowered already.
///
/// An ordering, a limit and an offset are attached to the query that the
/// child is; `Distinct` marks the `SELECT` that the child is; a set
/// operation, never `ALL`, takes both children as bodies; a join adds a
/// clause to the joined tables that its left child is; a selection, an
/// aggregation and a projection set the condition, the grouping and the
/// list of a new `SELECT` from the child; an alias names the child; and a
/// table is named by the path of its key.
pub fn lower_node<A>(node: GenericRel<A, RelAnsatz<A>>) -> (out: RelAnsatz<A>)
    ensures
        out.model() == lower_spec(node@.shape, node@.exprs, kid_models(node@.kids)),
{
    match node {
        GenericRel::OrderBy { order, by, from } => {
            let query = from.into_query();
            RelAnsatz::Query(
                Query {
                    body: query.body,
                    order_by: make_order_keys(by, &order),
                    limit: query.limit,
                    offset: query.offset,
                },
            )
        },
        GenericRel::Distinct { from } => {
            let select = from.into_select();
            RelAnsatz::Select(
                Select {
                    distinct: true,
                    projection: select.projection,
                    from: select.from,
                    selection: select.selection,
                    group_by: select.group_by,
                },
            )
        },
        GenericRel::Limit { number_rows, from } => {
            let query = from.into_query();
            RelAnsatz::Query(
                Query {
                    body: query.body,
                    order_by: query.order_by,
                    limit: Some(number_rows),
                    offset: query.offset,
                },
            )
        },
        GenericRel::Offset { offset, from } => {
            let query = from.into_query();
            RelAnsatz::Query(
                Query {
                    body: query.body,
                    order_by: query.order_by,
                    limit: query.limit,
                    offset: Some(offset),
                },
            )
        },
        GenericRel::SetOperation { operator, left, right } => RelAnsatz::SetExpr(
            SetExpr::SetOperation {
                op: operator,
                all: false,
                left: Box::new(left.into_set_expr()),
                right: Box::new(right.into_set_expr()),
            },
        ),
        GenericRel::Join { left, right, operator } => {
            let joined = left.into_table_with_joins();
            let ghost before = joined.model();
            let join = Join { relation: right.into_table_factor(), join_operator: operator.into_ansatz() };
            let ghost clause = join.model();
            let mut joins = joined.joins;
            joins.push(join);
            let out = TableWithJoins { relation: joined.relation, joins };
            assert(out.model().joins =~= before.joins.push(clause));
            RelAnsatz::TableWithJoins(out)
        },
        GenericRel::Selection { from, where_ } => {
            let select = from.wrapped();
            RelAnsatz::Select(
                Select {
                    distinct: select.distinct,
                    projection: select.projection,
                    from: select.from,
                    selection: Some(where_),
                    group_by: select.group_by,
                },
            )
        },
        GenericRel::Aggregation { attributes, group_by, from } => {
            let select = from.wrapped();
            assert((attributes@ + group_by@).take(attributes@.len() as int) =~= attributes@);
            assert((attributes@ + group_by@).skip(attributes@.len() as int) =~= group_by@);
            RelAnsatz::Select(
                Select {
                    distinct: select.distinct,
                    projection: make_select_items(attributes),
                    from: select.from,
                    selection: select.selection,
                    group_by,
                },
            )
        },
        GenericRel::Projection { attributes, from } => {
            let select = from.wrapped();
            RelAnsatz::Select(
                Select {
                    distinct: select.distinct,
                    projection: make_select_items(attributes),
                    from: select.from,
                    selection: select.selection,
                    group_by: select.group_by,
                },
            )
        },
        GenericRel::WithAlias { from, alias } => RelAnsatz::TableFactor(from.with_alias(alias.as_str())),
        GenericRel::Table(key) => RelAnsatz::TableFactor(
            TableFactor::Table { name: key.path_segments(), alias: None },
        ),
    }
}

/// The outcome of a lowering as plain values.
pub open spec fn outcome_view<A>(out: Result<RelAnsatz<A>, CompositionError>) -> Result<
    RelAnsatzModel<A>,
    Seq<char>,
> {
    match out {
        Ok(form) => Ok(form.model()),
        Err(error) => Err(error@),
    }
}

/// Whether `out` may come of lowering the expressions of a node whose
/// children are lowered to `kids`: the error of the first expression, in
/// the order of the fields, that `lower` gives up on, the expressions
/// before it being lowered; or, all being lowered, the form that the node
/// lowers to over them.
pub open spec fn exprs_lower_to<E, A, F: Fn(&E) -> Result<A, CompositionError>>(
    lower: F,
    shape: Shape,
    exprs: Seq<E>,
    kids: Seq<RelAnsatzModel<A>>,
    out: Result<RelAnsatzModel<A>, Seq<char>>,
) -> bool {
    exists|lowered: Seq<A>|
        #![trigger lowered.len()]
        {
            &&& lowered.len() <= exprs.len()
            &&& forall|j: int|
                0 <= j < lowered.len() ==> call_ensures(
                    lower,
                    (&exprs[j],),
                    Ok::<A, CompositionError>(#[trigger] lowered[j]),
                )
            &&& if lowered.len() < exprs.len() {
                exists|error: CompositionError|
                    #![trigger error@]
                    call_ensures(
                        lower,
                        (&exprs[lowered.len() as int],),
                        Err::<A, CompositionError>(error),
                    ) && out == Err::<RelAnsatzModel<A>, Seq<char>>(error@)
            } else {
                out == Ok::<RelAnsatzModel<A>, Seq<char>>(lower_spec(shape, lowered, kids))
            }
        }
}

/// Whether the first children of `tree`, as many as `models` has, may lower
/// to `models`, place by place.
pub open spec fn kids_lower_to<B, E, A, F: Fn(&E) -> Result<A, CompositionError>>(
    lower: F,
    tree: RelT<B, E>,
    models: Seq<RelAnsatzModel<A>>,
) -> bool
    decreases tree.height(), 0nat,
{
    &&& models.len() <= tree.node().kids.len()
    &&& forall|i: int|
        0 <= i < models.len() ==> {
            proof {
                tree.lemma_kid_lower(i);
            }
            lowers_to(
                lower,
                *tree.node().kids[i],
                Ok::<RelAnsatzModel<A>, Seq<char>>(#[trigger] models[i]),
            )
        }
}

/// Whether the child at `at` may fail to lower, with the error that `out` is.
pub open spec fn kid_fails_with<B, E, A, F: Fn(&E) -> Result<A, CompositionError>>(
    lower: F,
    tree: RelT<B, E>,
    at: int,
    out: Result<RelAnsatzModel<A>, Seq<char>>,
) -> bool
    decreases tree.height(), 0nat,
{
    &&& 0 <= at < tree.node().kids.len()
    &&& out.is_err()
    &&& {
        proof {
            tree.lemma_kid_lower(at);
        }
        lowers_to(lower, *tree.node().kids[at], out)
    }
}

/// Whether `out` may come of lowering `tree` with `lower` for its
/// expressions.
///
/// The children are lowered first, left before right, and the first that
/// fails gives the outcome. Then the expressions of the root are lowered,
/// in the order of its fields, and the first that fails gives the outcome.
/// Where nothing fails, the outcome is the form that the root lowers to
/// over its lowered expressions and children.
pub open spec fn lowers_to<B, E, A, F: Fn(&E) -> Result<A, CompositionError>>(
    lower: F,
    tree: RelT<B, E>,
    out: Result<RelAnsatzModel<A>, Seq<char>>,
) -> bool
    decreases tree.height(), 1nat,
{
    exists|models: Seq<RelAnsatzModel<A>>|
        #![trigger models.len()]
        {
            &&& kids_lower_to(lower, tree, models)
            &&& {
                ||| kid_fails_with(lower, tree, models.len() as int, out)
                ||| models.len() == tree.node().kids.len() && exprs_lower_to(
                    lower,
                    tree.node().shape,
                    tree.node().exprs,
                    models,
                    out,
                )
            }
        }
}

/// Whether `lower` may be called on every expression of the tree.
pub open spec fn lowerable<B, E, A, F: Fn(&E) -> Result<A, CompositionError>>(
    lower: F,
    tree: RelT<B, E>,
) -> bool
    decreases tree.height(),
{
    &&& callable(lower, tree.node().exprs)
    &&& forall|i: int|
        0 <= i < tree.node().kids.len() ==> {
            proof {
                tree.lemma_kid_lower(i);
            }
            lowerable(lower, *#[trigger] tree.node().kids[i])
        }
}

/// What may be called on every expression can lower every tree.
pub proof fn lemma_lowerable<B, E, A, F: Fn(&E) -> Result<A, CompositionError>>(
    lower: F,
    tree: RelT<B, E>,
)
    requires
        forall|e: E| call_requires(lower, (&e,)),
    ensures
        lowerable(lower, tree),
    decreases tree.height(),
{
    assert forall|i: int| 0 <= i < tree.node().kids.len() implies lowerable(
        lower,
        *#[trigger] tree.node().kids[i],
    ) by {
        tree.lemma_kid_lower(i);
        lemma_lowerable(lower, *tree.node().kids[i]);
    }
}

impl<B, E> RelT<B, E> {
    /// Lowers the tree into the syntax of queries, with `lower` for the
    /// expressions. It fails only where `lower` does, with the first such
    /// failure.
    pub fn to_ansatz<A, F: Fn(&E) -> Result<A, CompositionError>>(&self, lower: &F) -> (out: Result<
        RelAnsatz<A>,
        CompositionError,
    >)
        requires
            lowerable(*lower, *self),
        ensures
            lowers_to(*lower, *self, outcome_view(out)),
        decreases self.height(),
    {
        let kids = self.children();
        let mut forms: Vec<RelAnsatz<A>> = Vec::new();
        let mut i: usize = 0;
        while i < kids.len()
            invariant
                i <= kids.len(),
                lowerable(*lower, *self),
                kids@.len() == self.node().kids.len(),
                forall|j: int| 0 <= j < kids@.len() ==> *#[trigger] kids@[j] == *self.node().kids[j],
                forms@.len() == i,
                kids_lower_to(*lower, *self, kid_models(forms@)),
            decreases kids.len() - i,
        {
            proof {
                self.lemma_kid_lower(i as int);
                assert(*kids@[i as int] == *self.node().kids[i as int]);
                assert(lowerable(*lower, *self.node().kids[i as int]));
            }
            let ghost before = kid_models(forms@);
            match kids[i].to_ansatz(lower) {
                Ok(form) => {
                    forms.push(form);
                    proof {
                        let now = kid_models(forms@);
                        assert forall|j: int| 0 <= j < now.len() implies lowers_to(
                            *lower,
                            *self.node().kids[j],
                            Ok::<RelAnsatzModel<A>, Seq<char>>(#[trigger] now[j]),
                        ) by {
                            if j < i {
                                assert(now[j] == before[j]);
                            }
                        }
                    }
                },
                Err(error) => {
                    proof {
                        let out = Err::<RelAnsatzModel<A>, Seq<char>>(error@);
                        assert(before.len() == i);
                        assert(kid_fails_with(*lower, *self, before.len() as int, out));
                    }
                    return Err(error);
                },
            }
            i += 1;
        }
        let ghost models = kid_models(forms@);
        let exprs = self.expressions();
        let mut lowered: Vec<A> = Vec::new();
        let mut j: usize = 0;
        while j < exprs.len()
            invariant
                j <= exprs.len(),
                callable(*lower, self.node().exprs),
                borrowed(self.node().exprs, exprs@),
                models.len() == self.node().kids.len(),
                kids_lower_to(*lower, *self, models),
                lowered@.len() == j,
                forall|k: int|
                    0 <= k < j ==> call_ensures(
                        *lower,
                        (&self.node().exprs[k],),
                        Ok::<A, CompositionError>(#[trigger] lowered@[k]),
                    ),
            decreases exprs.len() - j,
        {
            assert(*exprs@[j as int] == self.node().exprs[j as int]);
            match lower(exprs[j]) {
                Ok(a) => {
                    lowered.push(a);
                },
                Err(error) => {
                    proof {
                        let out = Err::<RelAnsatzModel<A>, Seq<char>>(error@);
                        assert(lowered@.len() < self.node().exprs.len());
                        assert(call_ensures(
                            *lower,
                            (&self.node().exprs[lowered@.len() as int],),
                            Err::<A, CompositionError>(error),
                        ));
                        assert(exprs_lower_to(
                            *lower,
                            self.node().shape,
                            self.node().exprs,
                            models,
                            out,
                        ));
                        assert(kids_lower_to(*lower, *self, models));
                    }
                    return Err(error);
                },
            }
            j += 1;
        }
        let ghost all = lowered@;
        let ghost given = forms@;
        let node = self.as_ref().rebuild(lowered, forms);
        let out = lower_node(node);
        proof {
            assert(node@.exprs == all);
            assert(node@.kids == given);
            assert(exprs_lower_to(
                *lower,
                self.node().shape,
                self.node().exprs,
                models,
                Ok::<RelAnsatzModel<A>, Seq<char>>(out.model()),
            ));
        }
        Ok(out)
    }
}

} // verus!
