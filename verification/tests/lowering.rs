use worker::ansatz::{
    lower_node, Join, OrderByExpr, Query, RelAnsatz, Select, SelectItem, SetExpr, SqlJoinConstraint,
    SqlJoinOperator, TableFactor, TableWithJoins,
};
use worker::error::CompositionError;
use worker::key::ContextKey;
use worker::label::LabelSet;
use worker::meta::{ExprMeta, TableMeta};
use worker::rebase::Relation;
use worker::rel::{GenericRel, JoinConstraint, JoinOperator, Order, SetOperator};
use worker::tree::{ExprT, RelT};

type Expr = ExprT<ExprMeta, String>;
type Tree = Relation<TableMeta, String>;
type Form = RelAnsatz<String>;

fn key(path: &[&str]) -> ContextKey {
    let mut segments = path.iter().rev();
    let mut key = ContextKey::with_name(segments.next().unwrap());
    for segment in segments {
        key = key.and_prefix(segment);
    }
    key
}

fn expr(text: &str) -> Expr {
    ExprT { root: text.to_string(), board: Ok(ExprMeta { audience: LabelSet::new() }) }
}

fn text(e: &Expr) -> Result<String, CompositionError> {
    if e.root.starts_with('!') {
        Err(CompositionError { reason: e.root.clone() })
    } else {
        Ok(e.root.clone())
    }
}

fn table(path: &[&str]) -> Tree {
    RelT::from(GenericRel::Table(key(path)))
}

fn name(path: &[&str]) -> Vec<String> {
    path.iter().map(|segment| segment.to_string()).collect()
}

fn factor(path: &[&str]) -> TableFactor<String> {
    TableFactor::Table { name: name(path), alias: None }
}

fn from(path: &[&str]) -> Vec<TableWithJoins<String>> {
    vec![TableWithJoins { relation: factor(path), joins: vec![] }]
}

fn item(text: &str) -> SelectItem<String> {
    SelectItem::UnnamedExpr(text.to_string())
}

fn select_all_from(path: &[&str]) -> Select<String> {
    Select {
        distinct: false,
        projection: vec![SelectItem::Wildcard],
        from: from(path),
        selection: None,
        group_by: vec![],
    }
}

fn plain(body: SetExpr<String>) -> Query<String> {
    Query { body, order_by: vec![], limit: None, offset: None }
}

#[test]
fn a_table_lowers_to_its_path() {
    assert_eq!(table(&["t"]).to_ansatz(&text), Ok(RelAnsatz::TableFactor(factor(&["t"]))));
    assert_eq!(
        table(&["db", "schema", "t"]).to_ansatz(&text),
        Ok(RelAnsatz::TableFactor(factor(&["db", "schema", "t"])))
    );
    let node: GenericRel<String, Form> = GenericRel::Table(key(&["db", "t"]));
    assert_eq!(lower_node(node), RelAnsatz::TableFactor(factor(&["db", "t"])));
}

#[test]
fn a_projection_lowers_to_a_select_of_its_attributes() {
    let tree: Tree =
        RelT::from(GenericRel::Projection { attributes: vec![expr("col_a")], from: table(&["t"]) });
    let expected = Select {
        distinct: false,
        projection: vec![item("col_a")],
        from: from(&["t"]),
        selection: None,
        group_by: vec![],
    };
    assert_eq!(tree.to_ansatz(&text), Ok(RelAnsatz::Select(expected)));
}

#[test]
fn an_ordering_lowers_to_an_order_by_on_the_query() {
    let select = Select {
        distinct: false,
        projection: vec![item("col_a")],
        from: from(&["t"]),
        selection: None,
        group_by: vec![],
    };
    let tree: Tree = RelT::from(GenericRel::OrderBy {
        order: vec![Order::Desc],
        by: vec![expr("col_a")],
        from: RelT::from(GenericRel::Projection {
            attributes: vec![expr("col_a")],
            from: table(&["t"]),
        }),
    });
    let expected = Query {
        body: SetExpr::Select(Box::new(select)),
        order_by: vec![OrderByExpr { expr: "col_a".to_string(), asc: Some(false) }],
        limit: None,
        offset: None,
    };
    assert_eq!(tree.to_ansatz(&text), Ok(RelAnsatz::Query(expected)));

    let tree: Tree = RelT::from(GenericRel::OrderBy {
        order: vec![Order::Desc],
        by: vec![expr("col_a")],
        from: table(&["t"]),
    });
    let expected = Query {
        body: SetExpr::Select(Box::new(select_all_from(&["t"]))),
        order_by: vec![OrderByExpr { expr: "col_a".to_string(), asc: Some(false) }],
        limit: None,
        offset: None,
    };
    assert_eq!(tree.to_ansatz(&text), Ok(RelAnsatz::Query(expected)));
}

#[test]
fn order_keys_pair_expressions_with_directions() {
    let node: GenericRel<String, Form> = GenericRel::OrderBy {
        order: vec![Order::Asc, Order::Desc, Order::Asc],
        by: vec!["a".to_string(), "b".to_string()],
        from: RelAnsatz::TableFactor(factor(&["t"])),
    };
    let expected = Query {
        body: SetExpr::Select(Box::new(select_all_from(&["t"]))),
        order_by: vec![
            OrderByExpr { expr: "a".to_string(), asc: Some(true) },
            OrderByExpr { expr: "b".to_string(), asc: Some(false) },
        ],
        limit: None,
        offset: None,
    };
    assert_eq!(lower_node(node), RelAnsatz::Query(expected));

    let node: GenericRel<String, Form> = GenericRel::OrderBy {
        order: vec![Order::Desc],
        by: vec!["a".to_string(), "b".to_string()],
        from: RelAnsatz::TableFactor(factor(&["t"])),
    };
    match lower_node(node) {
        RelAnsatz::Query(query) => {
            assert_eq!(query.order_by, vec![OrderByExpr { expr: "a".to_string(), asc: Some(false) }])
        }
        other => panic!("not a query: {:?}", other),
    }
}

#[test]
fn a_join_on_keys_lowers_to_their_names() {
    let k1 = key(&["db", "left", "id"]);
    let k2 = key(&["day"]);
    let kinds: Vec<(JoinOperator<Expr>, SqlJoinOperator<String>)> = vec![
        (
            JoinOperator::Inner(JoinConstraint::Using(vec![k1.clone(), k2.clone()])),
            SqlJoinOperator::Inner(SqlJoinConstraint::Using(name(&["id", "day"]))),
        ),
        (
            JoinOperator::LeftOuter(JoinConstraint::Using(vec![k1.clone(), k2.clone()])),
            SqlJoinOperator::LeftOuter(SqlJoinConstraint::Using(name(&["id", "day"]))),
        ),
        (
            JoinOperator::RightOuter(JoinConstraint::Using(vec![k1.clone(), k2.clone()])),
            SqlJoinOperator::RightOuter(SqlJoinConstraint::Using(name(&["id", "day"]))),
        ),
        (
            JoinOperator::FullOuter(JoinConstraint::Using(vec![k1.clone(), k2.clone()])),
            SqlJoinOperator::FullOuter(SqlJoinConstraint::Using(name(&["id", "day"]))),
        ),
    ];
    for (operator, expected) in kinds {
        let tree: Tree =
            RelT::from(GenericRel::Join { left: table(&["l"]), right: table(&["r"]), operator });
        let joined = TableWithJoins {
            relation: factor(&["l"]),
            joins: vec![Join { relation: factor(&["r"]), join_operator: expected }],
        };
        assert_eq!(tree.to_ansatz(&text), Ok(RelAnsatz::TableWithJoins(joined)));
    }
    assert_eq!(
        JoinConstraint::<String>::Using(vec![k1, k2]).into_ansatz(),
        SqlJoinConstraint::Using(name(&["id", "day"]))
    );
}

#[test]
fn joins_keep_their_kind_and_condition() {
    assert_eq!(
        JoinOperator::Inner(JoinConstraint::On("c".to_string())).into_ansatz(),
        SqlJoinOperator::Inner(SqlJoinConstraint::On("c".to_string()))
    );
    assert_eq!(
        JoinOperator::LeftOuter(JoinConstraint::<String>::Natural).into_ansatz(),
        SqlJoinOperator::LeftOuter(SqlJoinConstraint::Natural)
    );
    assert_eq!(JoinOperator::<String>::CrossJoin.into_ansatz(), SqlJoinOperator::CrossJoin);
    assert_eq!(
        JoinConstraint::On("c".to_string()).into_ansatz(),
        SqlJoinConstraint::On("c".to_string())
    );

    let tree: Tree = RelT::from(GenericRel::Join {
        left: RelT::from(GenericRel::Join {
            left: table(&["a"]),
            right: table(&["b"]),
            operator: JoinOperator::Inner(JoinConstraint::On(expr("a.x = b.x"))),
        }),
        right: table(&["c"]),
        operator: JoinOperator::CrossJoin,
    });
    let joined = TableWithJoins {
        relation: factor(&["a"]),
        joins: vec![
            Join {
                relation: factor(&["b"]),
                join_operator: SqlJoinOperator::Inner(SqlJoinConstraint::On("a.x = b.x".to_string())),
            },
            Join { relation: factor(&["c"]), join_operator: SqlJoinOperator::CrossJoin },
        ],
    };
    assert_eq!(tree.to_ansatz(&text), Ok(RelAnsatz::TableWithJoins(joined)));

    let tree: Tree = RelT::from(GenericRel::Join {
        left: table(&["a"]),
        right: RelT::from(GenericRel::Join {
            left: table(&["b"]),
            right: table(&["c"]),
            operator: JoinOperator::CrossJoin,
        }),
        operator: JoinOperator::FullOuter(JoinConstraint::Natural),
    });
    let nested = TableWithJoins {
        relation: factor(&["b"]),
        joins: vec![Join { relation: factor(&["c"]), join_operator: SqlJoinOperator::CrossJoin }],
    };
    let joined = TableWithJoins {
        relation: factor(&["a"]),
        joins: vec![Join {
            relation: TableFactor::NestedJoin(Box::new(nested)),
            join_operator: SqlJoinOperator::FullOuter(SqlJoinConstraint::Natural),
        }],
    };
    assert_eq!(tree.to_ansatz(&text), Ok(RelAnsatz::TableWithJoins(joined)));
}

#[test]
fn distinct_marks_the_select_below() {
    let tree: Tree = RelT::from(GenericRel::Distinct {
        from: RelT::from(GenericRel::Projection {
            attributes: vec![expr("a"), expr("b")],
            from: table(&["t"]),
        }),
    });
    let expected = Select {
        distinct: true,
        projection: vec![item("a"), item("b")],
        from: from(&["t"]),
        selection: None,
        group_by: vec![],
    };
    assert_eq!(tree.to_ansatz(&text), Ok(RelAnsatz::Select(expected)));

    let tree: Tree = RelT::from(GenericRel::Distinct { from: table(&["t"]) });
    let mut expected = select_all_from(&["t"]);
    expected.distinct = true;
    assert_eq!(tree.to_ansatz(&text), Ok(RelAnsatz::Select(expected)));
}

#[test]
fn limit_and_offset_bound_the_query() {
    let tree: Tree = RelT::from(GenericRel::Offset {
        offset: expr("5"),
        from: RelT::from(GenericRel::Limit { number_rows: expr("10"), from: table(&["t"]) }),
    });
    let expected = Query {
        body: SetExpr::Select(Box::new(select_all_from(&["t"]))),
        order_by: vec![],
        limit: Some("10".to_string()),
        offset: Some("5".to_string()),
    };
    assert_eq!(tree.to_ansatz(&text), Ok(RelAnsatz::Query(expected)));
}

#[test]
fn a_set_operation_takes_both_sides_and_is_never_all() {
    let operators = vec![SetOperator::Union, SetOperator::Except, SetOperator::Intersect];
    for operator in operators {
        let tree: Tree = RelT::from(GenericRel::SetOperation {
            operator,
            left: RelT::from(GenericRel::Projection {
                attributes: vec![expr("a")],
                from: table(&["l"]),
            }),
            right: table(&["r"]),
        });
        let left = Select {
            distinct: false,
            projection: vec![item("a")],
            from: from(&["l"]),
            selection: None,
            group_by: vec![],
        };
        let expected = SetExpr::SetOperation {
            op: operator,
            all: false,
            left: Box::new(SetExpr::Select(Box::new(left))),
            right: Box::new(SetExpr::Select(Box::new(select_all_from(&["r"])))),
        };
        assert_eq!(tree.to_ansatz(&text), Ok(RelAnsatz::SetExpr(expected)));
    }
}

#[test]
fn a_selection_sets_the_condition_of_a_new_select() {
    let tree: Tree = RelT::from(GenericRel::Selection {
        from: RelT::from(GenericRel::Projection {
            attributes: vec![expr("a")],
            from: table(&["t"]),
        }),
        where_: expr("a > 1"),
    });
    let inner = Select {
        distinct: false,
        projection: vec![item("a")],
        from: from(&["t"]),
        selection: None,
        group_by: vec![],
    };
    let derived = TableFactor::Derived {
        subquery: Box::new(plain(SetExpr::Select(Box::new(inner)))),
        alias: None,
    };
    let expected = Select {
        distinct: false,
        projection: vec![SelectItem::Wildcard],
        from: vec![TableWithJoins { relation: derived, joins: vec![] }],
        selection: Some("a > 1".to_string()),
        group_by: vec![],
    };
    assert_eq!(tree.to_ansatz(&text), Ok(RelAnsatz::Select(expected)));
}

#[test]
fn an_aggregation_sets_the_list_and_the_grouping() {
    let tree: Tree = RelT::from(GenericRel::Aggregation {
        attributes: vec![expr("sum(x)"), expr("y")],
        group_by: vec![expr("y"), expr("z")],
        from: table(&["t"]),
    });
    let expected = Select {
        distinct: false,
        projection: vec![item("sum(x)"), item("y")],
        from: from(&["t"]),
        selection: None,
        group_by: vec!["y".to_string(), "z".to_string()],
    };
    assert_eq!(tree.to_ansatz(&text), Ok(RelAnsatz::Select(expected)));
}

#[test]
fn an_alias_names_what_it_wraps() {
    let tree: Tree =
        RelT::from(GenericRel::WithAlias { from: table(&["db", "t"]), alias: "x".to_string() });
    assert_eq!(
        tree.to_ansatz(&text),
        Ok(RelAnsatz::TableFactor(TableFactor::Table {
            name: name(&["db", "t"]),
            alias: Some("x".to_string())
        }))
    );

    let tree: Tree = RelT::from(GenericRel::WithAlias {
        from: RelT::from(GenericRel::Limit { number_rows: expr("1"), from: table(&["t"]) }),
        alias: "x".to_string(),
    });
    let query = Query {
        body: SetExpr::Select(Box::new(select_all_from(&["t"]))),
        order_by: vec![],
        limit: Some("1".to_string()),
        offset: None,
    };
    assert_eq!(
        tree.to_ansatz(&text),
        Ok(RelAnsatz::TableFactor(TableFactor::Derived {
            subquery: Box::new(query),
            alias: Some("x".to_string())
        }))
    );

    let tree: Tree = RelT::from(GenericRel::WithAlias {
        from: RelT::from(GenericRel::Join {
            left: table(&["a"]),
            right: table(&["b"]),
            operator: JoinOperator::CrossJoin,
        }),
        alias: "x".to_string(),
    });
    let joined = TableWithJoins {
        relation: factor(&["a"]),
        joins: vec![Join { relation: factor(&["b"]), join_operator: SqlJoinOperator::CrossJoin }],
    };
    let select = Select {
        distinct: false,
        projection: vec![SelectItem::Wildcard],
        from: vec![joined],
        selection: None,
        group_by: vec![],
    };
    assert_eq!(
        tree.to_ansatz(&text),
        Ok(RelAnsatz::TableFactor(TableFactor::Derived {
            subquery: Box::new(plain(SetExpr::Select(Box::new(select)))),
            alias: Some("x".to_string())
        }))
    );
}

#[test]
fn forms_turn_into_one_another() {
    let query = Query {
        body: SetExpr::Select(Box::new(select_all_from(&["t"]))),
        order_by: vec![],
        limit: Some("1".to_string()),
        offset: None,
    };
    let form: Form = RelAnsatz::Query(query);
    match form.into_set_expr() {
        SetExpr::Query(inner) => assert_eq!(inner.limit, Some("1".to_string())),
        other => panic!("not a query in brackets: {:?}", other),
    }
    let form: Form = RelAnsatz::SetExpr(SetExpr::Select(Box::new(select_all_from(&["t"]))));
    assert_eq!(form.into_query(), plain(SetExpr::Select(Box::new(select_all_from(&["t"])))));
    let form: Form = RelAnsatz::Select(select_all_from(&["t"]));
    assert_eq!(form.into_select(), select_all_from(&["t"]));
    let form: Form = RelAnsatz::Select(select_all_from(&["t"]));
    assert_eq!(
        form.into_table_factor(),
        TableFactor::Derived {
            subquery: Box::new(plain(SetExpr::Select(Box::new(select_all_from(&["t"]))))),
            alias: None
        }
    );
    let form: Form = RelAnsatz::TableFactor(factor(&["t"]));
    assert_eq!(
        form.into_table_with_joins(),
        TableWithJoins { relation: factor(&["t"]), joins: vec![] }
    );
    let form: Form = RelAnsatz::TableFactor(factor(&["t"]));
    assert_eq!(form.wrapped(), select_all_from(&["t"]));
    let form: Form = RelAnsatz::TableFactor(factor(&["t"]));
    assert_eq!(
        form.with_alias("x"),
        TableFactor::Table { name: name(&["t"]), alias: Some("x".to_string()) }
    );
}

#[test]
fn lowering_fails_with_the_first_expression_that_does() {
    let tree: Tree = RelT::from(GenericRel::Aggregation {
        attributes: vec![expr("a"), expr("!second")],
        group_by: vec![expr("!third")],
        from: table(&["t"]),
    });
    assert_eq!(tree.to_ansatz(&text), Err(CompositionError { reason: "!second".to_string() }));

    let tree: Tree = RelT::from(GenericRel::Selection {
        from: RelT::from(GenericRel::Join {
            left: RelT::from(GenericRel::Limit { number_rows: expr("!left"), from: table(&["l"]) }),
            right: RelT::from(GenericRel::Limit { number_rows: expr("!right"), from: table(&["r"]) }),
            operator: JoinOperator::Inner(JoinConstraint::On(expr("!on"))),
        }),
        where_: expr("!where"),
    });
    assert_eq!(tree.to_ansatz(&text), Err(CompositionError { reason: "!left".to_string() }));

    let tree: Tree = RelT::from(GenericRel::Join {
        left: table(&["l"]),
        right: RelT::from(GenericRel::Limit { number_rows: expr("!right"), from: table(&["r"]) }),
        operator: JoinOperator::Inner(JoinConstraint::On(expr("!on"))),
    });
    assert_eq!(tree.to_ansatz(&text), Err(CompositionError { reason: "!right".to_string() }));

    let tree: Tree = RelT::from(GenericRel::Join {
        left: table(&["l"]),
        right: table(&["r"]),
        operator: JoinOperator::Inner(JoinConstraint::On(expr("!on"))),
    });
    assert_eq!(tree.to_ansatz(&text), Err(CompositionError { reason: "!on".to_string() }));
}
