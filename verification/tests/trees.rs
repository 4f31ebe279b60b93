use worker::context::Context;
use worker::error::{ValidateError, ValidateResult};
use worker::key::ContextKey;
use worker::label::{BlockType, LabelSet};
use worker::meta::{same_columns, ExprMeta, Repr, TableMeta};
use worker::rebase::{rebase, remake, Lookup, RebaseClosure, RebaseRel, Relation};
use worker::rel::{GenericRel, JoinConstraint, JoinOperator, Order, SetOperator};
use worker::tree::{ExprT, RelT};

type Expr = ExprT<ExprMeta, String>;
type Tree = Relation<TableMeta, String>;

fn key(path: &[&str]) -> ContextKey {
    let mut segments = path.iter().rev();
    let mut key = ContextKey::with_name(segments.next().unwrap());
    for segment in segments {
        key = key.and_prefix(segment);
    }
    key
}

fn block(kind: &str, labels: &[&str]) -> BlockType {
    BlockType::new(kind, labels.iter().map(|label| label.to_string()).collect())
}

fn labels(names: &[&str]) -> LabelSet {
    let mut set = LabelSet::new();
    for name in names {
        set.insert(block("resource", &["group", name]));
    }
    set
}

fn expr(text: &str, audience: &[&str]) -> Expr {
    ExprT { root: text.to_string(), board: Ok(ExprMeta { audience: labels(audience) }) }
}

fn broken_expr(text: &str, column: &[&str]) -> Expr {
    ExprT { root: text.to_string(), board: Err(ValidateError::ColumnNotFound(key(column))) }
}

fn columns(names: &[(&str, &[&str])]) -> Context<ExprMeta> {
    let mut context = Context::new();
    for (name, audience) in names {
        context.insert(key(&[name]), ExprMeta { audience: labels(audience) });
    }
    context
}

fn meta(
    cols: &[(&str, &[&str])],
    loc: Option<&str>,
    provenance: Option<&[&str]>,
    audience: &[&str],
) -> TableMeta {
    TableMeta {
        columns: columns(cols),
        loc: loc.map(|name| block("backend", &[name])),
        source: None,
        provenance: provenance.map(key),
        audience: labels(audience),
    }
}

fn table(path: &[&str], known: TableMeta) -> Tree {
    RelT::leaf(key(path), Ok(known))
}

fn keep(_context: &Context<ExprMeta>, e: &Expr) -> Expr {
    ExprT { root: e.root.clone(), board: e.board.clone() }
}

fn board(tree: &Tree) -> &TableMeta {
    tree.board.as_ref().unwrap()
}

fn orders() -> Tree {
    table(
        &["shop", "orders"],
        meta(
            &[("id", &["staff", "audit"]), ("total", &["staff"])],
            Some("warehouse"),
            Some(&["shop", "orders"]),
            &["staff", "audit"],
        ),
    )
}

fn clients() -> Tree {
    table(
        &["shop", "clients"],
        meta(
            &[("id", &["staff"]), ("name", &["staff", "sales"])],
            Some("warehouse"),
            Some(&["shop", "clients"]),
            &["staff", "sales"],
        ),
    )
}

fn ledger() -> Tree {
    table(
        &["bank", "ledger"],
        meta(&[("amount", &["audit"])], Some("vault"), Some(&["bank", "ledger"]), &["audit"]),
    )
}

#[test]
fn a_table_made_from_a_node_knows_its_key_only() {
    let tree: Tree = RelT::from(GenericRel::Table(key(&["shop", "orders"])));
    assert!(tree.is_leaf());
    let known = board(&tree);
    assert_eq!(known.provenance, Some(key(&["shop", "orders"])));
    assert_eq!(known.source, None);
    assert_eq!(known.loc, None);
    assert_eq!(known.columns.len(), 0);
    assert!(known.audience.same_as(&LabelSet::new()));
    assert_eq!(tree.table_key(), Some(&key(&["shop", "orders"])));
}

#[test]
fn is_leaf_is_for_tables() {
    assert!(orders().is_leaf());
    let tree: Tree = RelT::from(GenericRel::Distinct { from: orders() });
    assert!(!tree.is_leaf());
    assert_eq!(tree.table_key(), None);
    assert_eq!(tree.children().len(), 1);
    assert!(tree.children()[0].is_leaf());
    assert_eq!(tree.expressions().len(), 0);
}

#[test]
fn the_same_node_over_the_same_children_gets_the_same_board() {
    let build = || -> Tree {
        RelT::from(GenericRel::Join {
            left: RelT::from(GenericRel::Selection {
                from: orders(),
                where_: expr("total > 10", &["staff"]),
            }),
            right: clients(),
            operator: JoinOperator::Inner(JoinConstraint::On(expr("o.id = c.id", &["staff"]))),
        })
    };
    let first = build();
    let second = build();
    assert!(board(&first).same_as(board(&second)));

    let broken = || -> Tree {
        RelT::from(GenericRel::Projection {
            attributes: vec![expr("a", &["staff"]), broken_expr("b", &["b"])],
            from: orders(),
        })
    };
    assert_eq!(broken().board.err(), broken().board.err());
    assert_eq!(broken().board.err(), Some(ValidateError::ColumnNotFound(key(&["b"]))));
}

#[test]
fn audiences_narrow_through_every_operator_but_projection() {
    let joined: Tree = RelT::from(GenericRel::Join {
        left: orders(),
        right: clients(),
        operator: JoinOperator::CrossJoin,
    });
    assert!(board(&joined).audience.same_as(&labels(&["staff"])));
    assert!(board(&joined).audience.is_subset_of(&board(&orders()).audience));
    assert!(board(&joined).audience.is_subset_of(&board(&clients()).audience));

    let union: Tree = RelT::from(GenericRel::SetOperation {
        operator: SetOperator::Union,
        left: clients(),
        right: ledger(),
    });
    assert!(board(&union).audience.same_as(&LabelSet::new()));

    let one: Vec<Tree> = vec![
        RelT::from(GenericRel::Selection { from: orders(), where_: expr("w", &["nobody"]) }),
        RelT::from(GenericRel::Aggregation {
            attributes: vec![expr("a", &["nobody"])],
            group_by: vec![expr("g", &["other"])],
            from: orders(),
        }),
        RelT::from(GenericRel::Offset { offset: expr("1", &[]), from: orders() }),
        RelT::from(GenericRel::Limit { number_rows: expr("1", &[]), from: orders() }),
        RelT::from(GenericRel::OrderBy {
            order: vec![Order::Asc],
            by: vec![expr("id", &["nobody"])],
            from: orders(),
        }),
        RelT::from(GenericRel::Distinct { from: orders() }),
        RelT::from(GenericRel::WithAlias { from: orders(), alias: "o".to_string() }),
    ];
    for tree in &one {
        assert!(board(tree).audience.same_as(&labels(&["staff", "audit"])));
    }
}

#[test]
fn a_projection_is_seen_by_whoever_may_see_an_attribute() {
    let projection: Tree = RelT::from(GenericRel::Projection {
        attributes: vec![expr("id", &["staff", "audit"]), expr("name", &["sales"])],
        from: ledger(),
    });
    assert!(board(&projection).audience.same_as(&labels(&["staff", "audit", "sales"])));

    let other_input: Tree = RelT::from(GenericRel::Projection {
        attributes: vec![expr("id", &["staff", "audit"]), expr("name", &["sales"])],
        from: clients(),
    });
    assert!(board(&other_input).audience.same_as(&board(&projection).audience));

    let nothing: Tree = RelT::from(GenericRel::Projection { attributes: vec![], from: orders() });
    assert!(board(&nothing).audience.same_as(&LabelSet::new()));
}

#[test]
fn provenance_is_what_the_keys_of_the_children_share() {
    let same_shop: Tree = RelT::from(GenericRel::Join {
        left: orders(),
        right: clients(),
        operator: JoinOperator::CrossJoin,
    });
    assert_eq!(board(&same_shop).provenance, Some(key(&["shop"])));

    let apart: Tree = RelT::from(GenericRel::Join {
        left: orders(),
        right: ledger(),
        operator: JoinOperator::CrossJoin,
    });
    assert_eq!(board(&apart).provenance, None);

    let single: Tree = RelT::from(GenericRel::Distinct { from: orders() });
    assert_eq!(board(&single).provenance, Some(key(&["shop", "orders"])));

    let unknown = table(&["x"], meta(&[], None, None, &[]));
    let over_unknown: Tree = RelT::from(GenericRel::Distinct { from: unknown });
    assert_eq!(board(&over_unknown).provenance, None);

    let with_unknown: Tree = RelT::from(GenericRel::Join {
        left: table(&["x"], meta(&[], None, None, &[])),
        right: orders(),
        operator: JoinOperator::CrossJoin,
    });
    assert_eq!(board(&with_unknown).provenance, Some(key(&["shop", "orders"])));

    let nested: Tree = RelT::from(GenericRel::SetOperation {
        operator: SetOperator::Union,
        left: same_shop,
        right: orders(),
    });
    assert_eq!(board(&nested).provenance, Some(key(&["shop"])));
}

#[test]
fn location_is_kept_where_all_children_agree() {
    let together: Tree = RelT::from(GenericRel::Join {
        left: orders(),
        right: clients(),
        operator: JoinOperator::CrossJoin,
    });
    assert_eq!(board(&together).loc, Some(block("backend", &["warehouse"])));

    let apart: Tree = RelT::from(GenericRel::Join {
        left: orders(),
        right: ledger(),
        operator: JoinOperator::CrossJoin,
    });
    assert_eq!(board(&apart).loc, None);

    let over_apart: Tree = RelT::from(GenericRel::Join {
        left: apart,
        right: orders(),
        operator: JoinOperator::CrossJoin,
    });
    assert_eq!(board(&over_apart).loc, None);

    let single: Tree = RelT::from(GenericRel::Distinct { from: ledger() });
    assert_eq!(board(&single).loc, Some(block("backend", &["vault"])));
}

#[test]
fn columns_are_those_of_the_children_merged() {
    let joined: Tree = RelT::from(GenericRel::Join {
        left: orders(),
        right: clients(),
        operator: JoinOperator::CrossJoin,
    });
    let expected =
        columns(&[("id", &["staff"]), ("total", &["staff"]), ("name", &["staff", "sales"])]);
    assert!(same_columns(&board(&joined).columns, &expected));
    assert_eq!(board(&joined).source, None);
    let context = joined.try_to_context().unwrap();
    assert!(same_columns(&context, &expected));
}

#[test]
fn dot_works_on_borrowed_metadata() {
    let left = meta(&[("a", &["x"])], Some("here"), Some(&["db", "l"]), &["x", "y"]);
    let right = meta(&[("b", &["y"])], Some("here"), Some(&["db", "r"]), &["y", "z"]);
    let on = ExprMeta { audience: labels(&["q"]) };
    let node = GenericRel::Join {
        left: &left,
        right: &right,
        operator: JoinOperator::LeftOuter(JoinConstraint::On(&on)),
    };
    let inner = TableMeta::to_inner_context(&node);
    assert!(same_columns(&inner, &columns(&[("a", &["x"]), ("b", &["y"])])));
    let derived = TableMeta::dot(node).unwrap();
    assert!(derived.same_as(&meta(
        &[("a", &["x"]), ("b", &["y"])],
        Some("here"),
        Some(&["db"]),
        &["y"]
    )));
}

#[test]
fn table_meta_from_columns() {
    let known = TableMeta::from(columns(&[("a", &["x"])])).unwrap();
    assert!(known.same_as(&meta(&[("a", &["x"])], None, None, &[])));
    assert!(same_columns(&known.to_context(), &columns(&[("a", &["x"])])));
    assert!(known.clone().same_as(&known));
    assert!(!known.same_as(&meta(&[("a", &["y"])], None, None, &[])));
}

#[test]
fn the_first_broken_child_gives_the_board() {
    let left: Tree = RelT::leaf(key(&["l"]), Err(ValidateError::TableNotFound(key(&["l"]))));
    let right: Tree = RelT::leaf(key(&["r"]), Err(ValidateError::TableNotFound(key(&["r"]))));
    let tree: Tree = RelT::from(GenericRel::Join {
        left,
        right,
        operator: JoinOperator::Inner(JoinConstraint::On(broken_expr("c", &["c"]))),
    });
    assert_eq!(tree.board.err(), Some(ValidateError::TableNotFound(key(&["l"]))));

    let right: Tree = RelT::leaf(key(&["r"]), Err(ValidateError::TableNotFound(key(&["r"]))));
    let tree: Tree = RelT::from(GenericRel::Join {
        left: orders(),
        right,
        operator: JoinOperator::Inner(JoinConstraint::On(broken_expr("c", &["c"]))),
    });
    assert_eq!(tree.board.err(), Some(ValidateError::TableNotFound(key(&["r"]))));

    let tree: Tree = RelT::from(GenericRel::Join {
        left: orders(),
        right: clients(),
        operator: JoinOperator::Inner(JoinConstraint::On(broken_expr("c", &["c"]))),
    });
    assert_eq!(tree.board.err(), Some(ValidateError::ColumnNotFound(key(&["c"]))));

    let tree: Tree = RelT::from(GenericRel::Aggregation {
        attributes: vec![expr("a", &[])],
        group_by: vec![
            ExprT { root: "g".to_string(), board: Err(ValidateError::Incompatible("g".to_string())) },
            broken_expr("h", &["h"]),
        ],
        from: orders(),
    });
    assert_eq!(tree.board.err(), Some(ValidateError::Incompatible("g".to_string())));
}

#[test]
fn from_wrapped_takes_shared_children() {
    let shared = std::sync::Arc::new(orders());
    let tree: Tree = RelT::from_wrapped(GenericRel::SetOperation {
        operator: SetOperator::Intersect,
        left: shared.clone(),
        right: shared,
    });
    assert!(board(&tree).same_as(&meta(
        &[("id", &["staff", "audit"]), ("total", &["staff"])],
        Some("warehouse"),
        Some(&["shop", "orders"]),
        &["staff", "audit"]
    )));
    let computed = Tree::board_of(&GenericRel::Distinct { from: std::sync::Arc::new(ledger()) });
    assert!(computed.unwrap().same_as(board(&ledger())));
}

fn catalog(tables: &[&Tree]) -> Context<TableMeta> {
    let mut context = Context::new();
    for table in tables {
        context.insert(table.table_key().unwrap().clone(), board(table).clone());
    }
    context
}

fn query() -> Tree {
    RelT::from(GenericRel::Limit {
        number_rows: expr("10", &[]),
        from: RelT::from(GenericRel::Projection {
            attributes: vec![expr("name", &["sales"]), expr("total", &["staff"])],
            from: RelT::from(GenericRel::Join {
                left: orders(),
                right: clients(),
                operator: JoinOperator::Inner(JoinConstraint::Using(vec![key(&["id"])])),
            }),
        }),
    })
}

#[test]
fn rebasing_against_what_the_tree_knows_changes_no_metadata() {
    let tree = query();
    let context = catalog(&[&orders(), &clients()]);
    let rebased: Tree = rebase(&context, &tree, &keep);
    assert!(board(&rebased).same_as(board(&tree)));

    let projection = rebased.children()[0];
    assert!(board(projection).same_as(board(tree.children()[0])));
    let join = projection.children()[0];
    assert!(board(join).same_as(board(tree.children()[0].children()[0])));
    assert!(board(join.children()[0]).same_as(board(&orders())));
    assert!(board(join.children()[1]).same_as(board(&clients())));

    let again: Tree = rebase(&context, &rebased, &keep);
    assert!(board(&again).same_as(board(&tree)));
}

#[test]
fn rebasing_gives_tables_what_the_context_holds() {
    let bare: Tree = RelT::from(GenericRel::Join {
        left: RelT::from(GenericRel::Table(key(&["shop", "orders"]))),
        right: RelT::from(GenericRel::Table(key(&["shop", "clients"]))),
        operator: JoinOperator::CrossJoin,
    });
    assert!(board(&bare).audience.same_as(&LabelSet::new()));
    let context = catalog(&[&orders(), &clients()]);
    let rebased: Tree = rebase(&context, &bare, &keep);
    assert!(board(rebased.children()[0]).same_as(board(&orders())));
    assert!(board(rebased.children()[1]).same_as(board(&clients())));
    assert!(board(&rebased).audience.same_as(&labels(&["staff"])));
    assert_eq!(board(&rebased).loc, Some(block("backend", &["warehouse"])));
    assert_eq!(board(&rebased).provenance, Some(key(&["shop"])));
}

#[test]
fn a_table_that_is_missing_breaks_its_ancestors_and_not_its_siblings() {
    let missing_key = key(&["shop", "missing"]);
    let ok_key = key(&["shop", "orders"]);
    let tree: Tree = RelT::from(GenericRel::Join {
        left: RelT::from(GenericRel::Table(missing_key.clone())),
        right: RelT::from(GenericRel::Table(ok_key.clone())),
        operator: JoinOperator::Inner(JoinConstraint::On(expr("true", &[]))),
    });
    let context = catalog(&[&orders()]);
    let rebased: Tree = rebase(&context, &tree, &keep);

    assert_eq!(rebased.board.as_ref().err(), Some(&ValidateError::TableNotFound(missing_key.clone())));
    let kids = rebased.children();
    assert_eq!(kids.len(), 2);
    assert_eq!(kids[0].table_key(), Some(&missing_key));
    assert_eq!(kids[0].board.as_ref().err(), Some(&ValidateError::TableNotFound(missing_key)));
    assert_eq!(kids[1].table_key(), Some(&ok_key));
    assert!(kids[1].board.is_ok());
    assert!(board(kids[1]).same_as(board(&orders())));
}

#[test]
fn a_table_that_was_broken_stays_broken() {
    let broken: Tree = RelT::leaf(
        key(&["shop", "orders"]),
        Err(ValidateError::Incompatible("schema".to_string())),
    );
    let context = catalog(&[&orders()]);
    let rebased: Tree = rebase(&context, &broken, &keep);
    assert_eq!(rebased.board.err(), Some(ValidateError::Incompatible("schema".to_string())));
}

#[test]
fn expressions_are_resolved_against_the_rebased_children() {
    let bare: Tree = RelT::from(GenericRel::Selection {
        from: RelT::from(GenericRel::Table(key(&["shop", "orders"]))),
        where_: broken_expr("total", &["total"]),
    });
    assert_eq!(bare.board.as_ref().err(), Some(&ValidateError::ColumnNotFound(key(&["total"]))));

    let resolve = |context: &Context<ExprMeta>, e: &Expr| -> Expr {
        let board = match context.get(&key(&[e.root.as_str()])) {
            Some(found) => Ok(found.clone()),
            None => Err(ValidateError::ColumnNotFound(key(&[e.root.as_str()]))),
        };
        ExprT { root: e.root.clone(), board }
    };
    let context = catalog(&[&orders()]);
    let rebased: Tree = rebase(&context, &bare, &resolve);
    assert!(rebased.board.is_ok());
    let resolved = rebased.expressions();
    assert_eq!(resolved.len(), 1);
    assert!(resolved[0].board.as_ref().unwrap().same_as(&ExprMeta { audience: labels(&["staff"]) }));

    let nowhere = catalog(&[]);
    let lost: Tree = rebase(&nowhere, &bare, &resolve);
    assert_eq!(
        lost.board.as_ref().err(),
        Some(&ValidateError::TableNotFound(key(&["shop", "orders"])))
    );
    assert_eq!(
        lost.expressions()[0].board.as_ref().err(),
        Some(&ValidateError::ColumnNotFound(key(&["total"])))
    );
}

#[test]
fn a_closure_rule_looks_tables_up_with_a_function() {
    let lookup = |known: &TableMeta, key: &ContextKey| -> ValidateResult<TableMeta> {
        if key.name() == "orders" {
            let mut found = known.clone();
            found.loc = Some(block("backend", &["warehouse"]));
            Ok(found)
        } else {
            Err(ValidateError::TableNotFound(key.clone()))
        }
    };
    let rule = RebaseClosure::new(lookup);
    let bare: Tree = RelT::from(GenericRel::Table(key(&["shop", "orders"])));
    let found: Option<Tree> = rule.rebase_at(&bare);
    let found = found.unwrap();
    assert_eq!(found.table_key(), Some(&key(&["shop", "orders"])));
    assert_eq!(board(&found).loc, Some(block("backend", &["warehouse"])));
    assert_eq!(board(&found).provenance, Some(key(&["shop", "orders"])));

    let interior: Tree = RelT::from(GenericRel::Distinct { from: bare });
    let none: Option<Tree> = rule.rebase_at(&interior);
    assert!(none.is_none());

    let tree: Tree = RelT::from(GenericRel::SetOperation {
        operator: SetOperator::Union,
        left: RelT::from(GenericRel::Table(key(&["shop", "orders"]))),
        right: RelT::from(GenericRel::Table(key(&["shop", "other"]))),
    });
    let rebased: Tree = rebase(&rule, &tree, &keep);
    assert!(rebased.children()[0].board.is_ok());
    assert_eq!(
        rebased.board.as_ref().err(),
        Some(&ValidateError::TableNotFound(key(&["shop", "other"])))
    );
}

#[test]
fn a_lookup_step_tells_tables_from_operators() {
    let valid = orders();
    match valid.lookup_step() {
        Lookup::Ask(found, known) => {
            assert_eq!(found, &key(&["shop", "orders"]));
            assert!(known.same_as(board(&orders())));
        }
        _ => panic!("a valid table is to be asked for"),
    }
    let broken: Tree = RelT::leaf(key(&["t"]), Err(ValidateError::TableNotFound(key(&["t"]))));
    match broken.lookup_step() {
        Lookup::Keep(found, error) => {
            assert_eq!(found, &key(&["t"]));
            assert_eq!(error, &ValidateError::TableNotFound(key(&["t"])));
        }
        _ => panic!("a broken table is to keep its error"),
    }
    let interior: Tree = RelT::from(GenericRel::Distinct { from: orders() });
    assert!(matches!(interior.lookup_step(), Lookup::Descend));
}

#[test]
fn remake_puts_a_tree_over_new_children() {
    let bare: Tree = RelT::from(GenericRel::Join {
        left: RelT::from(GenericRel::Table(key(&["shop", "orders"]))),
        right: RelT::from(GenericRel::Table(key(&["shop", "clients"]))),
        operator: JoinOperator::Inner(JoinConstraint::On(expr("c", &["staff"]))),
    });
    let kids = vec![std::sync::Arc::new(orders()), std::sync::Arc::new(ledger())];
    let remade: Tree = remake(&bare, kids, &keep);
    assert_eq!(remade.children().len(), 2);
    assert!(board(remade.children()[1]).same_as(board(&ledger())));
    assert!(board(&remade).audience.same_as(&labels(&["audit"])));
    assert_eq!(board(&remade).loc, None);
    assert_eq!(board(&remade).provenance, None);
    assert_eq!(remade.expressions()[0].root, "c");
}

#[test]
fn nothing_is_known_by_default() {
    let blank = TableMeta::default();
    assert!(blank.same_as(&meta(&[], None, None, &[])));
}

#[test]
fn a_clone_of_a_tree_has_the_same_parts() {
    let tree = query();
    let copy = tree.clone();
    assert!(board(&copy).same_as(board(&tree)));
    assert_eq!(copy.children().len(), 1);
    assert!(board(copy.children()[0]).same_as(board(tree.children()[0])));
    assert_eq!(copy.expressions()[0].root, "10");
}

#[test]
fn into_inner_hands_out_the_children_as_trees() {
    let tree: Tree = RelT::from(GenericRel::Join {
        left: orders(),
        right: clients(),
        operator: JoinOperator::Inner(JoinConstraint::On(expr("c", &["staff"]))),
    });
    match tree.into_inner() {
        GenericRel::Join { left, right, operator } => {
            assert!(board(&left).same_as(board(&orders())));
            assert!(board(&right).same_as(board(&clients())));
            assert_eq!(operator.expression().unwrap().root, "c");
        }
        _ => panic!("not a join"),
    }
    let leaf: Tree = orders();
    assert!(matches!(leaf.into_inner(), GenericRel::Table(_)));
}
