use worker::context::Context;
use worker::key::ContextKey;
use worker::label::{BlockType, LabelSet};
use worker::rel::{
    collect_results, map_items, reversed, GenericRel, JoinConstraint, JoinOperator, Order,
    SetOperator,
};

fn key(path: &[&str]) -> ContextKey {
    // `path` is outermost scope first; a key is built from its name outwards.
    let mut segments = path.iter().rev();
    let mut key = ContextKey::with_name(segments.next().unwrap());
    for segment in segments {
        key = key.and_prefix(segment);
    }
    key
}

fn block(kind: &str, labels: &[&str]) -> BlockType {
    BlockType::new(kind, labels.iter().map(|label| label.to_string()).collect())
}

fn labels(names: &[&str]) -> LabelSet {
    let mut set = LabelSet::new();
    for name in names {
        set.insert(block("resource", &["group", name]));
    }
    set
}

#[test]
fn a_key_is_its_name_and_its_scopes() {
    let k = ContextKey::with_name("col").and_prefix("tab").and_prefix("db");
    assert_eq!(k.name(), "col");
    assert_eq!(k.len(), 3);
    assert_eq!(k.segment(0), "col");
    assert_eq!(k.segment(1), "tab");
    assert_eq!(k.segment(2), "db");
    assert_eq!(k.path_segments(), vec!["db".to_string(), "tab".to_string(), "col".to_string()]);
    assert!(k.eq(&key(&["db", "tab", "col"])));
    assert!(!k.eq(&key(&["db", "tab"])));
    assert!(!k.eq(&key(&["db", "tab", "other"])));
    assert!(k.clone().eq(&k));
}

#[test]
fn common_is_the_greatest_common_prefix_of_paths() {
    let a = key(&["db", "tab", "a"]);
    let b = key(&["db", "tab", "b"]);
    let c = key(&["db", "other", "a"]);
    let d = key(&["elsewhere", "tab", "a"]);

    assert_eq!(ContextKey::common(&vec![&a, &b]), Some(key(&["db", "tab"])));
    assert_eq!(ContextKey::common(&vec![&a, &b, &c]), Some(key(&["db"])));
    assert_eq!(ContextKey::common(&vec![&a, &c]), Some(key(&["db"])));
    assert_eq!(ContextKey::common(&vec![&a, &d]), None);
    assert_eq!(ContextKey::common(&vec![&a, &b, &d]), None);
    assert_eq!(ContextKey::common(&vec![&a]), Some(key(&["db", "tab", "a"])));
    assert_eq!(ContextKey::common(&vec![&a, &a]), Some(key(&["db", "tab", "a"])));
    assert_eq!(ContextKey::common(&vec![]), None);
    // A key that is a prefix of another is what they share.
    let short = key(&["db"]);
    assert_eq!(ContextKey::common(&vec![&a, &short]), Some(key(&["db"])));
    assert_eq!(ContextKey::common(&vec![&short, &a]), Some(key(&["db"])));
}

#[test]
fn block_types_are_read_from_text() {
    assert_eq!(BlockType::parse("resource.group.wheel"), Some(block("resource", &["group", "wheel"])));
    assert_eq!(BlockType::parse("resource"), Some(block("resource", &[])));
    assert_eq!(BlockType::parse(""), None);
    assert_eq!(BlockType::parse("resource..wheel"), None);
    assert_eq!(BlockType::parse(".resource"), None);
    assert_eq!(BlockType::parse("resource."), None);
    assert_eq!(BlockType::parse("."), None);
}

#[test]
fn block_types_compare_by_kind_and_labels() {
    let a = block("resource", &["user", "root"]);
    assert!(a.eq(&block("resource", &["user", "root"])));
    assert!(!a.eq(&block("resource", &["user", "lambda"])));
    assert!(!a.eq(&block("backend", &["user", "root"])));
    assert!(!a.eq(&block("resource", &["user"])));
    assert!(a.clone().eq(&a));
    assert_eq!(a.labels(), &vec!["user".to_string(), "root".to_string()]);
}

#[test]
fn label_sets_are_sets() {
    let mut set = LabelSet::new();
    assert!(!set.contains(&block("resource", &["group", "a"])));
    set.insert(block("resource", &["group", "a"]));
    set.insert(block("resource", &["group", "b"]));
    set.insert(block("resource", &["group", "a"]));
    assert_eq!(set.members().len(), 2);
    assert!(set.contains(&block("resource", &["group", "a"])));
    assert!(set.contains(&block("resource", &["group", "b"])));
    assert!(!set.contains(&block("resource", &["group", "c"])));
    assert!(set.same_as(&labels(&["b", "a"])));
    assert!(!set.same_as(&labels(&["a"])));
    assert!(set.clone().same_as(&set));
}

#[test]
fn union_and_intersection_of_label_sets() {
    let ab = labels(&["a", "b"]);
    let bc = labels(&["b", "c"]);
    assert!(ab.union(&bc).same_as(&labels(&["a", "b", "c"])));
    assert!(ab.intersection(&bc).same_as(&labels(&["b"])));
    assert!(ab.intersection(&labels(&["c"])).same_as(&LabelSet::new()));
    assert!(ab.union(&LabelSet::new()).same_as(&ab));
    assert!(ab.intersection(&LabelSet::new()).same_as(&LabelSet::new()));
    assert!(labels(&["b"]).is_subset_of(&ab));
    assert!(!ab.is_subset_of(&bc));
    assert!(LabelSet::new().is_subset_of(&ab));
}

#[test]
fn a_context_maps_keys_in_the_order_of_insertion() {
    let mut context: Context<u32> = Context::new();
    assert_eq!(context.len(), 0);
    assert_eq!(context.get(&key(&["a"])), None);
    context.insert(key(&["a"]), 1);
    context.insert(key(&["t", "b"]), 2);
    context.insert(key(&["a"]), 3);
    assert_eq!(context.len(), 2);
    assert_eq!(context.get(&key(&["a"])), Some(&3));
    assert_eq!(context.get(&key(&["t", "b"])), Some(&2));
    assert_eq!(context.get(&key(&["b"])), None);
    assert_eq!(context.entries[0].0, key(&["a"]));
    assert_eq!(context.entries[1].0, key(&["t", "b"]));
}

#[test]
fn extend_puts_each_entry_in_turn() {
    let mut base: Context<u32> = Context::new();
    base.insert(key(&["a"]), 1);
    base.insert(key(&["b"]), 2);
    let mut more: Context<u32> = Context::new();
    more.insert(key(&["c"]), 3);
    more.insert(key(&["a"]), 4);
    more.insert(key(&["d"]), 5);
    base.extend(more);
    let entries: Vec<(String, u32)> =
        base.entries.iter().map(|(k, v)| (k.name().to_string(), *v)).collect();
    assert_eq!(
        entries,
        vec![
            ("a".to_string(), 4),
            ("b".to_string(), 2),
            ("c".to_string(), 3),
            ("d".to_string(), 5)
        ]
    );
}

#[test]
fn reversed_turns_a_list_round() {
    assert_eq!(reversed(vec![1, 2, 3]), vec![3, 2, 1]);
    assert_eq!(reversed(Vec::<u8>::new()), Vec::<u8>::new());
}

#[test]
fn map_items_keeps_the_order() {
    assert_eq!(map_items(&vec![1, 2, 3], &|x: &i32| x * 10), vec![10, 20, 30]);
}

#[test]
fn collect_results_stops_at_the_first_error() {
    let all: Vec<Result<u8, &str>> = vec![Ok(1), Ok(2), Ok(3)];
    assert_eq!(collect_results(all), Ok(vec![1, 2, 3]));
    let some: Vec<Result<u8, &str>> = vec![Ok(1), Err("first"), Ok(3), Err("second")];
    assert_eq!(collect_results(some), Err("first"));
    let none: Vec<Result<u8, &str>> = vec![];
    assert_eq!(collect_results(none), Ok(vec![]));
}

#[test]
fn join_constraint_maps_its_condition_only() {
    let double = |x: &u32| x * 2;
    assert_eq!(JoinConstraint::On(4).map_expressions(&double), JoinConstraint::On(8));
    let using: JoinConstraint<u32> = JoinConstraint::Using(vec![key(&["a"]), key(&["t", "b"])]);
    assert_eq!(
        using.map_expressions(&double),
        JoinConstraint::Using(vec![key(&["a"]), key(&["t", "b"])])
    );
    let natural: JoinConstraint<u32> = JoinConstraint::Natural;
    assert_eq!(natural.map_expressions(&double), JoinConstraint::Natural);
}

#[test]
fn join_constraint_collapses_its_condition() {
    let ok: JoinConstraint<Result<u32, String>> = JoinConstraint::On(Ok(1));
    assert_eq!(ok.into_result_expressions(), Ok(JoinConstraint::On(1)));
    let bad: JoinConstraint<Result<u32, String>> = JoinConstraint::On(Err("no".to_string()));
    assert_eq!(bad.into_result_expressions(), Err("no".to_string()));
    let using: JoinConstraint<Result<u32, String>> = JoinConstraint::Using(vec![key(&["a"])]);
    assert_eq!(using.into_result_expressions(), Ok(JoinConstraint::Using(vec![key(&["a"])])));
    let natural: JoinConstraint<Result<u32, String>> = JoinConstraint::Natural;
    assert_eq!(natural.into_result_expressions(), Ok(JoinConstraint::Natural));
}

#[test]
fn join_operator_maps_and_collapses_each_kind() {
    let double = |x: &u32| x * 2;
    assert_eq!(
        JoinOperator::Inner(JoinConstraint::On(1)).map_expressions(&double),
        JoinOperator::Inner(JoinConstraint::On(2))
    );
    assert_eq!(
        JoinOperator::LeftOuter(JoinConstraint::On(1)).map_expressions(&double),
        JoinOperator::LeftOuter(JoinConstraint::On(2))
    );
    assert_eq!(
        JoinOperator::RightOuter(JoinConstraint::On(1)).map_expressions(&double),
        JoinOperator::RightOuter(JoinConstraint::On(2))
    );
    assert_eq!(
        JoinOperator::FullOuter(JoinConstraint::On(1)).map_expressions(&double),
        JoinOperator::FullOuter(JoinConstraint::On(2))
    );
    let cross: JoinOperator<u32> = JoinOperator::CrossJoin;
    assert_eq!(cross.map_expressions(&double), JoinOperator::CrossJoin);

    let ok: JoinOperator<Result<u32, String>> = JoinOperator::LeftOuter(JoinConstraint::On(Ok(1)));
    assert_eq!(ok.into_result_expressions(), Ok(JoinOperator::LeftOuter(JoinConstraint::On(1))));
    let bad: JoinOperator<Result<u32, String>> =
        JoinOperator::FullOuter(JoinConstraint::On(Err("no".to_string())));
    assert_eq!(bad.into_result_expressions(), Err("no".to_string()));
    let cross: JoinOperator<Result<u32, String>> = JoinOperator::CrossJoin;
    assert_eq!(cross.into_result_expressions(), Ok(JoinOperator::CrossJoin));
}

fn every_node() -> Vec<GenericRel<u32, &'static str>> {
    vec![
        GenericRel::Aggregation { attributes: vec![1, 2], group_by: vec![3], from: "t" },
        GenericRel::Projection { attributes: vec![1, 2], from: "t" },
        GenericRel::Selection { from: "t", where_: 1 },
        GenericRel::Join {
            left: "l",
            right: "r",
            operator: JoinOperator::Inner(JoinConstraint::On(1)),
        },
        GenericRel::SetOperation { operator: SetOperator::Union, left: "l", right: "r" },
        GenericRel::Offset { offset: 1, from: "t" },
        GenericRel::Limit { number_rows: 1, from: "t" },
        GenericRel::OrderBy { order: vec![Order::Asc, Order::Desc], by: vec![1, 2], from: "t" },
        GenericRel::Distinct { from: "t" },
        GenericRel::WithAlias { from: "t", alias: "a".to_string() },
        GenericRel::Table(key(&["db", "t"])),
    ]
}

#[test]
fn map_expressions_replaces_every_expression_and_nothing_else() {
    let mapped: Vec<GenericRel<u32, &str>> =
        every_node().iter().map(|node| node.map_expressions(&|x: &u32| x + 10)).collect();
    let expected: Vec<GenericRel<u32, &str>> = vec![
        GenericRel::Aggregation { attributes: vec![11, 12], group_by: vec![13], from: "t" },
        GenericRel::Projection { attributes: vec![11, 12], from: "t" },
        GenericRel::Selection { from: "t", where_: 11 },
        GenericRel::Join {
            left: "l",
            right: "r",
            operator: JoinOperator::Inner(JoinConstraint::On(11)),
        },
        GenericRel::SetOperation { operator: SetOperator::Union, left: "l", right: "r" },
        GenericRel::Offset { offset: 11, from: "t" },
        GenericRel::Limit { number_rows: 11, from: "t" },
        GenericRel::OrderBy { order: vec![Order::Asc, Order::Desc], by: vec![11, 12], from: "t" },
        GenericRel::Distinct { from: "t" },
        GenericRel::WithAlias { from: "t", alias: "a".to_string() },
        GenericRel::Table(key(&["db", "t"])),
    ];
    assert_eq!(mapped, expected);
}

#[test]
fn map_replaces_every_child_and_nothing_else() {
    let mapped: Vec<GenericRel<u32, usize>> =
        every_node().iter().map(|node| node.map(&|c: &&str| c.len() + 1)).collect();
    let expected: Vec<GenericRel<u32, usize>> = vec![
        GenericRel::Aggregation { attributes: vec![1, 2], group_by: vec![3], from: 2 },
        GenericRel::Projection { attributes: vec![1, 2], from: 2 },
        GenericRel::Selection { from: 2, where_: 1 },
        GenericRel::Join { left: 2, right: 2, operator: JoinOperator::Inner(JoinConstraint::On(1)) },
        GenericRel::SetOperation { operator: SetOperator::Union, left: 2, right: 2 },
        GenericRel::Offset { offset: 1, from: 2 },
        GenericRel::Limit { number_rows: 1, from: 2 },
        GenericRel::OrderBy { order: vec![Order::Asc, Order::Desc], by: vec![1, 2], from: 2 },
        GenericRel::Distinct { from: 2 },
        GenericRel::WithAlias { from: 2, alias: "a".to_string() },
        GenericRel::Table(key(&["db", "t"])),
    ];
    assert_eq!(mapped, expected);
}

#[test]
fn map_owned_hands_children_over() {
    let node: GenericRel<u32, String> = GenericRel::Join {
        left: "l".to_string(),
        right: "r".to_string(),
        operator: JoinOperator::CrossJoin,
    };
    let mapped = node.map_owned(&|c: String| c + "!");
    assert_eq!(
        mapped,
        GenericRel::Join {
            left: "l!".to_string(),
            right: "r!".to_string(),
            operator: JoinOperator::CrossJoin
        }
    );
}

#[test]
fn expressions_and_children_come_in_the_order_of_the_fields() {
    let nodes = every_node();
    let exprs: Vec<Vec<u32>> =
        nodes.iter().map(|node| node.expressions().into_iter().copied().collect()).collect();
    assert_eq!(
        exprs,
        vec![
            vec![1, 2, 3],
            vec![1, 2],
            vec![1],
            vec![1],
            vec![],
            vec![1],
            vec![1],
            vec![1, 2],
            vec![],
            vec![],
            vec![]
        ]
    );
    let kids: Vec<Vec<&str>> =
        nodes.iter().map(|node| node.children().into_iter().copied().collect()).collect();
    assert_eq!(
        kids,
        vec![
            vec!["t"],
            vec!["t"],
            vec!["t"],
            vec!["l", "r"],
            vec!["l", "r"],
            vec!["t"],
            vec!["t"],
            vec!["t"],
            vec!["t"],
            vec!["t"],
            vec![]
        ]
    );
}

#[test]
fn rebuild_puts_new_parts_into_the_same_shape() {
    for node in every_node() {
        let exprs: Vec<u32> = node.expressions().into_iter().map(|e| e * 2).collect();
        let kids: Vec<String> = node.children().into_iter().map(|c| c.to_uppercase()).collect();
        let rebuilt = node.rebuild(exprs, kids);
        let expected = node.map_expressions(&|e: &u32| e * 2).map(&|c: &&str| c.to_uppercase());
        assert_eq!(rebuilt, expected);
    }
    let aggregation: GenericRel<u32, &str> =
        GenericRel::Aggregation { attributes: vec![1, 2], group_by: vec![3], from: "t" };
    assert_eq!(
        aggregation.rebuild(vec!['a', 'b', 'c'], vec![7u8]),
        GenericRel::Aggregation { attributes: vec!['a', 'b'], group_by: vec!['c'], from: 7u8 }
    );
}

#[test]
fn as_ref_borrows_every_part() {
    let node: GenericRel<u32, &str> = GenericRel::Selection { from: "t", where_: 1 };
    assert_eq!(node.as_ref(), GenericRel::Selection { from: &"t", where_: &1 });
}

#[test]
fn into_result_expressions_gives_the_first_error_in_the_order_of_the_fields() {
    let node: GenericRel<Result<u32, &str>, &str> = GenericRel::Aggregation {
        attributes: vec![Ok(1), Err("attribute")],
        group_by: vec![Err("group")],
        from: "t",
    };
    assert_eq!(node.into_result_expressions(), Err("attribute"));
    let node: GenericRel<Result<u32, &str>, &str> = GenericRel::Aggregation {
        attributes: vec![Ok(1), Ok(2)],
        group_by: vec![Ok(3), Err("group"), Err("later")],
        from: "t",
    };
    assert_eq!(node.into_result_expressions(), Err("group"));
    let node: GenericRel<Result<u32, &str>, &str> = GenericRel::Aggregation {
        attributes: vec![Ok(1), Ok(2)],
        group_by: vec![Ok(3)],
        from: "t",
    };
    assert_eq!(
        node.into_result_expressions(),
        Ok(GenericRel::Aggregation { attributes: vec![1, 2], group_by: vec![3], from: "t" })
    );
}

#[test]
fn into_result_expressions_covers_every_operator() {
    let nodes: Vec<GenericRel<Result<u32, String>, &str>> = every_node()
        .iter()
        .map(|node| node.map_expressions(&|e: &u32| Ok::<u32, String>(*e)))
        .collect();
    let collapsed: Vec<GenericRel<u32, &str>> =
        nodes.into_iter().map(|node| node.into_result_expressions().unwrap()).collect();
    assert_eq!(collapsed, every_node());

    let failing: Vec<Result<GenericRel<u32, &str>, String>> = every_node()
        .iter()
        .map(|node| {
            node.map_expressions(&|e: &u32| Err::<u32, String>(format!("e{}", e)))
                .into_result_expressions()
        })
        .collect();
    let errors: Vec<Option<String>> = failing.into_iter().map(|r| r.err()).collect();
    let e1 = Some("e1".to_string());
    assert_eq!(
        errors,
        vec![
            e1.clone(),
            e1.clone(),
            e1.clone(),
            e1.clone(),
            None,
            e1.clone(),
            e1.clone(),
            e1.clone(),
            None,
            None,
            None
        ]
    );
}

#[test]
fn into_result_gives_the_first_error_left_before_right() {
    let both: GenericRel<u32, Result<&str, &str>> = GenericRel::Join {
        left: Err("left"),
        right: Err("right"),
        operator: JoinOperator::CrossJoin,
    };
    assert_eq!(both.into_result(), Err("left"));
    let right: GenericRel<u32, Result<&str, &str>> = GenericRel::SetOperation {
        operator: SetOperator::Except,
        left: Ok("l"),
        right: Err("right"),
    };
    assert_eq!(right.into_result(), Err("right"));
    let fine: GenericRel<u32, Result<&str, &str>> =
        GenericRel::SetOperation { operator: SetOperator::Intersect, left: Ok("l"), right: Ok("r") };
    assert_eq!(
        fine.into_result(),
        Ok(GenericRel::SetOperation { operator: SetOperator::Intersect, left: "l", right: "r" })
    );
    let nodes: Vec<GenericRel<u32, Result<&str, String>>> =
        every_node().iter().map(|node| node.map(&|c: &&str| Ok::<&str, String>(*c))).collect();
    let collapsed: Vec<GenericRel<u32, &str>> =
        nodes.into_iter().map(|node| node.into_result().unwrap()).collect();
    assert_eq!(collapsed, every_node());
}

#[test]
fn clones_of_join_operators_are_equal() {
    let operator = JoinOperator::RightOuter(JoinConstraint::<u32>::Using(vec![key(&["a"])]));
    assert_eq!(operator.clone(), operator);
    let on = JoinConstraint::On(3u32);
    assert_eq!(on.clone(), on);
    assert_eq!(on.expression(), Some(&3));
    assert_eq!(operator.expression(), None);
    assert_eq!(on.with_expression(Some('x')), JoinConstraint::On('x'));
    assert_eq!(
        operator.with_expression::<char>(None),
        JoinOperator::RightOuter(JoinConstraint::Using(vec![key(&["a"])]))
    );
}

#[test]
fn a_clone_of_a_node_is_equal_to_it() {
    for node in every_node() {
        assert_eq!(node.clone(), node);
    }
}
