//! Representations: what a validated node knows of itself, and the rule
//! that derives it from what its parts know.

use vstd::prelude::*;
use crate::context::{merged, Context, Entries};
use crate::error::{board_view, ValidateErrorView, ValidateResult};
use crate::key::{is_common, keys_view, ContextKey};
use crate::label::{BlockType, BlockTypeView, LabelSet};
use crate::rel::{GenericRel, NodeView, Shape};

verus! {

/// A node whose expressions and children are metadata, as plain values.
pub open spec fn node_views<E: View, R: View>(node: NodeView<&E, &R>) -> NodeView<E::V, R::V> {
    NodeView {
        shape: node.shape,
        exprs: Seq::new(node.exprs.len(), |i: int| node.exprs[i]@),
        kids: Seq::new(node.kids.len(), |i: int| node.kids[i]@),
    }
}

/// A representation of the algebra: the metadata that a relation carries,
/// the metadata that its expressions carry, and the rule that derives the
/// first for a node from those of its children and of its expressions.
pub trait Repr: Sized + View {
    /// What an expression knows of itself.
    type ExprRepr: View;

    /// The metadata of a node, given those of its expressions and children.
    spec fn dot_spec(node: NodeView<<Self::ExprRepr as View>::V, Self::V>) -> Result<
        Self::V,
        ValidateErrorView,
    >;

    /// The columns that the expressions of a node see: those of its children.
    spec fn inner_context_spec(kids: Seq<Self::V>) -> Entries<<Self::ExprRepr as View>::V>;

    /// Derives the metadata of a node from those of its expressions and children.
    fn dot(node: GenericRel<&Self::ExprRepr, &Self>) -> (board: ValidateResult<Self>)
        ensures
            board_view(board) == Self::dot_spec(node_views(node@)),
    ;

    /// Gathers the columns that the expressions of a node see.
    fn to_inner_context<E>(root: &GenericRel<&E, &Self>) -> (context: Context<Self::ExprRepr>)
        ensures
            context@ == Self::inner_context_spec(
                Seq::new(root@.kids.len(), |i: int| root@.kids[i]@),
            ),
    ;
}

/// What is known of an expression: who may see its values.
#[derive(Debug)]
pub struct ExprMeta {
    pub audience: LabelSet,
}

/// The metadata of an expression as plain values.
pub struct ExprMetaView {
    pub audience: Set<BlockTypeView>,
}

impl View for ExprMeta {
    type V = ExprMetaView;

    open spec fn view(&self) -> ExprMetaView {
        ExprMetaView { audience: self.audience@ }
    }
}

impl Clone for ExprMeta {
    fn clone(&self) -> (meta: ExprMeta)
        ensures
            meta@ == self@,
    {
        ExprMeta { audience: self.audience.clone() }
    }
}

/// What is known of a relation.
#[derive(Debug)]
pub struct TableMeta {
    /// The columns, each with what is known of it.
    pub columns: Context<ExprMeta>,
    /// Where the rows are held, where that is one place.
    pub loc: Option<BlockType>,
    /// The key under which the relation was found.
    pub source: Option<ContextKey>,
    /// The key of the relation that the rows come from, or what the keys
    /// of the relations that they come from have in common.
    pub provenance: Option<ContextKey>,
    /// Who may see the rows.
    pub audience: LabelSet,
}

/// The metadata of a relation as plain values.
pub struct TableMetaView {
    pub columns: Entries<ExprMetaView>,
    pub loc: Option<BlockTypeView>,
    pub source: Option<Seq<Seq<char>>>,
    pub provenance: Option<Seq<Seq<char>>>,
    pub audience: Set<BlockTypeView>,
}

/// An optional value as its view.
pub open spec fn option_view<T: View>(o: Option<T>) -> Option<T::V> {
    match o {
        Some(t) => Some(t@),
        None => None,
    }
}

impl View for TableMeta {
    type V = TableMetaView;

    open spec fn view(&self) -> TableMetaView {
        TableMetaView {
            columns: self.columns@,
            loc: option_view(self.loc),
            source: option_view(self.source),
            provenance: option_view(self.provenance),
            audience: self.audience@,
        }
    }
}

/// A copy of the columns.
pub fn clone_columns(columns: &Context<ExprMeta>) -> (copy: Context<ExprMeta>)
    ensures
        copy@ == columns@,
{
    let mut entries: Vec<(ContextKey, ExprMeta)> = Vec::new();
    let mut i: usize = 0;
    while i < columns.entries.len()
        invariant
            i <= columns.entries.len(),
            entries@.len() == i,
            forall|j: int|
                0 <= j < i ==> (#[trigger] entries@[j]).0@ == columns.entries@[j].0@ && entries@[j].1@
                    == columns.entries@[j].1@,
        decreases columns.entries.len() - i,
    {
        entries.push((columns.entries[i].0.clone(), columns.entries[i].1.clone()));
        i += 1;
    }
    let copy = Context { entries };
    assert(copy@ =~= columns@);
    copy
}

/// A copy of an optional key.
pub fn clone_key(key: &Option<ContextKey>) -> (copy: Option<ContextKey>)
    ensures
        option_view(copy) == option_view(*key),
{
    match key {
        Some(key) => Some(key.clone()),
        None => None,
    }
}

/// A copy of an optional block type.
pub fn clone_block(block: &Option<BlockType>) -> (copy: Option<BlockType>)
    ensures
        option_view(copy) == option_view(*block),
{
    match block {
        Some(block) => Some(block.clone()),
        None => None,
    }
}

impl Default for TableMeta {
    /// The metadata of a relation of which nothing is known.
    fn default() -> (meta: TableMeta)
        ensures
            meta@ == (TableMetaView {
                columns: Seq::empty(),
                loc: None,
                source: None,
                provenance: None,
                audience: Set::empty(),
            }),
    {
        TableMeta {
            columns: Context::new(),
            loc: None,
            source: None,
            provenance: None,
            audience: LabelSet::new(),
        }
    }
}

impl Clone for TableMeta {
    fn clone(&self) -> (meta: TableMeta)
        ensures
            meta@ == self@,
    {
        TableMeta {
            columns: clone_columns(&self.columns),
            loc: clone_block(&self.loc),
            source: clone_key(&self.source),
            provenance: clone_key(&self.provenance),
            audience: self.audience.clone(),
        }
    }
}

/// The columns of the children, merged child after child.
pub open spec fn inner_columns(kids: Seq<TableMetaView>) -> Entries<ExprMetaView>
    decreases kids.len(),
{
    if kids.len() == 0 {
        Seq::empty()
    } else {
        merged(inner_columns(kids.drop_last()), kids.last().columns)
    }
}

/// The one location on which all children agree. There is none where a
/// child has no location, where two children differ, or without children.
pub open spec fn common_location(kids: Seq<TableMetaView>) -> Option<BlockTypeView> {
    if kids.len() > 0 && kids[0].loc.is_some() && forall|i: int|
        0 <= i < kids.len() ==> (#[trigger] kids[i]).loc == kids[0].loc {
        kids[0].loc
    } else {
        None
    }
}

/// The provenance keys that the children carry, in the order of the children.
pub open spec fn provenances(kids: Seq<TableMetaView>) -> Seq<Seq<Seq<char>>>
    decreases kids.len(),
{
    if kids.len() == 0 {
        Seq::empty()
    } else {
        match kids.last().provenance {
            Some(key) => provenances(kids.drop_last()).push(key),
            None => provenances(kids.drop_last()),
        }
    }
}

/// Whether `key` is the longest key that ends all of `keys`: read as paths,
/// their greatest common prefix.
pub open spec fn is_greatest_common(key: Seq<Seq<char>>, keys: Seq<Seq<Seq<char>>>) -> bool {
    &&& is_common(key, keys)
    &&& forall|q: Seq<Seq<char>>| is_common(q, keys) ==> q.len() <= key.len()
}

/// What the keys have in common: their greatest common prefix as paths,
/// where there are keys and that prefix is not empty.
pub open spec fn shared_key(keys: Seq<Seq<Seq<char>>>) -> Option<Seq<Seq<char>>> {
    if keys.len() > 0 && exists|k: Seq<Seq<char>>| k.len() > 0 && is_greatest_common(k, keys) {
        Some(choose|k: Seq<Seq<char>>| k.len() > 0 && is_greatest_common(k, keys))
    } else {
        None
    }
}

/// The labels that are in one of the sets at least.
pub open spec fn union_all(sets: Seq<Set<BlockTypeView>>) -> Set<BlockTypeView> {
    Set::new(|l: BlockTypeView| exists|i: int| 0 <= i < sets.len() && (#[trigger] sets[i]).contains(l))
}

/// The labels that are in every one of the sets; none where there is no set.
pub open spec fn intersect_all(sets: Seq<Set<BlockTypeView>>) -> Set<BlockTypeView> {
    Set::new(
        |l: BlockTypeView|
            sets.len() > 0 && forall|i: int| 0 <= i < sets.len() ==> (#[trigger] sets[i]).contains(l),
    )
}

/// The audiences of the expressions, in order.
pub open spec fn expr_audiences(exprs: Seq<ExprMetaView>) -> Seq<Set<BlockTypeView>> {
    Seq::new(exprs.len(), |i: int| exprs[i].audience)
}

/// The audiences of the children, in order.
pub open spec fn kid_audiences(kids: Seq<TableMetaView>) -> Seq<Set<BlockTypeView>> {
    Seq::new(kids.len(), |i: int| kids[i].audience)
}

/// The metadata of a node under the table representation.
///
/// The columns are those of the children, merged. The location is the one
/// on which the children agree. A table's provenance is its own key; that
/// of another node is what the provenance keys of its children share. A
/// projection is seen by whoever may see one of its attributes; any other
/// node by those who may see every child.
pub open spec fn table_dot(node: NodeView<ExprMetaView, TableMetaView>) -> TableMetaView {
    TableMetaView {
        columns: inner_columns(node.kids),
        loc: common_location(node.kids),
        source: None,
        provenance: match node.shape {
            Shape::Table(key) => Some(key),
            _ => shared_key(provenances(node.kids)),
        },
        audience: match node.shape {
            Shape::Projection => union_all(expr_audiences(node.exprs)),
            _ => intersect_all(kid_audiences(node.kids)),
        },
    }
}

/// The views of a list of borrowed table metadata.
pub open spec fn metas_view(kids: Seq<&TableMeta>) -> Seq<TableMetaView> {
    Seq::new(kids.len(), |i: int| kids[i]@)
}

/// The views of a list of borrowed expression metadata.
pub open spec fn expr_metas_view(exprs: Seq<&ExprMeta>) -> Seq<ExprMetaView> {
    Seq::new(exprs.len(), |i: int| exprs[i]@)
}

/// A key that is the greatest common one of some keys and is not empty is
/// what they share.
pub proof fn lemma_shared_key_some(keys: Seq<Seq<Seq<char>>>, k: Seq<Seq<char>>)
    requires
        keys.len() > 0,
        k.len() > 0,
        is_greatest_common(k, keys),
    ensures
        shared_key(keys) == Some(k),
{
    let g = choose|g: Seq<Seq<char>>| g.len() > 0 && is_greatest_common(g, keys);
    assert(g.len() == k.len());
    assert(g.is_suffix_of(keys[0]));
    assert(k.is_suffix_of(keys[0]));
    assert(g =~= k);
}

/// Keys of which every common one is empty share nothing.
pub proof fn lemma_shared_key_none(keys: Seq<Seq<Seq<char>>>)
    requires
        keys.len() == 0 || forall|q: Seq<Seq<char>>| is_common(q, keys) ==> q.len() == 0,
    ensures
        shared_key(keys).is_none(),
{
}

/// The columns of the children, merged child after child.
fn merge_columns(kids: &Vec<&TableMeta>) -> (columns: Context<ExprMeta>)
    ensures
        columns@ == inner_columns(metas_view(kids@)),
{
    let ghost kv = metas_view(kids@);
    let mut columns: Context<ExprMeta> = Context::new();
    let mut i: usize = 0;
    assert(kv.take(0) =~= Seq::<TableMetaView>::empty());
    while i < kids.len()
        invariant
            i <= kids.len(),
            kv == metas_view(kids@),
            columns@ == inner_columns(kv.take(i as int)),
        decreases kids.len() - i,
    {
        proof {
            assert(kv.take(i + 1).drop_last() =~= kv.take(i as int));
            assert(kv.take(i + 1).last() == kids@[i as int]@);
        }
        columns.extend(clone_columns(&kids[i].columns));
        i += 1;
    }
    assert(kv.take(i as int) =~= kv);
    columns
}

/// The one location on which all children agree.
fn agree_location(kids: &Vec<&TableMeta>) -> (loc: Option<BlockType>)
    ensures
        option_view(loc) == common_location(metas_view(kids@)),
{
    let ghost kv = metas_view(kids@);
    if kids.len() == 0 {
        return None;
    }
    match &kids[0].loc {
        None => None,
        Some(first) => {
            let mut i: usize = 1;
            while i < kids.len()
                invariant
                    1 <= i <= kids.len(),
                    kv == metas_view(kids@),
                    kids@[0].loc == Some(*first),
                    forall|j: int| 0 <= j < i ==> (#[trigger] kv[j]).loc == kv[0].loc,
                decreases kids.len() - i,
            {
                match &kids[i].loc {
                    None => {
                        assert(kv[i as int].loc != kv[0].loc);
                        return None;
                    },
                    Some(other) => {
                        if !other.eq(first) {
                            assert(kv[i as int].loc != kv[0].loc);
                            return None;
                        }
                    },
                }
                i += 1;
            }
            Some(first.clone())
        },
    }
}

/// What the provenance keys of the children share.
fn shared_provenance(kids: &Vec<&TableMeta>) -> (key: Option<ContextKey>)
    ensures
        option_view(key) == shared_key(provenances(metas_view(kids@))),
{
    let ghost kv = metas_view(kids@);
    let mut present: Vec<&ContextKey> = Vec::new();
    let mut i: usize = 0;
    assert(kv.take(0) =~= Seq::<TableMetaView>::empty());
    assert(keys_view(present@) =~= provenances(kv.take(0)));
    while i < kids.len()
        invariant
            i <= kids.len(),
            kv == metas_view(kids@),
            keys_view(present@) == provenances(kv.take(i as int)),
        decreases kids.len() - i,
    {
        let ghost before = present@;
        proof {
            assert(kv.take(i + 1).drop_last() =~= kv.take(i as int));
            assert(kv.take(i + 1).last() == kids@[i as int]@);
        }
        match &kids[i].provenance {
            Some(key) => {
                present.push(key);
                assert(keys_view(present@) =~= keys_view(before).push(key@));
            },
            None => {},
        }
        i += 1;
    }
    assert(kv.take(i as int) =~= kv);
    let key = ContextKey::common(&present);
    proof {
        let keys = keys_view(present@);
        if key.is_some() {
            lemma_shared_key_some(keys, key.unwrap()@);
        } else {
            lemma_shared_key_none(keys);
        }
    }
    key
}

/// The labels that may see one of the expressions at least.
fn union_audiences(exprs: &Vec<&ExprMeta>) -> (audience: LabelSet)
    ensures
        audience@ == union_all(expr_audiences(expr_metas_view(exprs@))),
{
    let ghost sets = expr_audiences(expr_metas_view(exprs@));
    let mut audience = LabelSet::new();
    let mut i: usize = 0;
    while i < exprs.len()
        invariant
            i <= exprs.len(),
            sets == expr_audiences(expr_metas_view(exprs@)),
            audience@ == union_all(sets.take(i as int)),
        decreases exprs.len() - i,
    {
        let ghost before = audience@;
        audience = audience.union(&exprs[i].audience);
        proof {
            assert(sets[i as int] == exprs@[i as int].audience@);
            assert forall|l: BlockTypeView|
                union_all(sets.take(i + 1)).contains(l) <==> (before.contains(l) || sets[i as int].contains(
                    l,
                )) by {
                if union_all(sets.take(i + 1)).contains(l) {
                    let k = choose|k: int|
                        0 <= k < sets.take(i + 1).len() && (#[trigger] sets.take(i + 1)[k]).contains(l);
                    if k < i {
                        assert(sets.take(i as int)[k].contains(l));
                    }
                }
                if before.contains(l) {
                    let k = choose|k: int|
                        0 <= k < sets.take(i as int).len() && (#[trigger] sets.take(i as int)[k]).contains(
                            l,
                        );
                    assert(sets.take(i + 1)[k].contains(l));
                }
                if sets[i as int].contains(l) {
                    assert(sets.take(i + 1)[i as int].contains(l));
                }
            }
            assert(audience@ =~= union_all(sets.take(i + 1)));
        }
        i += 1;
    }
    assert(sets.take(i as int) =~= sets);
    audience
}

/// The labels that may see every child; none where there is no child.
fn intersect_audiences(kids: &Vec<&TableMeta>) -> (audience: LabelSet)
    ensures
        audience@ == intersect_all(kid_audiences(metas_view(kids@))),
{
    let ghost sets = kid_audiences(metas_view(kids@));
    if kids.len() == 0 {
        let audience = LabelSet::new();
        assert(audience@ =~= intersect_all(sets));
        return audience;
    }
    let mut audience = kids[0].audience.clone();
    proof {
        assert(sets[0] == kids@[0].audience@);
        assert forall|l: BlockTypeView| intersect_all(sets.take(1)).contains(l) <==> sets[0].contains(
            l,
        ) by {
            if intersect_all(sets.take(1)).contains(l) {
                assert(sets.take(1)[0].contains(l));
            }
        }
        assert(audience@ =~= intersect_all(sets.take(1)));
    }
    let mut i: usize = 1;
    while i < kids.len()
        invariant
            1 <= i <= kids.len(),
            sets == kid_audiences(metas_view(kids@)),
            audience@ == intersect_all(sets.take(i as int)),
        decreases kids.len() - i,
    {
        let ghost before = audience@;
        audience = audience.intersection(&kids[i].audience);
        proof {
            assert(sets[i as int] == kids@[i as int].audience@);
            assert forall|l: BlockTypeView|
                intersect_all(sets.take(i + 1)).contains(l) <==> (before.contains(l)
                    && sets[i as int].contains(l)) by {
                if intersect_all(sets.take(i + 1)).contains(l) {
                    assert(sets.take(i + 1)[i as int].contains(l));
                    assert forall|k: int| 0 <= k < i implies (#[trigger] sets.take(i as int)[k]).contains(
                        l,
                    ) by {
                        assert(sets.take(i + 1)[k].contains(l));
                    }
                }
                if before.contains(l) && sets[i as int].contains(l) {
                    assert forall|k: int| 0 <= k < i + 1 implies (#[trigger] sets.take(i + 1)[k]).contains(
                        l,
                    ) by {
                        if k < i {
                            assert(sets.take(i as int)[k].contains(l));
                        }
                    }
                }
            }
            assert(audience@ =~= intersect_all(sets.take(i + 1)));
        }
        i += 1;
    }
    assert(sets.take(i as int) =~= sets);
    audience
}

/// Borrows through a list of borrows of borrows.
fn flatten_borrows<'a, T>(items: &Vec<&&'a T>) -> (out: Vec<&'a T>)
    ensures
        out@.len() == items@.len(),
        forall|i: int| 0 <= i < items@.len() ==> *#[trigger] out@[i] == **items@[i],
{
    let mut out: Vec<&'a T> = Vec::new();
    let mut i: usize = 0;
    while i < items.len()
        invariant
            i <= items.len(),
            out@.len() == i,
            forall|j: int| 0 <= j < i ==> *#[trigger] out@[j] == **items@[j],
        decreases items.len() - i,
    {
        out.push(*items[i]);
        i += 1;
    }
    out
}

impl Repr for TableMeta {
    type ExprRepr = ExprMeta;

    open spec fn dot_spec(node: NodeView<ExprMetaView, TableMetaView>) -> Result<
        TableMetaView,
        ValidateErrorView,
    > {
        Ok(table_dot(node))
    }

    open spec fn inner_context_spec(kids: Seq<TableMetaView>) -> Entries<ExprMetaView> {
        inner_columns(kids)
    }

    fn dot(node: GenericRel<&ExprMeta, &TableMeta>) -> (board: ValidateResult<TableMeta>) {
        let ghost view = node_views(node@);
        let kids = flatten_borrows(&node.children());
        let exprs = flatten_borrows(&node.expressions());
        proof {
            assert(metas_view(kids@) =~= view.kids);
            assert(expr_metas_view(exprs@) =~= view.exprs);
        }
        let columns = merge_columns(&kids);
        let loc = agree_location(&kids);
        let provenance = match &node {
            GenericRel::Table(context_key) => Some(context_key.clone()),
            _ => shared_provenance(&kids),
        };
        let audience = match &node {
            GenericRel::Projection { .. } => union_audiences(&exprs),
            _ => intersect_audiences(&kids),
        };
        Ok(TableMeta { columns, loc, source: None, provenance, audience })
    }

    fn to_inner_context<E>(root: &GenericRel<&E, &TableMeta>) -> (context: Context<ExprMeta>) {
        let kids = flatten_borrows(&root.children());
        proof {
            assert(metas_view(kids@) =~= Seq::new(root@.kids.len(), |i: int| root@.kids[i]@));
        }
        merge_columns(&kids)
    }
}

impl TableMeta {
    /// The metadata of a relation of which only the columns are known.
    pub fn from(ctx: Context<ExprMeta>) -> (board: ValidateResult<TableMeta>)
        ensures
            board.is_ok(),
            board.unwrap()@ == (TableMetaView {
                columns: ctx@,
                loc: None,
                source: None,
                provenance: None,
                audience: Set::empty(),
            }),
    {
        let blank = TableMeta::default();
        Ok(
            TableMeta {
                columns: ctx,
                loc: blank.loc,
                source: blank.source,
                provenance: blank.provenance,
                audience: blank.audience,
            },
        )
    }

    /// The columns of the relation, as a context of their own.
    pub fn to_context(&self) -> (context: Context<ExprMeta>)
        ensures
            context@ == self@.columns,
    {
        clone_columns(&self.columns)
    }
}

/// The last `n` items of a sequence.
pub open spec fn tail_of<T>(a: Seq<T>, n: int) -> Seq<T> {
    a.subrange(a.len() - n, a.len() as int)
}

/// Among the keys that end all of `keys` there is a longest one, where none
/// of them is longer than `n`.
proof fn lemma_greatest_exists(keys: Seq<Seq<Seq<char>>>, n: nat) -> (k: Seq<Seq<char>>)
    requires
        keys.len() > 0,
        n <= keys[0].len(),
        forall|q: Seq<Seq<char>>| is_common(q, keys) ==> q.len() <= n,
    ensures
        is_greatest_common(k, keys),
    decreases n,
{
    let t = tail_of(keys[0], n as int);
    if is_common(t, keys) {
        t
    } else {
        if n == 0 {
            assert forall|i: int| 0 <= i < keys.len() implies t.is_suffix_of(#[trigger] keys[i]) by {
                assert(t =~= keys[i].subrange(keys[i].len() as int, keys[i].len() as int));
            }
            t
        } else {
            assert forall|q: Seq<Seq<char>>| is_common(q, keys) implies q.len() <= n - 1 by {
                if q.len() == n {
                    assert(q.is_suffix_of(keys[0]));
                    assert(q =~= t);
                }
            }
            lemma_greatest_exists(keys, (n - 1) as nat)
        }
    }
}

/// What keys share is the longest key that ends all of them, and they
/// share nothing exactly where there is no key or only the empty key ends
/// them all.
pub proof fn lemma_shared_key(keys: Seq<Seq<Seq<char>>>)
    ensures
        match shared_key(keys) {
            Some(k) => keys.len() > 0 && k.len() > 0 && is_greatest_common(k, keys),
            None => keys.len() == 0 || forall|q: Seq<Seq<char>>|
                is_common(q, keys) ==> q.len() == 0,
        },
{
    if keys.len() > 0 {
        assert forall|q: Seq<Seq<char>>| is_common(q, keys) implies q.len() <= keys[0].len() by {
            assert(q.is_suffix_of(keys[0]));
        }
        let k = lemma_greatest_exists(keys, keys[0].len());
        if shared_key(keys).is_none() {
            assert(k.len() == 0);
        }
    }
}

/// A sequence ends another exactly when, both read backwards, it begins it.
pub proof fn lemma_reverse_prefix<T>(p: Seq<T>, a: Seq<T>)
    ensures
        p.is_suffix_of(a) <==> p.reverse().is_prefix_of(a.reverse()),
{
    let rp = p.reverse();
    let ra = a.reverse();
    if p.is_suffix_of(a) {
        let d = a.len() - p.len();
        assert forall|i: int| 0 <= i < rp.len() implies rp[i] == ra.subrange(0, rp.len() as int)[i] by {
            assert(a.subrange(d, a.len() as int)[p.len() - 1 - i] == a[a.len() - 1 - i]);
        }
        assert(rp =~= ra.subrange(0, rp.len() as int));
    }
    if rp.is_prefix_of(ra) {
        let d = a.len() - p.len();
        assert forall|i: int| 0 <= i < p.len() implies p[i] == a.subrange(d, a.len() as int)[i] by {
            let t = p.len() - 1 - i;
            assert(rp[t] == p[i]);
            assert(ra.subrange(0, rp.len() as int)[t] == ra[t]);
            assert(ra[t] == a[a.len() - 1 - t]);
        }
        assert(p =~= a.subrange(d, a.len() as int));
    }
}

/// Whether `path` begins the path of every one of `keys`.
pub open spec fn is_common_prefix(path: Seq<Seq<char>>, keys: Seq<Seq<Seq<char>>>) -> bool {
    forall|i: int| 0 <= i < keys.len() ==> path.is_prefix_of((#[trigger] keys[i]).reverse())
}

/// A key ends all of `keys` exactly when its path begins all their paths.
pub proof fn lemma_common_is_prefix(key: Seq<Seq<char>>, keys: Seq<Seq<Seq<char>>>)
    ensures
        is_common(key, keys) <==> is_common_prefix(key.reverse(), keys),
{
    if is_common(key, keys) {
        assert forall|i: int| 0 <= i < keys.len() implies key.reverse().is_prefix_of(
            (#[trigger] keys[i]).reverse(),
        ) by {
            lemma_reverse_prefix(key, keys[i]);
        }
    }
    if is_common_prefix(key.reverse(), keys) {
        assert forall|i: int| 0 <= i < keys.len() implies key.is_suffix_of(#[trigger] keys[i]) by {
            lemma_reverse_prefix(key, keys[i]);
        }
    }
}

/// The audience of a node that is not a projection holds nobody who may
/// not see each of its children: audiences only narrow on the way up.
pub proof fn law_audience_narrows(node: NodeView<ExprMetaView, TableMetaView>, child: int)
    requires
        node.shape != Shape::Projection,
        0 <= child < node.kids.len(),
    ensures
        table_dot(node).audience.subset_of(node.kids[child].audience),
{
    let sets = kid_audiences(node.kids);
    assert forall|l: BlockTypeView| intersect_all(sets).contains(l) implies node.kids[child].audience.contains(
        l,
    ) by {
        assert(sets[child].contains(l));
    }
}

/// The audience of a projection is made of the audiences of its
/// attributes: a label may see it exactly when it may see one of them,
/// whoever may see the relation that it projects from.
pub proof fn law_projection_audience(
    node: NodeView<ExprMetaView, TableMetaView>,
    other_kids: Seq<TableMetaView>,
)
    requires
        node.shape == Shape::Projection,
    ensures
        forall|l: BlockTypeView|
            table_dot(node).audience.contains(l) <==> exists|i: int|
                0 <= i < node.exprs.len() && (#[trigger] node.exprs[i]).audience.contains(l),
        table_dot(NodeView { shape: node.shape, exprs: node.exprs, kids: other_kids }).audience
            == table_dot(node).audience,
{
    let sets = expr_audiences(node.exprs);
    assert forall|l: BlockTypeView| table_dot(node).audience.contains(l) implies exists|i: int|
        0 <= i < node.exprs.len() && (#[trigger] node.exprs[i]).audience.contains(l) by {
        let i = choose|i: int| 0 <= i < sets.len() && (#[trigger] sets[i]).contains(l);
        assert(node.exprs[i].audience.contains(l));
    }
    assert forall|l: BlockTypeView|
        (exists|i: int| 0 <= i < node.exprs.len() && (#[trigger] node.exprs[i]).audience.contains(l))
        implies table_dot(node).audience.contains(l) by {
        let i = choose|i: int| 0 <= i < node.exprs.len() && (#[trigger] node.exprs[i]).audience.contains(l);
        assert(sets[i].contains(l));
    }
}

/// The provenance of a table is its own key. That of any other node is the
/// key whose path is the greatest common prefix of the paths of the
/// provenance keys that its children carry; it has none where no child
/// carries a key or the paths have no first segment in common.
pub proof fn law_provenance(node: NodeView<ExprMetaView, TableMetaView>)
    ensures
        node.shape matches Shape::Table(key) ==> table_dot(node).provenance == Some(key),
        !(node.shape is Table) ==> match table_dot(node).provenance {
            Some(p) => {
                &&& p.len() > 0
                &&& is_common_prefix(p.reverse(), provenances(node.kids))
                &&& forall|q: Seq<Seq<char>>|
                    is_common_prefix(q, provenances(node.kids)) ==> q.len() <= p.len()
            },
            None => provenances(node.kids).len() == 0 || forall|q: Seq<Seq<char>>|
                is_common_prefix(q, provenances(node.kids)) ==> q.len() == 0,
        },
{
    if !(node.shape is Table) {
        let keys = provenances(node.kids);
        lemma_shared_key(keys);
        assert forall|q: Seq<Seq<char>>| is_common_prefix(q, keys) implies is_common(
            q.reverse(),
            keys,
        ) && q.reverse().len() == q.len() by {
            assert(q.reverse().reverse() =~= q);
            lemma_common_is_prefix(q.reverse(), keys);
        }
        match table_dot(node).provenance {
            Some(p) => {
                lemma_common_is_prefix(p, keys);
            },
            None => {},
        }
    }
}

impl ExprMeta {
    /// Whether the two say the same of an expression.
    pub fn same_as(&self, other: &ExprMeta) -> (same: bool)
        ensures
            same == (self@ == other@),
    {
        self.audience.same_as(&other.audience)
    }
}

/// Whether the two hold the same columns, with the same metadata, in the
/// same order.
pub fn same_columns(a: &Context<ExprMeta>, b: &Context<ExprMeta>) -> (same: bool)
    ensures
        same == (a@ == b@),
{
    if a.entries.len() != b.entries.len() {
        assert(a@.len() != b@.len());
        return false;
    }
    let mut i: usize = 0;
    while i < a.entries.len()
        invariant
            i <= a.entries.len(),
            a.entries.len() == b.entries.len(),
            forall|j: int| 0 <= j < i ==> a@[j] == b@[j],
        decreases a.entries.len() - i,
    {
        if !a.entries[i].0.eq(&b.entries[i].0) || !a.entries[i].1.same_as(&b.entries[i].1) {
            assert(a@[i as int] != b@[i as int]);
            return false;
        }
        i += 1;
    }
    assert(a@ =~= b@);
    true
}

/// Whether the two are the same key, or both none.
pub fn same_key(a: &Option<ContextKey>, b: &Option<ContextKey>) -> (same: bool)
    ensures
        same == (option_view(*a) == option_view(*b)),
{
    match (a, b) {
        (Some(a), Some(b)) => a.eq(b),
        (None, None) => true,
        _ => false,
    }
}

/// Whether the two are the same block type, or both none.
pub fn same_block(a: &Option<BlockType>, b: &Option<BlockType>) -> (same: bool)
    ensures
        same == (option_view(*a) == option_view(*b)),
{
    match (a, b) {
        (Some(a), Some(b)) => a.eq(b),
        (None, None) => true,
        _ => false,
    }
}

impl TableMeta {
    /// Whether the two say the same of a relation.
    pub fn same_as(&self, other: &TableMeta) -> (same: bool)
        ensures
            same == (self@ == other@),
    {
        same_columns(&self.columns, &other.columns) && same_block(&self.loc, &other.loc) && same_key(
            &self.source,
            &other.source,
        ) && same_key(&self.provenance, &other.provenance) && self.audience.same_as(&other.audience)
    }
}

} // verus!
