//! Block types: the labels that name locations, users, groups and other
//! resources, and sets of them.

use vstd::prelude::*;
use crate::key::segments_view;

verus! {

/// The type of a configuration block together with its labels, such as the
/// resource block of the user `root`: kind `resource`, labels `user` and `root`.
#[derive(Debug, PartialEq, Eq)]
pub struct BlockType {
    pub kind: String,
    pub labels: Vec<String>,
}

/// A block type as plain sequences of characters.
pub struct BlockTypeView {
    pub kind: Seq<char>,
    pub labels: Seq<Seq<char>>,
}

impl View for BlockType {
    type V = BlockTypeView;

    open spec fn view(&self) -> BlockTypeView {
        BlockTypeView { kind: self.kind@, labels: segments_view(self.labels@) }
    }
}

/// A copy of a list of strings.
pub fn clone_strings(v: &Vec<String>) -> (copy: Vec<String>)
    ensures
        segments_view(copy@) == segments_view(v@),
{
    let mut copy: Vec<String> = Vec::new();
    let mut i: usize = 0;
    while i < v.len()
        invariant
            i <= v.len(),
            copy@.len() == i,
            forall|j: int| 0 <= j < i ==> copy@[j]@ == v@[j]@,
        decreases v.len() - i,
    {
        copy.push(v[i].clone());
        i += 1;
    }
    assert(segments_view(copy@) =~= segments_view(v@));
    copy
}

/// Whether two lists of strings hold the same strings in the same order.
pub fn same_strings(a: &Vec<String>, b: &Vec<String>) -> (same: bool)
    ensures
        same == (segments_view(a@) == segments_view(b@)),
{
    if a.len() != b.len() {
        assert(segments_view(a@).len() != segments_view(b@).len());
        return false;
    }
    let mut i: usize = 0;
    while i < a.len()
        invariant
            i <= a.len(),
            a.len() == b.len(),
            forall|j: int| 0 <= j < i ==> a@[j]@ == b@[j]@,
        decreases a.len() - i,
    {
        if a[i] != b[i] {
            assert(segments_view(a@)[i as int] != segments_view(b@)[i as int]);
            return false;
        }
        i += 1;
    }
    assert(segments_view(a@) =~= segments_view(b@));
    true
}

impl BlockType {
    /// The block type of the given kind and labels.
    pub fn new(kind: &str, labels: Vec<String>) -> (block: BlockType)
        ensures
            block@.kind == kind@,
            block@.labels == segments_view(labels@),
            block.labels == labels,
    {
        BlockType { kind: kind.to_owned(), labels }
    }

    /// The labels, in the order in which they were given.
    pub fn labels(&self) -> (labels: &Vec<String>)
        ensures
            *labels == self.labels,
    {
        &self.labels
    }

    /// Whether two block types have the same kind and the same labels.
    pub fn eq(&self, other: &BlockType) -> (same: bool)
        ensures
            same == (self@ == other@),
    {
        self.kind == other.kind && same_strings(&self.labels, &other.labels)
    }
}

impl Clone for BlockType {
    fn clone(&self) -> (block: BlockType)
        ensures
            block@ == self@,
    {
        BlockType { kind: self.kind.clone(), labels: clone_strings(&self.labels) }
    }
}

/// A set of block types, such as the audience that may see a relation.
#[derive(Debug)]
pub struct LabelSet {
    pub items: Vec<BlockType>,
}

/// Whether `label` is the view of one of `items`.
pub open spec fn holds(items: Seq<BlockType>, label: BlockTypeView) -> bool {
    exists|i: int| 0 <= i < items.len() && (#[trigger] items[i])@ == label
}

impl View for LabelSet {
    type V = Set<BlockTypeView>;

    open spec fn view(&self) -> Set<BlockTypeView> {
        Set::new(|label: BlockTypeView| holds(self.items@, label))
    }
}

impl LabelSet {
    /// The empty set.
    pub fn new() -> (set: LabelSet)
        ensures
            set@ == Set::<BlockTypeView>::empty(),
    {
        let set = LabelSet { items: Vec::new() };
        assert(set@ =~= Set::<BlockTypeView>::empty());
        set
    }

    /// Whether `label` is a member.
    pub fn contains(&self, label: &BlockType) -> (found: bool)
        ensures
            found == self@.contains(label@),
    {
        let mut i: usize = 0;
        while i < self.items.len()
            invariant
                i <= self.items.len(),
                forall|j: int| 0 <= j < i ==> (#[trigger] self.items@[j])@ != label@,
            decreases self.items.len() - i,
        {
            if self.items[i].eq(label) {
                return true;
            }
            i += 1;
        }
        false
    }

    /// Adds `label`, unless it is a member already.
    pub fn insert(&mut self, label: BlockType)
        ensures
            final(self)@ == old(self)@.insert(label@),
    {
        if !self.contains(&label) {
            let ghost before = self.items@;
            self.items.push(label);
            proof {
                assert forall|l: BlockTypeView| holds(self.items@, l) <==> (holds(before, l) || l
                    == label@) by {
                    if holds(before, l) {
                        let i = choose|i: int| 0 <= i < before.len() && (#[trigger] before[i])@ == l;
                        assert(self.items@[i]@ == l);
                    }
                    if l == label@ {
                        assert(self.items@[before.len() as int]@ == l);
                    }
                }
                assert(self@ =~= old(self)@.insert(label@));
            }
        } else {
            assert(self@ =~= old(self)@.insert(label@));
        }
    }

    /// The labels that the set holds, in the order in which they came.
    /// A label that was put in through `items` may stand more than once.
    pub fn members(&self) -> (items: &Vec<BlockType>)
        ensures
            *items == self.items,
    {
        &self.items
    }

    /// The labels that are in this set or in `other`.
    pub fn union(&self, other: &LabelSet) -> (both: LabelSet)
        ensures
            both@ == self@.union(other@),
    {
        let mut both = self.clone();
        let mut i: usize = 0;
        while i < other.items.len()
            invariant
                i <= other.items.len(),
                forall|l: BlockTypeView|
                    both@.contains(l) <==> (self@.contains(l) || holds(other.items@.take(i as int), l)),
            decreases other.items.len() - i,
        {
            let ghost before = both@;
            both.insert(other.items[i].clone());
            proof {
                let added = other.items@[i as int]@;
                assert forall|l: BlockTypeView|
                    both@.contains(l) <==> (self@.contains(l) || holds(
                        other.items@.take(i + 1),
                        l,
                    )) by {
                    if holds(other.items@.take(i + 1), l) {
                        let k = choose|k: int|
                            0 <= k < i + 1 && (#[trigger] other.items@.take(i + 1)[k])@ == l;
                        if k < i {
                            assert(other.items@.take(i as int)[k]@ == l);
                        }
                    }
                    if holds(other.items@.take(i as int), l) {
                        let k = choose|k: int|
                            0 <= k < i && (#[trigger] other.items@.take(i as int)[k])@ == l;
                        assert(other.items@.take(i + 1)[k]@ == l);
                    }
                    if l == added {
                        assert(other.items@.take(i + 1)[i as int]@ == l);
                    }
                }
            }
            i += 1;
        }
        proof {
            assert(other.items@.take(i as int) =~= other.items@);
            assert(both@ =~= self@.union(other@));
        }
        both
    }

    /// The labels that are in this set and in `other`.
    pub fn intersection(&self, other: &LabelSet) -> (shared: LabelSet)
        ensures
            shared@ == self@.intersect(other@),
    {
        let mut shared = LabelSet::new();
        let mut i: usize = 0;
        while i < self.items.len()
            invariant
                i <= self.items.len(),
                forall|l: BlockTypeView|
                    shared@.contains(l) <==> (holds(self.items@.take(i as int), l) && other@.contains(
                        l,
                    )),
            decreases self.items.len() - i,
        {
            let ghost before = shared@;
            let ghost cur = self.items@[i as int]@;
            if other.contains(&self.items[i]) {
                shared.insert(self.items[i].clone());
            }
            proof {
                assert forall|l: BlockTypeView|
                    shared@.contains(l) <==> (holds(self.items@.take(i + 1), l) && other@.contains(
                        l,
                    )) by {
                    if holds(self.items@.take(i + 1), l) {
                        let k = choose|k: int|
                            0 <= k < i + 1 && (#[trigger] self.items@.take(i + 1)[k])@ == l;
                        if k < i {
                            assert(self.items@.take(i as int)[k]@ == l);
                        }
                    }
                    if holds(self.items@.take(i as int), l) {
                        let k = choose|k: int|
                            0 <= k < i && (#[trigger] self.items@.take(i as int)[k])@ == l;
                        assert(self.items@.take(i + 1)[k]@ == l);
                    }
                    if l == cur {
                        assert(self.items@.take(i + 1)[i as int]@ == l);
                    }
                }
            }
            i += 1;
        }
        proof {
            assert(self.items@.take(i as int) =~= self.items@);
            assert(shared@ =~= self@.intersect(other@));
        }
        shared
    }

    /// Whether every member is a member of `other` too.
    pub fn is_subset_of(&self, other: &LabelSet) -> (within: bool)
        ensures
            within == self@.subset_of(other@),
    {
        let mut i: usize = 0;
        while i < self.items.len()
            invariant
                i <= self.items.len(),
                forall|j: int| 0 <= j < i ==> other@.contains((#[trigger] self.items@[j])@),
            decreases self.items.len() - i,
        {
            if !other.contains(&self.items[i]) {
                assert(self@.contains(self.items@[i as int]@));
                return false;
            }
            i += 1;
        }
        true
    }

    /// Whether the two sets have the same members.
    pub fn same_as(&self, other: &LabelSet) -> (same: bool)
        ensures
            same == (self@ == other@),
    {
        let same = self.is_subset_of(other) && other.is_subset_of(self);
        proof {
            if same {
                assert(self@ =~= other@);
            }
        }
        same
    }
}

impl Clone for LabelSet {
    fn clone(&self) -> (set: LabelSet)
        ensures
            set@ == self@,
    {
        let mut items: Vec<BlockType> = Vec::new();
        let mut i: usize = 0;
        while i < self.items.len()
            invariant
                i <= self.items.len(),
                items@.len() == i,
                forall|j: int| 0 <= j < i ==> (#[trigger] items@[j])@ == self.items@[j]@,
            decreases self.items.len() - i,
        {
            items.push(self.items[i].clone());
            i += 1;
        }
        let set = LabelSet { items };
        proof {
            assert forall|l: BlockTypeView| holds(set.items@, l) <==> holds(self.items@, l) by {
                if holds(set.items@, l) {
                    let k = choose|k: int| 0 <= k < set.items@.len() && (#[trigger] set.items@[k])@ == l;
                    assert(self.items@[k]@ == l);
                }
                if holds(self.items@, l) {
                    let k = choose|k: int| 0 <= k < self.items@.len() && (#[trigger] self.items@[k])@ == l;
                    assert(set.items@[k]@ == l);
                }
            }
            assert(set@ =~= self@);
        }
        set
    }
}

/// The parts of a text between its dots. A text without a dot is one part,
/// and so is the empty text.
pub open spec fn split_dots(text: Seq<char>) -> Seq<Seq<char>>
    decreases text.len(),
{
    if text.len() == 0 {
        seq![Seq::empty()]
    } else if text.last() == '.' {
        split_dots(text.drop_last()).push(Seq::empty())
    } else {
        let parts = split_dots(text.drop_last());
        parts.update(parts.len() - 1, parts.last().push(text.last()))
    }
}

/// A text has one part at least.
pub proof fn lemma_split_dots_nonempty(text: Seq<char>)
    ensures
        split_dots(text).len() > 0,
    decreases text.len(),
{
    if text.len() > 0 {
        lemma_split_dots_nonempty(text.drop_last());
    }
}

/// Whether none of the parts is empty.
pub open spec fn all_named(parts: Seq<Seq<char>>) -> bool {
    forall|i: int| 0 <= i < parts.len() ==> (#[trigger] parts[i]).len() > 0
}

/// The block type that a text with dots names: its first part is the kind
/// and the others are the labels. A text with an empty part names none.
pub open spec fn parsed_block(text: Seq<char>) -> Option<BlockTypeView> {
    let parts = split_dots(text);
    if all_named(parts) {
        Some(BlockTypeView { kind: parts[0], labels: parts.skip(1) })
    } else {
        None
    }
}

impl BlockType {
    /// Reads a block type from its text, such as `resource.group.wheel`.
    pub fn parse(text: &str) -> (block: Option<BlockType>)
        ensures
            option_block_view(block) == parsed_block(text@),
    {
        let n = text.unicode_len();
        let mut parts: Vec<String> = Vec::new();
        let mut start: usize = 0;
        let mut i: usize = 0;
        proof {
            assert(text@.take(0) =~= Seq::<char>::empty());
            assert(text@.subrange(0, 0) =~= Seq::<char>::empty());
            assert(split_dots(text@.take(0)) =~= segments_view(parts@).push(text@.subrange(0, 0)));
        }
        while i < n
            invariant
                start <= i <= n,
                n == text@.len(),
                split_dots(text@.take(i as int)) == segments_view(parts@).push(
                    text@.subrange(start as int, i as int),
                ),
                all_named(segments_view(parts@)),
            decreases n - i,
        {
            let ghost before = segments_view(parts@);
            let ghost current = text@.subrange(start as int, i as int);
            proof {
                assert(text@.take(i + 1).drop_last() =~= text@.take(i as int));
                assert(text@.take(i + 1).last() == text@[i as int]);
            }
            if text.get_char(i) == '.' {
                if start == i {
                    proof {
                        // An empty part: whatever follows, the text names nothing.
                        lemma_split_keeps_parts(text@, i + 1);
                        let whole = split_dots(text@);
                        let sofar = split_dots(text@.take(i + 1));
                        assert(sofar == before.push(current).push(Seq::<char>::empty()));
                        assert(current.len() == 0);
                        assert(sofar[before.len() as int] == current);
                        assert(whole[before.len() as int].len() == 0);
                    }
                    return None;
                }
                parts.push(text.substring_char(start, i).to_owned());
                start = i + 1;
                proof {
                    assert(segments_view(parts@) =~= before.push(current));
                    assert(text@.subrange(start as int, i + 1) =~= Seq::<char>::empty());
                }
            } else {
                proof {
                    assert(text@.subrange(start as int, i + 1) =~= current.push(text@[i as int]));
                    assert(before.push(current).update(before.len() as int, current.push(text@[i as int]))
                        =~= before.push(current.push(text@[i as int])));
                }
            }
            i += 1;
        }
        proof {
            assert(text@.take(n as int) =~= text@);
        }
        if start == n {
            proof {
                let whole = split_dots(text@);
                assert(whole[whole.len() - 1].len() == 0);
            }
            return None;
        }
        let ghost before = segments_view(parts@);
        parts.push(text.substring_char(start, n).to_owned());
        proof {
            assert(segments_view(parts@) =~= split_dots(text@));
        }
        let labels = parts.split_off(1);
        let kind = parts.pop().unwrap();
        let block = BlockType { kind, labels };
        proof {
            assert(block@.labels =~= split_dots(text@).skip(1));
        }
        Some(block)
    }
}

/// An optional block type as its view.
pub open spec fn option_block_view(block: Option<BlockType>) -> Option<BlockTypeView> {
    match block {
        Some(block) => Some(block@),
        None => None,
    }
}

/// The parts of the beginning of a text stay parts of the whole text, but
/// for the last, which may go on.
pub proof fn lemma_split_keeps_parts(text: Seq<char>, upto: int)
    requires
        0 <= upto <= text.len(),
    ensures
        split_dots(text).len() >= split_dots(text.take(upto)).len(),
        forall|k: int|
            0 <= k < split_dots(text.take(upto)).len() - 1 ==> #[trigger] split_dots(text)[k]
                == split_dots(text.take(upto))[k],
    decreases text.len() - upto,
{
    lemma_split_dots_nonempty(text.take(upto));
    if upto < text.len() {
        lemma_split_keeps_parts(text, upto + 1);
        lemma_split_dots_nonempty(text.take(upto + 1));
        assert(text.take(upto + 1).drop_last() =~= text.take(upto));
    } else {
        assert(text.take(upto) =~= text);
    }
}

} // verus!
