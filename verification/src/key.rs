//! Hierarchical keys that name relations and columns.

use vstd::prelude::*;

verus! {

/// The name of a relation or column, qualified by the scopes that hold it.
///
/// The segments are kept least significant first: the name itself comes
/// first and each qualifier follows the one it qualifies. Read in reverse
/// they give the path from the outermost scope down to the name. A key has
/// at least one segment.
#[derive(Debug, PartialEq, Eq)]
pub struct ContextKey {
    segments: Vec<String>,
}

/// The segments of a list of strings, each as a sequence of characters.
pub open spec fn segments_view(v: Seq<String>) -> Seq<Seq<char>> {
    Seq::new(v.len(), |i: int| v[i]@)
}

impl View for ContextKey {
    type V = Seq<Seq<char>>;

    closed spec fn view(&self) -> Seq<Seq<char>> {
        segments_view(self.segments@)
    }
}

/// Whether `p` ends every sequence of `keys`: read as paths, whether `p` is a
/// prefix that all of them share.
pub open spec fn is_common(p: Seq<Seq<char>>, keys: Seq<Seq<Seq<char>>>) -> bool {
    forall|i: int| 0 <= i < keys.len() ==> p.is_suffix_of(#[trigger] keys[i])
}

/// The item of `a` that stands `t` places before its last.
pub open spec fn nth_last<T>(a: Seq<T>, t: int) -> T {
    a[a.len() - 1 - t]
}

/// Whether the last `n` items of `a` and of `b` are the same.
pub open spec fn agree_tail<T>(a: Seq<T>, b: Seq<T>, n: int) -> bool {
    &&& 0 <= n <= a.len()
    &&& n <= b.len()
    &&& forall|t: int| 0 <= t < n ==> #[trigger] nth_last(a, t) == nth_last(b, t)
}

/// A sequence ends another exactly when all of it agrees with the other's tail.
pub proof fn lemma_suffix_is_tail<T>(p: Seq<T>, a: Seq<T>)
    ensures
        p.is_suffix_of(a) <==> agree_tail(p, a, p.len() as int),
{
    if p.is_suffix_of(a) {
        let d = a.len() - p.len();
        assert forall|t: int| 0 <= t < p.len() implies #[trigger] nth_last(p, t) == nth_last(a, t) by {
            assert(a.subrange(d, a.len() as int)[p.len() - 1 - t] == a[a.len() - 1 - t]);
        }
    }
    if agree_tail(p, a, p.len() as int) {
        let d = a.len() - p.len();
        assert forall|i: int| 0 <= i < p.len() implies p[i] == a.subrange(d, a.len() as int)[i] by {
            let t = p.len() - 1 - i;
            assert(nth_last(p, t) == nth_last(a, t));
        }
        assert(p =~= a.subrange(d, a.len() as int));
    }
}

/// The views of a list of borrowed keys.
pub open spec fn keys_view(keys: Seq<&ContextKey>) -> Seq<Seq<Seq<char>>> {
    Seq::new(keys.len(), |i: int| keys[i]@)
}

impl ContextKey {
    #[verifier::type_invariant]
    spec fn nonempty(self) -> bool {
        self.segments@.len() > 0
    }

    /// The path of the key, outermost scope first.
    pub open spec fn path(self) -> Seq<Seq<char>> {
        self@.reverse()
    }

    /// A key of one segment, the bare name.
    pub fn with_name(name: &str) -> (key: ContextKey)
        ensures
            key@ == seq![name@],
    {
        let mut segments: Vec<String> = Vec::new();
        segments.push(name.to_owned());
        let key = ContextKey { segments };
        assert(key@ =~= seq![name@]);
        key
    }

    /// The same key inside the scope `prefix`.
    pub fn and_prefix(self, prefix: &str) -> (key: ContextKey)
        ensures
            key@ == self@.push(prefix@),
    {
        proof {
            use_type_invariant(&self);
        }
        let mut segments = self.segments;
        segments.push(prefix.to_owned());
        let key = ContextKey { segments };
        assert(key@ =~= self@.push(prefix@));
        key
    }

    /// The number of segments, which is never zero.
    pub fn len(&self) -> (n: usize)
        ensures
            n == self@.len(),
            n > 0,
    {
        proof {
            use_type_invariant(self);
        }
        self.segments.len()
    }

    /// The segment at `i`, counted from the name outwards.
    pub fn segment(&self, i: usize) -> (s: &String)
        requires
            i < self@.len(),
        ensures
            s@ == self@[i as int],
    {
        &self.segments[i]
    }

    /// The name: the least significant segment.
    pub fn name(&self) -> (name: &str)
        ensures
            name@ == self@[0],
            self@.len() > 0,
    {
        proof {
            use_type_invariant(self);
        }
        self.segments[0].as_str()
    }
}

impl ContextKey {
    /// Whether two keys have the same segments.
    pub fn eq(&self, other: &ContextKey) -> (same: bool)
        ensures
            same == (self@ == other@),
    {
        if self.segments.len() != other.segments.len() {
            assert(self@.len() != other@.len());
            return false;
        }
        let mut i: usize = 0;
        while i < self.segments.len()
            invariant
                i <= self.segments.len(),
                self.segments.len() == other.segments.len(),
                forall|j: int| 0 <= j < i ==> self@[j] == other@[j],
            decreases self.segments.len() - i,
        {
            if self.segments[i] != other.segments[i] {
                assert(self@[i as int] != other@[i as int]);
                return false;
            }
            i += 1;
        }
        assert(self@ =~= other@);
        true
    }

    /// The segments outermost scope first, as a table is named in a query.
    pub fn path_segments(&self) -> (path: Vec<String>)
        ensures
            segments_view(path@) == self.path(),
    {
        let n = self.segments.len();
        let mut path: Vec<String> = Vec::new();
        let mut i: usize = 0;
        while i < n
            invariant
                i <= n,
                n == self.segments.len(),
                path@.len() == i,
                forall|j: int| 0 <= j < i ==> path@[j]@ == self.segments@[n - 1 - j]@,
            decreases n - i,
        {
            path.push(self.segments[n - 1 - i].clone());
            i += 1;
        }
        assert(segments_view(path@) =~= self.path());
        path
    }

    /// The longest run of outer scopes that all of `keys` share, as a key of
    /// its own: the greatest common prefix of their paths. There is none
    /// where `keys` is empty or the keys share no outermost scope.
    pub fn common(keys: &Vec<&ContextKey>) -> (shared: Option<ContextKey>)
        ensures
            match shared {
                Some(k) => {
                    &&& keys.len() > 0
                    &&& k@.len() > 0
                    &&& is_common(k@, keys_view(keys@))
                    &&& forall|q: Seq<Seq<char>>| is_common(q, keys_view(keys@)) ==> q.len() <= k@.len()
                },
                None => keys.len() == 0 || forall|q: Seq<Seq<char>>|
                    is_common(q, keys_view(keys@)) ==> q.len() == 0,
            },
    {
        if keys.len() == 0 {
            return None;
        }
        let first = keys[0];
        let ghost kv = keys_view(keys@);
        let flen = first.len();
        let mut n: usize = flen;
        let mut j: usize = 1;
        proof {
            assert(kv[0] == first@);
            assert forall|q: Seq<Seq<char>>| is_common(q, kv.take(1)) implies q.len() <= n by {
                assert(q.is_suffix_of(kv.take(1)[0]));
            }
        }
        while j < keys.len()
            invariant
                1 <= j <= keys.len(),
                kv == keys_view(keys@),
                kv[0] == first@,
                flen == first@.len(),
                n <= flen,
                forall|i: int| 0 <= i < j ==> agree_tail(first@, #[trigger] kv[i], n as int),
                forall|q: Seq<Seq<char>>| is_common(q, kv.take(j as int)) ==> q.len() <= n,
            decreases keys.len() - j,
        {
            let other = keys[j];
            let olen = other.len();
            let mut m: usize = 0;
            let mut differ = false;
            while m < n && m < olen && !differ
                invariant
                    m <= n <= flen,
                    m <= olen,
                    flen == first@.len(),
                    olen == other@.len(),
                    agree_tail(first@, other@, m as int),
                    differ ==> m < n && m < olen && nth_last(first@, m as int) != nth_last(
                        other@,
                        m as int,
                    ),
                decreases n - m + (if differ { 0int } else { 1int }),
            {
                if *first.segment(flen - 1 - m) == *other.segment(olen - 1 - m) {
                    m += 1;
                } else {
                    differ = true;
                }
            }
            proof {
                assert(kv[j as int] == other@);
                assert forall|q: Seq<Seq<char>>| is_common(q, kv.take(j + 1)) implies q.len() <= m by {
                    assert forall|i: int| 0 <= i < j implies q.is_suffix_of(#[trigger] kv.take(j as int)[i]) by {
                        assert(q.is_suffix_of(kv.take(j + 1)[i]));
                    }
                    assert(is_common(q, kv.take(j as int)));
                    assert(q.is_suffix_of(kv.take(j + 1)[0]));
                    assert(q.is_suffix_of(kv.take(j + 1)[j as int]));
                    lemma_suffix_is_tail(q, first@);
                    lemma_suffix_is_tail(q, other@);
                    if q.len() > m {
                        assert(nth_last(q, m as int) == nth_last(first@, m as int));
                        assert(nth_last(q, m as int) == nth_last(other@, m as int));
                    }
                }
            }
            n = m;
            j += 1;
        }
        if n == 0 {
            proof {
                assert(kv.take(j as int) =~= kv);
            }
            return None;
        }
        let mut segments: Vec<String> = Vec::new();
        let mut i: usize = 0;
        while i < n
            invariant
                i <= n <= flen,
                flen == first@.len(),
                segments@.len() == i,
                forall|t: int| 0 <= t < i ==> segments@[t]@ == first@[flen - n + t],
            decreases n - i,
        {
            segments.push(first.segment(flen - n + i).clone());
            i += 1;
        }
        let key = ContextKey { segments };
        proof {
            assert(kv.take(j as int) =~= kv);
            assert forall|i: int| 0 <= i < kv.len() implies key@.is_suffix_of(#[trigger] kv[i]) by {
                assert(agree_tail(first@, kv[i], n as int));
                assert forall|t: int| 0 <= t < n implies #[trigger] nth_last(key@, t) == nth_last(kv[i], t) by {
                    assert(nth_last(first@, t) == nth_last(kv[i], t));
                }
                lemma_suffix_is_tail(key@, kv[i]);
            }
        }
        Some(key)
    }
}

impl Clone for ContextKey {
    fn clone(&self) -> (key: ContextKey)
        ensures
            key@ == self@,
    {
        proof {
            use_type_invariant(self);
        }
        let mut segments: Vec<String> = Vec::new();
        let mut i: usize = 0;
        while i < self.segments.len()
            invariant
                i <= self.segments.len(),
                segments@.len() == i,
                forall|j: int| 0 <= j < i ==> segments@[j]@ == self.segments@[j]@,
            decreases self.segments.len() - i,
        {
            segments.push(self.segments[i].clone());
            i += 1;
        }
        let key = ContextKey { segments };
        assert(key@ =~= self@);
        key
    }
}

} // verus!
