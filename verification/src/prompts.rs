//! Prompt sets: ordered collections of prompt fragments ("chunks") with
//! order-preserving set difference and intersection, and comma joining.

use vstd::multiset::Multiset;
use vstd::prelude::*;

verus! {

/// True iff some chunk of `s` has the character sequence `c`.
pub open spec fn contains_chunk(s: Seq<String>, c: Seq<char>) -> bool {
    exists|i: int| 0 <= i < s.len() && s[i]@ == c
}

/// The character sequences of the chunks of `s`, in order.
pub open spec fn chunk_views(s: Seq<String>) -> Seq<Seq<char>> {
    s.map_values(|c: String| c@)
}

/// The chunks of `a`, in order, whose string value occurs in `b`.
pub open spec fn common_spec(a: Seq<String>, b: Seq<String>) -> Seq<String> {
    a.filter(|c: String| contains_chunk(b, c@))
}

/// The chunks of `a`, in order, whose string value does not occur in `b`.
pub open spec fn diff_spec(a: Seq<String>, b: Seq<String>) -> Seq<String> {
    a.filter(|c: String| !contains_chunk(b, c@))
}

/// The chunks joined with a comma between each neighbouring pair.
pub open spec fn join_spec(s: Seq<Seq<char>>) -> Seq<char>
    decreases s.len(),
{
    if s.len() == 0 {
        Seq::empty()
    } else if s.len() == 1 {
        s[0]
    } else {
        join_spec(s.drop_last()) + seq![','] + s.last()
    }
}

/// Whatever filtering keeps was already there and satisfies the predicate.
proof fn lemma_filter_is_subset<A>(s: Seq<A>, pred: spec_fn(A) -> bool, x: A)
    requires
        s.filter(pred).contains(x),
    ensures
        s.contains(x),
        pred(x),
    decreases s.len(),
{
    reveal(Seq::filter);
    if s.len() > 0 {
        let f = s.filter(pred);
        let i = choose|i: int| 0 <= i < f.len() && f[i] == x;
        let sub = s.drop_last().filter(pred);
        if pred(s.last()) && i == f.len() - 1 {
            assert(s[s.len() - 1] == x);
        } else {
            assert(sub.contains(x));
            lemma_filter_is_subset(s.drop_last(), pred, x);
            let k = choose|k: int| 0 <= k < s.drop_last().len() && s.drop_last()[k] == x;
            assert(s[k] == x);
        }
    }
}

/// A chunk value occurs in the intersection exactly when it occurs in both
/// operands.
pub proof fn lemma_common_membership(a: Seq<String>, b: Seq<String>, c: Seq<char>)
    ensures
        contains_chunk(common_spec(a, b), c) == (contains_chunk(a, c) && contains_chunk(b, c)),
{
    let pred = |x: String| contains_chunk(b, x@);
    if contains_chunk(common_spec(a, b), c) {
        let i = choose|i: int| 0 <= i < common_spec(a, b).len() && common_spec(a, b)[i]@ == c;
        let y = common_spec(a, b)[i];
        assert(common_spec(a, b).contains(y));
        lemma_filter_is_subset(a, pred, y);
        let k = choose|k: int| 0 <= k < a.len() && a[k] == y;
        assert(a[k]@ == c);
        assert(contains_chunk(a, c));
        assert(contains_chunk(b, c));
    }
    if contains_chunk(a, c) && contains_chunk(b, c) {
        let k = choose|k: int| 0 <= k < a.len() && a[k]@ == c;
        assert(pred(a[k]));
        a.lemma_filter_contains(pred, k);
        let j = choose|j: int| 0 <= j < common_spec(a, b).len() && common_spec(a, b)[j] == a[k];
        assert(common_spec(a, b)[j]@ == c);
        assert(contains_chunk(common_spec(a, b), c));
    }
}

/// Intersection is commutative up to order: the two directions keep the same
/// chunk values (their order follows the first operand's, so the sequences
/// themselves may differ).
pub proof fn lemma_common_commutative(a: Seq<String>, b: Seq<String>)
    ensures
        forall|c: Seq<char>|
            #[trigger] contains_chunk(common_spec(a, b), c) == contains_chunk(
                common_spec(b, a),
                c,
            ),
{
    assert forall|c: Seq<char>|
        #[trigger] contains_chunk(common_spec(a, b), c) == contains_chunk(
            common_spec(b, a),
            c,
        ) by {
        lemma_common_membership(a, b, c);
        lemma_common_membership(b, a, c);
    }
}

/// Intersection and difference partition a prompt set: together they hold
/// exactly the chunks of `a` — same values, same multiplicities — and each
/// keeps `a`'s order, being a filter of `a`.
pub proof fn lemma_common_diff_partition(a: Seq<String>, b: Seq<String>)
    ensures
        common_spec(a, b).len() + diff_spec(a, b).len() == a.len(),
        common_spec(a, b).to_multiset().add(diff_spec(a, b).to_multiset()) == a.to_multiset(),
    decreases a.len(),
{
    broadcast use vstd::seq_lib::group_to_multiset_ensures;

    reveal(Seq::filter);
    if a.len() == 0 {
        assert(a.to_multiset() =~= Multiset::<String>::empty());
        assert(common_spec(a, b).to_multiset().add(diff_spec(a, b).to_multiset())
            =~= Multiset::<String>::empty());
    } else {
        let a1 = a.drop_last();
        let x = a.last();
        lemma_common_diff_partition(a1, b);
        assert(a1.push(x) =~= a);
        assert(a.to_multiset() == a1.to_multiset().insert(x));
        if contains_chunk(b, x@) {
            assert(common_spec(a, b) == common_spec(a1, b).push(x));
            assert(diff_spec(a, b) == diff_spec(a1, b));
            assert(common_spec(a, b).to_multiset() == common_spec(a1, b).to_multiset().insert(x));
            assert(common_spec(a, b).to_multiset().add(diff_spec(a, b).to_multiset())
                =~= a.to_multiset());
        } else {
            assert(diff_spec(a, b) == diff_spec(a1, b).push(x));
            assert(common_spec(a, b) == common_spec(a1, b));
            assert(diff_spec(a, b).to_multiset() == diff_spec(a1, b).to_multiset().insert(x));
            assert(common_spec(a, b).to_multiset().add(diff_spec(a, b).to_multiset())
                =~= a.to_multiset());
        }
    }
}

/// An element that passes the filter lands at the position given by how many
/// passing elements precede it.
proof fn lemma_filter_position<A>(s: Seq<A>, pred: spec_fn(A) -> bool, i: int)
    requires
        0 <= i < s.len(),
        pred(s[i]),
    ensures
        s.take(i).filter(pred).len() < s.filter(pred).len(),
        s.filter(pred)[s.take(i).filter(pred).len() as int] == s[i],
    decreases s.len(),
{
    reveal(Seq::filter);
    broadcast use vstd::seq_lib::group_filter_ensures;

    if i == s.len() - 1 {
        assert(s.take(i) =~= s.drop_last());
    } else {
        lemma_filter_position(s.drop_last(), pred, i);
        assert(s.take(i) =~= s.drop_last().take(i));
        let sub = s.drop_last().filter(pred);
        let r = s.take(i).filter(pred).len() as int;
        if pred(s.last()) {
            assert(s.filter(pred) == sub.push(s.last()));
            assert(s.filter(pred)[r] == sub[r]);
        }
    }
}

/// The partition, position by position: each chunk of `a` stands in exactly
/// one of intersection and difference, at the index given by how many chunks
/// of the same kind precede it in `a` — so merging the two parts in `a`'s
/// order restores `a` exactly.
pub proof fn lemma_partition_positions(a: Seq<String>, b: Seq<String>, i: int)
    requires
        0 <= i < a.len(),
    ensures
        contains_chunk(b, a[i]@) ==> common_spec(a.take(i), b).len() < common_spec(a, b).len()
            && common_spec(a, b)[common_spec(a.take(i), b).len() as int] == a[i],
        !contains_chunk(b, a[i]@) ==> diff_spec(a.take(i), b).len() < diff_spec(a, b).len()
            && diff_spec(a, b)[diff_spec(a.take(i), b).len() as int] == a[i],
{
    if contains_chunk(b, a[i]@) {
        lemma_filter_position(a, |c: String| contains_chunk(b, c@), i);
    } else {
        lemma_filter_position(a, |c: String| !contains_chunk(b, c@), i);
    }
}

/// Appending one element to what is joined appends a comma (when anything
/// was there already) and the element.
proof fn lemma_join_snoc(s: Seq<Seq<char>>, x: Seq<char>)
    ensures
        s.len() == 0 ==> join_spec(s.push(x)) == x,
        s.len() > 0 ==> join_spec(s.push(x)) == join_spec(s) + seq![','] + x,
{
    assert(s.push(x).drop_last() =~= s);
    assert(s.push(x).last() == x);
    if s.len() == 0 {
        assert(join_spec(s.push(x)) == s.push(x)[0]);
    }
}

/// An ordered, named collection of prompt fragments. Duplicates are kept;
/// membership is decided by exact string value.
pub struct PromptChunks {
    pub chunks: Vec<String>,
}

/// Whether `v` holds a chunk whose characters equal those of `c`.
fn contains_chunk_exec(v: &Vec<String>, c: &String) -> (r: bool)
    ensures
        r == contains_chunk(v@, c@),
{
    let n = v.len();
    let mut i: usize = 0;
    while i < n
        invariant
            0 <= i <= n,
            n == v@.len(),
            forall|k: int| 0 <= k < i ==> v@[k]@ != c@,
        decreases n - i,
    {
        if v[i].eq(c) {
            return true;
        }
        i = i + 1;
    }
    false
}

impl PromptChunks {
    /// The chunks of `self`, in order, that do not occur in `other`.
    pub fn diff_by(&self, other: &PromptChunks) -> (r: Vec<String>)
        ensures
            r@ == diff_spec(self.chunks@, other.chunks@),
    {
        let ghost pred = |c: String| !contains_chunk(other.chunks@, c@);
        let mut diff: Vec<String> = Vec::new();
        let n = self.chunks.len();
        let mut i: usize = 0;
        proof {
            reveal(Seq::filter);
            assert(self.chunks@.take(0) =~= Seq::<String>::empty());
        }
        while i < n
            invariant
                0 <= i <= n,
                n == self.chunks@.len(),
                pred == (|c: String| !contains_chunk(other.chunks@, c@)),
                diff@ == self.chunks@.take(i as int).filter(pred),
            decreases n - i,
        {
            if !contains_chunk_exec(&other.chunks, &self.chunks[i]) {
                diff.push(self.chunks[i].clone());
            }
            proof {
                reveal(Seq::filter);
                assert(self.chunks@.take(i + 1).drop_last() =~= self.chunks@.take(i as int));
                assert(self.chunks@.take(i + 1).last() == self.chunks@[i as int]);
            }
            i = i + 1;
        }
        proof {
            assert(self.chunks@.take(n as int) =~= self.chunks@);
        }
        diff
    }

    /// The chunks of `self`, in order, that also occur in `other`.
    pub fn common(&self, other: &PromptChunks) -> (r: Vec<String>)
        ensures
            r@ == common_spec(self.chunks@, other.chunks@),
    {
        let ghost pred = |c: String| contains_chunk(other.chunks@, c@);
        let mut common: Vec<String> = Vec::new();
        let n = self.chunks.len();
        let mut i: usize = 0;
        proof {
            reveal(Seq::filter);
            assert(self.chunks@.take(0) =~= Seq::<String>::empty());
        }
        while i < n
            invariant
                0 <= i <= n,
                n == self.chunks@.len(),
                pred == (|c: String| contains_chunk(other.chunks@, c@)),
                common@ == self.chunks@.take(i as int).filter(pred),
            decreases n - i,
        {
            if contains_chunk_exec(&other.chunks, &self.chunks[i]) {
                common.push(self.chunks[i].clone());
            }
            proof {
                reveal(Seq::filter);
                assert(self.chunks@.take(i + 1).drop_last() =~= self.chunks@.take(i as int));
                assert(self.chunks@.take(i + 1).last() == self.chunks@[i as int]);
            }
            i = i + 1;
        }
        proof {
            assert(self.chunks@.take(n as int) =~= self.chunks@);
        }
        common
    }
}

/// Appends a copy of every chunk of `src` to `dst`, in order.
pub fn append_clones(dst: &mut Vec<String>, src: &Vec<String>)
    ensures
        final(dst)@ == old(dst)@ + src@,
{
    let n = src.len();
    let mut i: usize = 0;
    proof {
        assert(dst@ =~= old(dst)@ + src@.take(0));
    }
    while i < n
        invariant
            0 <= i <= n,
            n == src@.len(),
            dst@ == old(dst)@ + src@.take(i as int),
        decreases n - i,
    {
        dst.push(src[i].clone());
        proof {
            assert(old(dst)@ + src@.take(i + 1) =~= (old(dst)@ + src@.take(i as int)).push(
                src@[i as int],
            ));
        }
        i = i + 1;
    }
    proof {
        assert(src@.take(n as int) =~= src@);
    }
}

/// Joins the chunks into one prompt string, separated by commas.
pub fn join_chunks(chunks: &Vec<String>) -> (r: String)
    ensures
        r@ == join_spec(chunk_views(chunks@)),
{
    let mut r = String::new();
    let n = chunks.len();
    let mut i: usize = 0;
    proof {
        assert(chunk_views(chunks@.take(0)) =~= Seq::<Seq<char>>::empty());
    }
    while i < n
        invariant
            0 <= i <= n,
            n == chunks@.len(),
            r@ == join_spec(chunk_views(chunks@.take(i as int))),
        decreases n - i,
    {
        if i > 0 {
            proof {
                reveal_strlit(",");
                assert(","@ =~= seq![',']);
            }
            r.append(",");
        }
        r.append(chunks[i].as_str());
        proof {
            lemma_join_snoc(chunk_views(chunks@.take(i as int)), chunks@[i as int]@);
            assert(chunk_views(chunks@.take(i + 1)) =~= chunk_views(chunks@.take(i as int)).push(
                chunks@[i as int]@,
            ));
        }
        i = i + 1;
    }
    proof {
        assert(chunks@.take(n as int) =~= chunks@);
    }
    r
}

} // verus!
