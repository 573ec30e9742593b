//! Building the tree of a directory: which children count, the order in which
//! they are written, and the object that results.

use vstd::prelude::*;
use vstd::string::StrSliceExecFns;
use vstd::utf8::encode_utf8;
use crate::object::{encode_tree, entries_view, ObjectView, TreeEntry, TreeEntryView};
use crate::order::{bytes_le, lemma_lex_total, lemma_lex_transitive, lex_le};
use crate::sha1::sha1_digest;
use crate::store::{loose_object, LooseObject};

verus! {

/// The bytes by which an entry is ordered: its name in UTF-8.
pub open spec fn entry_key(e: TreeEntryView) -> Seq<u8> {
    encode_utf8(e.name)
}

/// Each entry's name comes before, or is, the name of every later entry.
pub open spec fn sorted_by_name(entries: Seq<TreeEntryView>) -> bool {
    forall|i: int, j: int|
        0 <= i < j < entries.len() ==> lex_le(
            entry_key(#[trigger] entries[i]),
            entry_key(#[trigger] entries[j]),
        )
}

/// A sorted sequence with one more entry: `e` stands behind the entries whose
/// names come before its own or are its own, and before all others.
pub open spec fn insert_by_name(sorted: Seq<TreeEntryView>, e: TreeEntryView) -> Seq<
    TreeEntryView,
>
    decreases sorted.len(),
{
    if sorted.len() == 0 || lex_le(entry_key(sorted.last()), entry_key(e)) {
        sorted.push(e)
    } else {
        insert_by_name(sorted.drop_last(), e).push(sorted.last())
    }
}

/// The entries in ascending order of their names. Entries of the same name
/// keep the order in which they came.
pub open spec fn sort_by_name(entries: Seq<TreeEntryView>) -> Seq<TreeEntryView>
    decreases entries.len(),
{
    if entries.len() == 0 {
        Seq::empty()
    } else {
        insert_by_name(sort_by_name(entries.drop_last()), entries.last())
    }
}

/// Where [`insert_by_name`] puts the new entry: at the index `at`, where
/// every entry from `at` on has a name that comes strictly behind the new
/// one, and the entry before `at`, if there is one, has not.
pub proof fn lemma_insert_position(sorted: Seq<TreeEntryView>, e: TreeEntryView, at: int)
    requires
        0 <= at <= sorted.len(),
        at > 0 ==> lex_le(entry_key(sorted[at - 1]), entry_key(e)),
        forall|k: int| at <= k < sorted.len() ==> !lex_le(entry_key(sorted[k]), entry_key(e)),
    ensures
        insert_by_name(sorted, e) == sorted.insert(at, e),
    decreases sorted.len(),
{
    if at == sorted.len() {
        assert(sorted.insert(at, e) =~= sorted.push(e));
    } else {
        let init = sorted.drop_last();
        lemma_insert_position(init, e, at);
        assert(init.insert(at, e).push(sorted.last()) =~= sorted.insert(at, e));
    }
}

/// Inserting keeps a sorted sequence sorted, and adds the new entry to what
/// it holds.
pub proof fn lemma_insert_by_name(sorted: Seq<TreeEntryView>, e: TreeEntryView)
    requires
        sorted_by_name(sorted),
    ensures
        sorted_by_name(insert_by_name(sorted, e)),
        insert_by_name(sorted, e).len() == sorted.len() + 1,
        insert_by_name(sorted, e).to_multiset() == sorted.to_multiset().insert(e),
    decreases sorted.len(),
{
    broadcast use vstd::seq_lib::group_to_multiset_ensures;

    let out = insert_by_name(sorted, e);
    if sorted.len() == 0 || lex_le(entry_key(sorted.last()), entry_key(e)) {
        assert forall|i: int, j: int| 0 <= i < j < out.len() implies lex_le(
            entry_key(#[trigger] out[i]),
            entry_key(#[trigger] out[j]),
        ) by {
            if j == sorted.len() {
                if i < sorted.len() - 1 {
                    assert(lex_le(entry_key(sorted[i]), entry_key(sorted[sorted.len() - 1])));
                    lemma_lex_transitive(
                        entry_key(sorted[i]),
                        entry_key(sorted.last()),
                        entry_key(e),
                    );
                }
            } else {
                assert(lex_le(entry_key(sorted[i]), entry_key(sorted[j])));
            }
        }
    } else {
        let init = sorted.drop_last();
        let last = sorted.last();
        assert forall|i: int, j: int| 0 <= i < j < init.len() implies lex_le(
            entry_key(#[trigger] init[i]),
            entry_key(#[trigger] init[j]),
        ) by {
            assert(lex_le(entry_key(sorted[i]), entry_key(sorted[j])));
        }
        lemma_insert_by_name(init, e);
        let inner = insert_by_name(init, e);
        assert(out == inner.push(last));
        lemma_lex_total(entry_key(last), entry_key(e));
        assert forall|i: int| 0 <= i < inner.len() implies lex_le(
            entry_key(#[trigger] inner[i]),
            entry_key(last),
        ) by {
            assert(inner.to_multiset().contains(inner[i]));
            if inner[i] != e {
                assert(init.to_multiset().contains(inner[i]));
                let k = choose|k: int| 0 <= k < init.len() && init[k] == inner[i];
                assert(lex_le(entry_key(sorted[k]), entry_key(sorted[sorted.len() - 1])));
            }
        }
        assert forall|i: int, j: int| 0 <= i < j < out.len() implies lex_le(
            entry_key(#[trigger] out[i]),
            entry_key(#[trigger] out[j]),
        ) by {
            if j < inner.len() {
                assert(lex_le(entry_key(inner[i]), entry_key(inner[j])));
            } else {
                assert(out[i] == inner[i]);
            }
        }
        assert(sorted == init.push(last));
        assert(out.to_multiset() =~= sorted.to_multiset().insert(e));
    }
}

/// Sorting gives a sorted sequence that holds what the given one holds, each
/// entry as often.
pub proof fn lemma_sort_by_name(entries: Seq<TreeEntryView>)
    ensures
        sorted_by_name(sort_by_name(entries)),
        sort_by_name(entries).len() == entries.len(),
        sort_by_name(entries).to_multiset() == entries.to_multiset(),
    decreases entries.len(),
{
    broadcast use vstd::seq_lib::group_to_multiset_ensures;

    if entries.len() == 0 {
        assert(sort_by_name(entries).to_multiset() =~= entries.to_multiset());
    } else {
        let init = entries.drop_last();
        lemma_sort_by_name(init);
        lemma_insert_by_name(sort_by_name(init), entries.last());
        assert(entries == init.push(entries.last()));
    }
}

/// No two entries have the same name.
pub open spec fn distinct_names(entries: Seq<TreeEntryView>) -> bool {
    forall|i: int, j: int|
        0 <= i < j < entries.len() ==> (#[trigger] entries[i]).name != (#[trigger] entries[j]).name
}

/// A sequence that holds what a sequence of distinct names holds, each entry
/// as often, has distinct names too.
pub proof fn lemma_distinct_names_permuted(entries: Seq<TreeEntryView>, other: Seq<TreeEntryView>)
    requires
        distinct_names(entries),
        other.to_multiset() == entries.to_multiset(),
    ensures
        distinct_names(other),
{
    broadcast use vstd::seq_lib::group_to_multiset_ensures;
    broadcast use vstd::multiset::group_multiset_axioms;

    assert forall|i: int, j: int| 0 <= i < j < other.len() implies (#[trigger] other[i]).name != (
    #[trigger] other[j]).name by {
        if other[i].name == other[j].name {
            assert(other.to_multiset().contains(other[i]));
            assert(other.to_multiset().contains(other[j]));
            let p = choose|p: int| 0 <= p < entries.len() && entries[p] == other[i];
            let q = choose|q: int| 0 <= q < entries.len() && entries[q] == other[j];
            if p < q {
                assert(entries[p].name != entries[q].name);
            } else if q < p {
                assert(entries[q].name != entries[p].name);
            } else {
                // The same entry stands at `i` and at `j` of `other`, so it
                // stands twice in `entries` as well.
                let e = other[i];
                let rest = other.remove(j);
                assert(rest[i] == e);
                assert(rest.to_multiset().contains(e));
                assert(rest.to_multiset() =~= other.to_multiset().remove(e));
                let less = entries.remove(p);
                assert(less.to_multiset() =~= entries.to_multiset().remove(e));
                assert(less.to_multiset().contains(e));
                let r = choose|r: int| 0 <= r < less.len() && less[r] == e;
                if r < p {
                    assert(entries[r].name != entries[p].name);
                } else {
                    assert(entries[p].name != entries[r + 1].name);
                }
            }
        }
    }
}

/// Two sorted sequences of distinct names that hold the same entries are the
/// same sequence.
pub proof fn lemma_sorted_unique(x: Seq<TreeEntryView>, y: Seq<TreeEntryView>)
    requires
        sorted_by_name(x),
        sorted_by_name(y),
        distinct_names(x),
        distinct_names(y),
        forall|e: TreeEntryView| x.contains(e) <==> y.contains(e),
    ensures
        x == y,
    decreases x.len(),
{
    if x.len() == 0 {
        if y.len() > 0 {
            assert(y.contains(y[0]));
        }
        assert(x =~= y);
    } else if y.len() == 0 {
        assert(x.contains(x[0]));
    } else {
        let a = x.last();
        let b = y.last();
        assert(x.contains(a));
        assert(y.contains(b));
        let k = choose|k: int| 0 <= k < y.len() && y[k] == a;
        let p = choose|p: int| 0 <= p < x.len() && x[p] == b;
        // `a` is no later than `b` in `y`, and `b` no later than `a` in `x`.
        if k < y.len() - 1 {
            assert(lex_le(entry_key(y[k]), entry_key(y[y.len() - 1])));
        } else {
            lemma_lex_total(entry_key(a), entry_key(b));
        }
        if p < x.len() - 1 {
            assert(lex_le(entry_key(x[p]), entry_key(x[x.len() - 1])));
        } else {
            lemma_lex_total(entry_key(a), entry_key(b));
        }
        crate::order::lemma_lex_antisymmetric(entry_key(a), entry_key(b));
        vstd::utf8::encode_utf8_decode_utf8(a.name);
        vstd::utf8::encode_utf8_decode_utf8(b.name);
        assert(a.name == b.name);
        if p < x.len() - 1 {
            assert(x[p].name != x[x.len() - 1].name);
        }
        assert(a == b);
        let xs = x.drop_last();
        let ys = y.drop_last();
        assert forall|e: TreeEntryView| xs.contains(e) <==> ys.contains(e) by {
            if xs.contains(e) {
                let i = choose|i: int| 0 <= i < xs.len() && xs[i] == e;
                assert(x[i] == e);
                assert(x[i].name != x[x.len() - 1].name);
                assert(x.contains(e));
                let j = choose|j: int| 0 <= j < y.len() && y[j] == e;
                assert(ys[j] == e);
            }
            if ys.contains(e) {
                let j = choose|j: int| 0 <= j < ys.len() && ys[j] == e;
                assert(y[j] == e);
                assert(y[j].name != y[y.len() - 1].name);
                assert(y.contains(e));
                let i = choose|i: int| 0 <= i < x.len() && x[i] == e;
                assert(xs[i] == e);
            }
        }
        assert forall|i: int, j: int| 0 <= i < j < xs.len() implies lex_le(
            entry_key(#[trigger] xs[i]),
            entry_key(#[trigger] xs[j]),
        ) by {
            assert(lex_le(entry_key(x[i]), entry_key(x[j])));
        }
        assert forall|i: int, j: int| 0 <= i < j < ys.len() implies lex_le(
            entry_key(#[trigger] ys[i]),
            entry_key(#[trigger] ys[j]),
        ) by {
            assert(lex_le(entry_key(y[i]), entry_key(y[j])));
        }
        assert forall|i: int, j: int| 0 <= i < j < xs.len() implies (#[trigger] xs[i]).name != (
        #[trigger] xs[j]).name by {
            assert(x[i].name != x[j].name);
        }
        assert forall|i: int, j: int| 0 <= i < j < ys.len() implies (#[trigger] ys[i]).name != (
        #[trigger] ys[j]).name by {
            assert(y[i].name != y[j].name);
        }
        lemma_sorted_unique(xs, ys);
        assert(x =~= xs.push(a));
        assert(y =~= ys.push(b));
    }
}

/// The order in which the entries of a directory are found does not matter:
/// two sequences that hold the same entries, each of another name, are the
/// same once sorted.
pub proof fn lemma_sort_order_free(a: Seq<TreeEntryView>, b: Seq<TreeEntryView>)
    requires
        distinct_names(a),
        a.to_multiset() == b.to_multiset(),
    ensures
        sort_by_name(a) == sort_by_name(b),
{
    broadcast use vstd::seq_lib::group_to_multiset_ensures;

    let x = sort_by_name(a);
    let y = sort_by_name(b);
    lemma_sort_by_name(a);
    lemma_sort_by_name(b);
    lemma_distinct_names_permuted(a, x);
    lemma_distinct_names_permuted(a, y);
    assert forall|e: TreeEntryView| x.contains(e) <==> y.contains(e) by {
        assert(x.to_multiset().contains(e) <==> y.to_multiset().contains(e));
    }
    lemma_sorted_unique(x, y);
}

/// Puts `entries` in ascending order of their names.
pub fn sort_entries(entries: &mut Vec<TreeEntry>)
    ensures
        entries_view(final(entries)@) == sort_by_name(entries_view(old(entries)@)),
        sorted_by_name(entries_view(final(entries)@)),
        entries_view(final(entries)@).to_multiset() == entries_view(old(entries)@).to_multiset(),
{
    let ghost given = entries_view(entries@);
    proof {
        lemma_sort_by_name(given);
    }
    let mut i: usize = 0;
    assert(given.take(0) == Seq::<TreeEntryView>::empty());
    while i < entries.len()
        invariant
            0 <= i <= entries.len(),
            entries.len() == given.len(),
            entries_view(entries@).take(i as int) == sort_by_name(given.take(i as int)),
            entries_view(entries@).skip(i as int) == given.skip(i as int),
        decreases entries.len() - i,
    {
        let ghost before = entries_view(entries@);
        let ghost front = before.take(i as int);
        let entry = entries.remove(i);
        let ghost e = entry@;
        assert(e == given[i as int]) by {
            assert(before.skip(i as int)[0] == given.skip(i as int)[0]);
        }
        assert(entries_view(entries@) == front + before.skip(i + 1));
        let mut at: usize = i;
        while at > 0 && !bytes_le(
            entries[at - 1].name.as_str().as_bytes(),
            entry.name.as_str().as_bytes(),
        )
            invariant
                0 <= at <= i,
                i <= entries.len(),
                e == entry@,
                entries_view(entries@).take(i as int) == front,
                forall|k: int| at <= k < i ==> !lex_le(entry_key(front[k]), entry_key(e)),
            decreases at,
        {
            proof {
                assert(front[at - 1] == entries@[at - 1]@);
            }
            at = at - 1;
        }
        proof {
            if at > 0 {
                assert(front[at - 1] == entries@[at - 1]@);
            }
            lemma_insert_position(front, e, at as int);
        }
        entries.insert(at, entry);
        proof {
            let after = entries_view(entries@);
            assert(after.take(i + 1) == front.insert(at as int, e));
            assert(after.skip(i + 1) == before.skip(i + 1));
            assert(before.skip(i + 1) == given.skip(i + 1)) by {
                assert(before.skip(i as int).skip(1) == before.skip(i + 1));
                assert(given.skip(i as int).skip(1) == given.skip(i + 1));
            }
            assert(given.take(i + 1).drop_last() == given.take(i as int));
        }
        i = i + 1;
    }
    assert(entries_view(entries@).take(i as int) == entries_view(entries@));
    assert(given.take(i as int) == given);
}

/// Whether a child of a directory is left out of its tree: names that start
/// with a dot are reserved for metadata.
pub fn is_hidden(name: &str) -> (hidden: bool)
    ensures
        hidden == (name@.len() > 0 && name@[0] == '.'),
{
    !name.is_empty() && name.get_char(0) == '.'
}

/// The tree object of a directory whose children are `entries`, in whatever
/// order they were found.
pub open spec fn tree_object(entries: Seq<TreeEntryView>) -> ObjectView {
    ObjectView::Tree(sort_by_name(entries))
}

/// The digest of the tree object of a directory.
pub open spec fn tree_digest(entries: Seq<TreeEntryView>) -> Seq<u8> {
    sha1_digest(tree_object(entries).encoding())
}

/// The digest of a directory does not depend on the order in which its
/// children were found: two sequences that hold the same entries, each of
/// another name, give the same tree object and the same digest.
pub proof fn lemma_tree_digest_order_free(a: Seq<TreeEntryView>, b: Seq<TreeEntryView>)
    requires
        distinct_names(a),
        a.to_multiset() == b.to_multiset(),
    ensures
        tree_object(a) == tree_object(b),
        tree_digest(a) == tree_digest(b),
{
    lemma_sort_order_free(a, b);
}

/// A directory that has been hashed.
#[derive(Debug, Clone, PartialEq, Eq)]
pub struct Tree {
    /// The digest of the tree object.
    pub hash: [u8; 20],
    /// The mode of the directory itself.
    pub mode: u32,
    /// The path of the directory.
    pub name: String,
    /// The children, in ascending order of their names.
    pub entries: Vec<TreeEntry>,
}

/// Builds the tree of a directory from its children: sorts them by name,
/// frames them as a tree object and computes its digest. Returns the tree and
/// the object to store.
pub fn build_tree(entries: Vec<TreeEntry>, mode: u32, name: String) -> (built: (Tree, LooseObject))
    ensures
        entries_view(built.0.entries@) == sort_by_name(entries_view(entries@)),
        sorted_by_name(entries_view(built.0.entries@)),
        built.0.mode == mode,
        built.0.name@ == name@,
        built.0.hash@ == tree_digest(entries_view(entries@)),
        built.1@ == loose_object(tree_object(entries_view(entries@))),
{
    let mut sorted = entries;
    sort_entries(&mut sorted);
    let mut encoded: Vec<u8> = Vec::new();
    encode_tree(sorted.as_slice(), &mut encoded);
    assert(encoded@ == tree_object(entries_view(entries@)).encoding());
    let id = crate::digest::hash_bytes(encoded.as_slice());
    let tree = Tree { hash: id.hash, mode, name, entries: sorted };
    (tree, LooseObject { id, encoded })
}

} // verus!
