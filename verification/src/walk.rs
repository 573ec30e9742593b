//! Hashing a whole directory: every file becomes a blob, every directory a
//! tree of its children, from the leaves up.

use vstd::prelude::*;
use crate::object::{entries_view, ObjectView, TreeEntry, TreeEntryView};
use crate::sha1::sha1_digest;
use crate::store::{hash_object, loose_object, LooseObject, LooseObjectView};
use crate::tree::{
    build_tree, distinct_names, is_hidden, lemma_tree_digest_order_free, sort_by_name, tree_digest,
    tree_object, Tree,
};

verus! {

/// A child of a directory, as it was found: a file with its content, or a
/// directory with its own children in the order in which they were found.
#[derive(Debug, PartialEq, Eq)]
pub enum Child {
    File { name: String, mode: u32, content: Vec<u8> },
    Directory { name: String, mode: u32, children: Vec<Child> },
}

/// The mathematical value of a [`Child`].
pub enum ChildView {
    File { name: Seq<char>, mode: u32, content: Seq<u8> },
    Directory { name: Seq<char>, mode: u32, children: Seq<ChildView> },
}

/// The value of a child.
pub open spec fn child_view(child: Child) -> ChildView
    decreases child,
{
    match child {
        Child::File { name, mode, content } => ChildView::File {
            name: name@,
            mode,
            content: content@,
        },
        Child::Directory { name, mode, children } => ChildView::Directory {
            name: name@,
            mode,
            children: children_view(children@),
        },
    }
}

/// The values of a sequence of children, in the same order.
pub open spec fn children_view(children: Seq<Child>) -> Seq<ChildView>
    decreases children,
{
    if children.len() == 0 {
        Seq::empty()
    } else {
        children_view(children.drop_last()).push(child_view(children.last()))
    }
}

impl View for Child {
    type V = ChildView;

    open spec fn view(&self) -> ChildView {
        child_view(*self)
    }
}

/// The values of children stand where the children stand.
pub proof fn lemma_children_view(children: Seq<Child>)
    ensures
        children_view(children).len() == children.len(),
        forall|i: int| 0 <= i < children.len() ==> children_view(children)[i] == children[i]@,
    decreases children.len(),
{
    if children.len() > 0 {
        lemma_children_view(children.drop_last());
    }
}

impl ChildView {
    /// The name of the child.
    pub open spec fn name(self) -> Seq<char> {
        match self {
            ChildView::File { name, .. } => name,
            ChildView::Directory { name, .. } => name,
        }
    }

    /// The child is left out of its directory's tree: its name starts with a
    /// dot.
    pub open spec fn hidden(self) -> bool {
        self.name().len() > 0 && self.name()[0] == '.'
    }
}

/// The tree entry of a child: its mode, its name, and the digest of the blob
/// of a file's content or of the tree of a directory's children.
pub open spec fn child_entry(child: ChildView) -> TreeEntryView
    decreases child,
{
    match child {
        ChildView::File { name, mode, content } => TreeEntryView {
            mode,
            name,
            object_hash: sha1_digest(ObjectView::Blob(content).encoding()),
        },
        ChildView::Directory { name, mode, children } => TreeEntryView {
            mode,
            name,
            object_hash: tree_digest(child_entries(children)),
        },
    }
}

/// The tree entries of the children of a directory, in the order in which the
/// children were found, without the hidden ones.
pub open spec fn child_entries(children: Seq<ChildView>) -> Seq<TreeEntryView>
    decreases children,
{
    if children.len() == 0 {
        Seq::empty()
    } else if children.last().hidden() {
        child_entries(children.drop_last())
    } else {
        child_entries(children.drop_last()).push(child_entry(children.last()))
    }
}

/// The objects that are stored for the children of a directory, in the order
/// in which they are stored: for each child that is not hidden, the blob of a
/// file, or all that is stored for a directory.
pub open spec fn children_objects(children: Seq<ChildView>) -> Seq<ObjectView>
    decreases children, 1int,
{
    if children.len() == 0 {
        Seq::empty()
    } else {
        children_objects(children.drop_last()) + child_objects(children.last())
    }
}

/// The objects that are stored for one child.
pub open spec fn child_objects(child: ChildView) -> Seq<ObjectView>
    decreases child, 0int,
{
    if child.hidden() {
        Seq::empty()
    } else {
        match child {
            ChildView::File { content, .. } => seq![ObjectView::Blob(content)],
            ChildView::Directory { children, .. } => directory_objects(children),
        }
    }
}

/// The objects that are stored for a directory: those of its children, then
/// its own tree.
pub open spec fn directory_objects(children: Seq<ChildView>) -> Seq<ObjectView>
    decreases children, 2int,
{
    children_objects(children).push(tree_object(child_entries(children)))
}

/// The values of a sequence of objects to store.
pub open spec fn objects_view(objects: Seq<LooseObject>) -> Seq<LooseObjectView> {
    Seq::new(objects.len(), |i: int| objects[i]@)
}

/// Hashes the directory with the given children, mode and path. Hidden
/// children are left out; the others are hashed in the order in which they
/// were found, directories before their own tree. Every object that the
/// directory needs in the store is appended to `objects`, in that order.
pub fn read_tree_from_dir(
    children: &Vec<Child>,
    mode: u32,
    name: String,
    objects: &mut Vec<LooseObject>,
) -> (tree: Tree)
    ensures
        tree.mode == mode,
        tree.name@ == name@,
        entries_view(tree.entries@) == sort_by_name(child_entries(children_view(children@))),
        tree.hash@ == tree_digest(child_entries(children_view(children@))),
        objects_view(final(objects)@) == objects_view(old(objects)@) + directory_objects(
            children_view(children@),
        ).map_values(|object: ObjectView| loose_object(object)),
    decreases children,
{
    let ghost all = children_view(children@);
    let ghost stored = objects_view(objects@);
    let ghost to_loose = |object: ObjectView| loose_object(object);
    let mut entries: Vec<TreeEntry> = Vec::new();
    let mut i: usize = 0;
    proof {
        lemma_children_view(children@);
        assert(all.take(0) == Seq::<ChildView>::empty());
        assert(entries_view(entries@) == child_entries(all.take(0)));
        assert(objects_view(objects@) == stored + children_objects(all.take(0)).map_values(
            to_loose,
        ));
    }
    while i < children.len()
        invariant
            0 <= i <= children.len(),
            all == children_view(children@),
            all.len() == children.len(),
            to_loose == |object: ObjectView| loose_object(object),
            entries_view(entries@) == child_entries(all.take(i as int)),
            objects_view(objects@) == stored + children_objects(all.take(i as int)).map_values(
                to_loose,
            ),
        decreases children.len() - i,
    {
        let ghost before = objects_view(objects@);
        let ghost found = entries_view(entries@);
        let ghost child = all[i as int];
        proof {
            assert(all.take(i + 1).drop_last() == all.take(i as int));
            assert(all.take(i + 1).last() == child);
            lemma_children_view(children@);
            assert(child == children@[i as int]@);
        }
        let ghost mut added = Seq::<ObjectView>::empty();
        match &children[i] {
            Child::File { name, mode, content } => {
                if !is_hidden(name.as_str()) {
                    let loose = hash_object(content.as_slice());
                    entries.push(
                        TreeEntry { mode: *mode, name: name.clone(), object_hash: loose.id.hash },
                    );
                    objects.push(loose);
                    proof {
                        added = seq![ObjectView::Blob(content@)];
                        assert(entries_view(entries@) == found.push(child_entry(child)));
                        assert(objects_view(objects@) == before + added.map_values(to_loose));
                    }
                } else {
                    proof {
                        assert(objects_view(objects@) == before + added.map_values(to_loose));
                    }
                }
            },
            Child::Directory { name, mode, children: inner } => {
                proof {
                    assert(child->Directory_children == children_view(inner@));
                }
                if !is_hidden(name.as_str()) {
                    let tree = read_tree_from_dir(inner, *mode, name.clone(), objects);
                    entries.push(
                        TreeEntry { mode: tree.mode, name: name.clone(), object_hash: tree.hash },
                    );
                    proof {
                        added = directory_objects(children_view(inner@));
                        assert(entries_view(entries@) == found.push(child_entry(child)));
                    }
                } else {
                    proof {
                        assert(objects_view(objects@) == before + added.map_values(to_loose));
                    }
                }
            },
        }
        proof {
            let earlier = children_objects(all.take(i as int));
            assert(child_objects(child) == added);
            assert(children_objects(all.take(i + 1)) == earlier + added);
            lemma_map_add(earlier, added, to_loose);
            assert(stored + (earlier.map_values(to_loose) + added.map_values(to_loose)) == (stored
                + earlier.map_values(to_loose)) + added.map_values(to_loose));
        }
        i = i + 1;
    }
    proof {
        assert(all.take(i as int) == all);
    }
    let ghost before = objects_view(objects@);
    let (tree, loose) = build_tree(entries, mode, name);
    objects.push(loose);
    proof {
        let own = tree_object(child_entries(all));
        assert(objects_view(objects@) == before.push(loose_object(own)));
        assert(directory_objects(all).map_values(to_loose) == children_objects(all).map_values(
            to_loose,
        ).push(loose_object(own)));
    }
    tree
}

/// The children that count have names of their own, here and in every
/// directory below.
pub open spec fn well_named(children: Seq<ChildView>) -> bool
    decreases children, 1int,
{
    &&& distinct_names(child_entries(children))
    &&& forall|i: int| 0 <= i < children.len() ==> child_well_named(#[trigger] children[i])
}

/// What [`well_named`] asks of one child.
pub open spec fn child_well_named(child: ChildView) -> bool
    decreases child, 0int,
{
    match child {
        ChildView::File { .. } => true,
        ChildView::Directory { children, .. } => well_named(children),
    }
}

/// `b` holds the children of `a`, in whatever order, and directories among
/// them hold the same children in whatever order: each child of `a` is found
/// somewhere in `b`, and what is left of `a` in what is left of `b`.
pub open spec fn same_children(a: Seq<ChildView>, b: Seq<ChildView>) -> bool
    decreases a, 1int,
{
    if a.len() == 0 {
        b.len() == 0
    } else {
        exists|k: int|
            0 <= k < b.len() && same_child(a.last(), #[trigger] b[k]) && same_children(
                a.drop_last(),
                b.remove(k),
            )
    }
}

/// `b` is the file `a`, or a directory of the name and mode of `a` with the
/// same children.
pub open spec fn same_child(a: ChildView, b: ChildView) -> bool
    decreases a, 0int,
{
    match a {
        ChildView::File { .. } => a == b,
        ChildView::Directory { name, mode, children } => {
            &&& b is Directory
            &&& b->Directory_name == name
            &&& b->Directory_mode == mode
            &&& same_children(children, b->Directory_children)
        },
    }
}

/// The entries of a directory without one of its children are the entries of
/// the directory without the entry of that child.
proof fn lemma_entries_without(children: Seq<ChildView>, k: int)
    requires
        0 <= k < children.len(),
    ensures
        child_entries(children).to_multiset() == (if children[k].hidden() {
            child_entries(children.remove(k)).to_multiset()
        } else {
            child_entries(children.remove(k)).to_multiset().insert(child_entry(children[k]))
        }),
    decreases children.len(),
{
    broadcast use vstd::seq_lib::group_to_multiset_ensures;
    broadcast use vstd::multiset::group_multiset_axioms;

    let init = children.drop_last();
    let last = children.last();
    if k == children.len() - 1 {
        assert(children.remove(k) == init);
    } else {
        lemma_entries_without(init, k);
        assert(children.remove(k).drop_last() == init.remove(k));
        assert(children.remove(k).last() == last);
        assert(init[k] == children[k]);
        let less = child_entries(init.remove(k));
        if !last.hidden() {
            let e = child_entry(last);
            assert(child_entries(children) == child_entries(init).push(e));
            assert(child_entries(children.remove(k)) == less.push(e));
            if children[k].hidden() {
                assert(child_entries(children).to_multiset() =~= less.push(e).to_multiset());
            } else {
                assert(child_entries(children).to_multiset() =~= less.push(e).to_multiset().insert(
                    child_entry(children[k]),
                ));
            }
        }
    }
}

/// The entries of the first children of a well-named directory have names of
/// their own.
proof fn lemma_well_named_prefix(children: Seq<ChildView>)
    requires
        children.len() > 0,
        well_named(children),
    ensures
        well_named(children.drop_last()),
{
    let init = children.drop_last();
    let all = child_entries(children);
    let some = child_entries(init);
    assert forall|i: int, j: int| 0 <= i < j < some.len() implies (#[trigger] some[i]).name != (
    #[trigger] some[j]).name by {
        assert(all[i] == some[i] && all[j] == some[j]);
    }
    assert forall|i: int| 0 <= i < init.len() implies child_well_named(#[trigger] init[i]) by {
        assert(init[i] == children[i]);
    }
}

/// The same children, in whatever order, give the same entries, each as
/// often.
pub proof fn lemma_same_children_entries(a: Seq<ChildView>, b: Seq<ChildView>)
    requires
        same_children(a, b),
        well_named(a),
    ensures
        child_entries(a).to_multiset() == child_entries(b).to_multiset(),
    decreases a, 1int,
{
    broadcast use vstd::seq_lib::group_to_multiset_ensures;
    broadcast use vstd::multiset::group_multiset_axioms;

    if a.len() == 0 {
        assert(child_entries(a) == child_entries(b));
    } else {
        let k = choose|k: int|
            0 <= k < b.len() && same_child(a.last(), #[trigger] b[k]) && same_children(
                a.drop_last(),
                b.remove(k),
            );
        let x = a.last();
        let y = b[k];
        assert(child_well_named(a[a.len() - 1]));
        lemma_same_child_entry(x, y);
        lemma_well_named_prefix(a);
        lemma_same_children_entries(a.drop_last(), b.remove(k));
        lemma_entries_without(b, k);
        if !x.hidden() {
            assert(child_entries(a) == child_entries(a.drop_last()).push(child_entry(x)));
            assert(child_entries(a).to_multiset() =~= child_entries(
                a.drop_last(),
            ).to_multiset().insert(child_entry(x)));
        }
    }
}

/// The same child gives the same entry.
pub proof fn lemma_same_child_entry(a: ChildView, b: ChildView)
    requires
        same_child(a, b),
        child_well_named(a),
    ensures
        child_entry(a) == child_entry(b),
        a.hidden() == b.hidden(),
    decreases a, 0int,
{
    match a {
        ChildView::File { .. } => {},
        ChildView::Directory { name, mode, children } => {
            lemma_same_children_entries(children, b->Directory_children);
            lemma_tree_digest_order_free(
                child_entries(children),
                child_entries(b->Directory_children),
            );
        },
    }
}

/// Two directories that hold the same files and directories, found in
/// whatever order at every level, have the same digest.
pub proof fn lemma_directory_digest_order_free(a: Seq<ChildView>, b: Seq<ChildView>)
    requires
        same_children(a, b),
        well_named(a),
    ensures
        tree_digest(child_entries(a)) == tree_digest(child_entries(b)),
{
    lemma_same_children_entries(a, b);
    lemma_tree_digest_order_free(child_entries(a), child_entries(b));
}

/// Mapping a concatenation maps its parts.
proof fn lemma_map_add<A, B>(a: Seq<A>, b: Seq<A>, f: spec_fn(A) -> B)
    ensures
        (a + b).map_values(f) == a.map_values(f) + b.map_values(f),
{
    assert((a + b).map_values(f) =~= a.map_values(f) + b.map_values(f));
}

} // verus!
