use vstd::prelude::*;
use crate::components::{lemma_remove_all, lemma_remove_all_absent, remove_all};
use crate::entity::Entity;
use crate::events::HierarchyEvent;
use crate::model::{
    distinct, lemma_destroy_live_count, lemma_distinct, lemma_present, listed, live_count, present,
    WorldView,
};

verus! {

/// The mirror invariant, spelled out: in a well-formed state an entity has the
/// parent `parent` exactly when the list of `parent` names it, and then the list
/// names it at exactly one position.
pub proof fn lemma_mirror(s: WorldView, child: Entity, parent: Entity)
    requires
        s.wf(),
    ensures
        s.parent_of(child) == Some(parent) <==> s.lists(parent, child),
        s.lists(parent, child) ==> s.child_list(parent).filter(|e: Entity| e == child).len() == 1,
        s.lists(parent, child) ==> s.contains(parent) && s.contains(child),
{
    if s.parent_of(child) == Some(parent) {
        assert(s.lists(s.parent_of(child).unwrap(), child));
    }
    if s.lists(parent, child) {
        assert(s.children_of(parent).is_some());
        lemma_once(s.child_list(parent), child);
    }
}

/// A list without repetitions holds each of its entries once.
pub proof fn lemma_once(list: Seq<Entity>, e: Entity)
    requires
        list.no_duplicates(),
        list.contains(e),
    ensures
        list.filter(|x: Entity| x == e).len() == 1,
    decreases list.len(),
{
    reveal(Seq::filter);
    let is_e = |x: Entity| x == e;
    let init = list.drop_last();
    if list.last() == e {
        assert forall|x: Entity| init.contains(x) implies !is_e(x) by {
            let j = choose|j: int| 0 <= j < init.len() && init[j] == x;
            assert(list[j] == x);
        }
        init.lemma_all_neg_filter_empty(is_e);
    } else {
        let j = choose|j: int| 0 <= j < list.len() && list[j] == e;
        assert(init[j] == e);
        lemma_once(init, e);
    }
}

/// No entity ever has a children list that is present but empty.
pub proof fn lemma_no_empty_list(s: WorldView, parent: Entity)
    requires
        s.wf(),
    ensures
        s.children_of(parent) != Some(Seq::<Entity>::empty()),
{
}

/// What a concatenation holds.
pub proof fn lemma_concat_contains(a: Seq<Entity>, b: Seq<Entity>)
    ensures
        forall|e: Entity| #[trigger] (a + b).contains(e) <==> a.contains(e) || b.contains(e),
{
    assert forall|e: Entity| #[trigger] (a + b).contains(e) <==> a.contains(e) || b.contains(
        e,
    ) by {
        if (a + b).contains(e) {
            let i = choose|i: int| 0 <= i < (a + b).len() && (a + b)[i] == e;
            if i < a.len() {
                assert(a[i] == e);
            } else {
                assert(b[i - a.len()] == e);
            }
        }
        if a.contains(e) {
            let i = choose|i: int| 0 <= i < a.len() && a[i] == e;
            assert((a + b)[i] == e);
        }
        if b.contains(e) {
            let i = choose|i: int| 0 <= i < b.len() && b[i] == e;
            assert((a + b)[a.len() + i] == e);
        }
    }
}

/// Putting a batch into a list at a position: the result holds what the two hold,
/// and names nothing twice if neither does and they share nothing.
pub proof fn lemma_splice(kept: Seq<Entity>, index: int, batch: Seq<Entity>)
    requires
        0 <= index <= kept.len(),
        kept.no_duplicates(),
        batch.no_duplicates(),
        forall|e: Entity| batch.contains(e) ==> !kept.contains(e),
    ensures
        (kept.subrange(0, index) + batch + kept.subrange(index, kept.len() as int)).no_duplicates(),
        forall|e: Entity| #[trigger]
            (kept.subrange(0, index) + batch + kept.subrange(index, kept.len() as int)).contains(e)
                <==> kept.contains(e) || batch.contains(e),
{
    let front = kept.subrange(0, index);
    let back = kept.subrange(index, kept.len() as int);
    let all = front + batch + back;
    lemma_concat_contains(front, batch);
    lemma_concat_contains(front + batch, back);
    assert forall|e: Entity| front.contains(e) || back.contains(e) <==> kept.contains(e) by {
        if front.contains(e) {
            let i = choose|i: int| 0 <= i < front.len() && front[i] == e;
            assert(kept[i] == e);
        }
        if back.contains(e) {
            let i = choose|i: int| 0 <= i < back.len() && back[i] == e;
            assert(kept[index + i] == e);
        }
        if kept.contains(e) {
            let i = choose|i: int| 0 <= i < kept.len() && kept[i] == e;
            if i < index {
                assert(front[i] == e);
            } else {
                assert(back[i - index] == e);
            }
        }
    }
    assert forall|i: int, j: int| 0 <= i < all.len() && 0 <= j < all.len() && i != j implies all[i]
        != all[j] by {
        let pos = |k: int|
            if k < index {
                k
            } else {
                k - batch.len()
            };
        let in_batch = |k: int| index <= k < index + batch.len();
        if in_batch(i) {
            assert(batch.contains(all[i]));
        } else {
            assert(kept[pos(i)] == all[i]);
            assert(kept.contains(all[i]));
        }
        if in_batch(j) {
            assert(batch.contains(all[j]));
        } else {
            assert(kept[pos(j)] == all[j]);
            assert(kept.contains(all[j]));
        }
        if in_batch(i) && in_batch(j) {
            assert(batch[i - index] == all[i]);
            assert(batch[j - index] == all[j]);
        }
    }
}

/// Giving `parent` a list that names exactly the entities whose parent it is
/// settles a state in which only children of `parent` are loose.
pub proof fn lemma_settle(s: WorldView, parent: Entity, loose: Seq<Entity>, list: Seq<Entity>)
    requires
        s.wf_except(loose),
        s.contains(parent),
        forall|c: Entity| loose.contains(c) ==> s.contains(c) && s.parent_of(c) == Some(parent),
        list.no_duplicates(),
        forall|c: Entity| #[trigger] list.contains(c) <==> s.lists(parent, c) || loose.contains(c),
    ensures
        s.with_children(parent, listed(list)).wf(),
{
    let t = s.with_children(parent, listed(list));
    let none = Seq::<Entity>::empty();
    assert forall|p: Entity, c: Entity| #[trigger] t.lists(p, c) implies t.parent_of(c) == Some(
        p,
    ) by {
        if p == parent {
            assert(list.contains(c));
            if s.lists(parent, c) {
            }
        } else {
            assert(s.lists(p, c));
        }
    }
    assert forall|c: Entity| #![trigger t.parent_of(c)] t.parent_of(c).is_some() implies t.lists(
        t.parent_of(c).unwrap(),
        c,
    ) || none.contains(c) by {
        let p = s.parent_of(c).unwrap();
        if p == parent {
            assert(s.lists(parent, c) || loose.contains(c));
            assert(list.contains(c));
        } else {
            assert(s.lists(p, c) || loose.contains(c));
            assert(t.children_of(p) == s.children_of(p));
        }
    }
    assert forall|p: Entity| #![trigger t.children_of(p)] t.children_of(p).is_some() implies
        t.children_of(p).unwrap().len() > 0 && t.children_of(p).unwrap().no_duplicates() by {
        if p != parent {
            assert(t.children_of(p) == s.children_of(p));
        }
    }
    assert forall|e: Entity| #![trigger t.children_of(e)] !t.contains(e) implies t.children_of(
        e,
    ).is_none() by {
        assert(!s.contains(e));
        assert(s.children_of(e).is_none());
    }
    assert forall|e: Entity| #![trigger t.parent_of(e)] !t.contains(e) implies t.parent_of(
        e,
    ).is_none() by {
        assert(!s.contains(e));
        assert(s.parent_of(e).is_none());
    }
}

/// A single-edge change leaves the state well-formed but for the child, whose new
/// parent does not list it yet.
pub proof fn lemma_reparent(s: WorldView, child: Entity, parent: Entity, loose: Seq<Entity>)
    requires
        s.wf_except(loose),
        s.contains(child),
        s.contains(parent),
    ensures
        s.reparent(child, parent).wf_except(loose.push(child)),
        s.reparent(child, parent).parent_of(child) == Some(parent),
        s.reparent(child, parent).children_of(parent) == s.children_of(parent),
        forall|e: Entity| e != child ==> s.reparent(child, parent).parent_of(e) == s.parent_of(e),
        forall|e: Entity| s.reparent(child, parent).contains(e) == s.contains(e),
{
    let t = s.reparent(child, parent);
    let after = loose.push(child);
    assert(after[after.len() - 1] == child);
    assert forall|c: Entity| loose.contains(c) implies after.contains(c) by {
        let i = choose|i: int| 0 <= i < loose.len() && loose[i] == c;
        assert(after[i] == c);
    }
    match s.parent_of(child) {
        Some(previous) => {
            if previous != parent {
                let old_list = s.child_list(previous);
                lemma_remove_all(old_list, seq![child]);
                assert(seq![child][0] == child);
                assert forall|p: Entity, c: Entity| #[trigger] t.lists(p, c) implies t.parent_of(c)
                    == Some(p) by {
                    if p == previous {
                        assert(s.children_of(previous).is_some());
                        assert(old_list.contains(c));
                        assert(s.lists(p, c));
                        assert(c != child);
                    } else {
                        assert(t.children_of(p) == s.children_of(p));
                        assert(s.lists(p, c));
                        if c == child {
                            assert(s.parent_of(c) == Some(p));
                        }
                    }
                }
                assert forall|c: Entity| #![trigger t.parent_of(c)] t.parent_of(c).is_some() implies
                    t.lists(t.parent_of(c).unwrap(), c) || after.contains(c) by {
                    if c != child {
                        let p = s.parent_of(c).unwrap();
                        assert(s.lists(p, c) || loose.contains(c));
                        if s.lists(p, c) {
                            if p == previous {
                                assert(remove_all(old_list, seq![child]).contains(c));
                            } else {
                                assert(t.children_of(p) == s.children_of(p));
                            }
                        }
                    }
                }
                assert forall|p: Entity| #![trigger t.children_of(p)] t.children_of(
                    p,
                ).is_some() implies t.children_of(p).unwrap().len() > 0 && t.children_of(
                    p,
                ).unwrap().no_duplicates() by {
                    if p != previous {
                        assert(t.children_of(p) == s.children_of(p));
                    } else {
                        assert(s.children_of(p).is_some());
                    }
                }
                assert forall|e: Entity| #![trigger t.children_of(e)] !t.contains(e) implies
                    t.children_of(e).is_none() by {
                    assert(!s.contains(e));
                    assert(s.children_of(e).is_none());
                }
                assert forall|e: Entity| #![trigger t.parent_of(e)] !t.contains(e) implies
                    t.parent_of(e).is_none() by {
                    assert(!s.contains(e));
                    assert(s.parent_of(e).is_none());
                }
            } else {
                assert forall|c: Entity| #![trigger t.parent_of(c)] t.parent_of(c).is_some() implies
                    t.lists(t.parent_of(c).unwrap(), c) || after.contains(c) by {
                    assert(s.lists(s.parent_of(c).unwrap(), c) || loose.contains(c));
                }
            }
        },
        None => {
            assert forall|p: Entity, c: Entity| #[trigger] t.lists(p, c) implies t.parent_of(c)
                == Some(p) by {
                assert(t.children_of(p) == s.children_of(p));
                assert(s.lists(p, c));
            }
            assert forall|c: Entity| #![trigger t.parent_of(c)] t.parent_of(c).is_some() implies
                t.lists(t.parent_of(c).unwrap(), c) || after.contains(c) by {
                if c != child {
                    let p = s.parent_of(c).unwrap();
                    assert(s.lists(p, c) || loose.contains(c));
                    assert(t.children_of(p) == s.children_of(p));
                }
            }
            assert forall|p: Entity| #![trigger t.children_of(p)] t.children_of(
                p,
            ).is_some() implies t.children_of(p).unwrap().len() > 0 && t.children_of(
                p,
            ).unwrap().no_duplicates() by {
                assert(t.children_of(p) == s.children_of(p));
            }
            assert forall|e: Entity| #![trigger t.children_of(e)] !t.contains(e) implies
                t.children_of(e).is_none() by {
                assert(!s.contains(e));
                assert(s.children_of(e).is_none());
            }
            assert forall|e: Entity| #![trigger t.parent_of(e)] !t.contains(e) implies t.parent_of(
                e,
            ).is_none() by {
                assert(!s.contains(e));
                assert(s.parent_of(e).is_none());
            }
        },
    }
}

/// A batch of single-edge changes leaves the state well-formed but for the batch,
/// which has `parent` as its parent and is not in its list yet.
pub proof fn lemma_reparent_all(s: WorldView, parent: Entity, children: Seq<Entity>)
    requires
        s.wf(),
        s.contains(parent),
        s.holds_all(children),
    ensures
        s.reparent_all(parent, children).wf_except(children),
        forall|c: Entity|
            children.contains(c) ==> s.reparent_all(parent, children).parent_of(c) == Some(parent),
        forall|c: Entity|
            !children.contains(c) ==> s.reparent_all(parent, children).parent_of(c) == s.parent_of(c),
        s.reparent_all(parent, children).children_of(parent) == s.children_of(parent),
        forall|e: Entity| s.reparent_all(parent, children).contains(e) == s.contains(e),
    decreases children.len(),
{
    if children.len() == 0 {
        assert(children =~= Seq::<Entity>::empty());
    } else {
        let init = children.drop_last();
        let last = children.last();
        let mid = s.reparent_all(parent, init);
        assert(s.holds_all(init)) by {
            assert forall|i: int| 0 <= i < init.len() implies s.contains(#[trigger] init[i]) by {
                assert(init[i] == children[i]);
            }
        }
        lemma_reparent_all(s, parent, init);
        assert(children[children.len() - 1] == last);
        lemma_reparent(mid, last, parent, init);
        assert(init.push(last) =~= children);
        let t = s.reparent_all(parent, children);
        assert forall|c: Entity| children.contains(c) implies t.parent_of(c) == Some(parent) by {
            let i = choose|i: int| 0 <= i < children.len() && children[i] == c;
            if i < init.len() {
                assert(init[i] == c);
                assert(init.contains(c));
            }
        }
        assert forall|c: Entity| !children.contains(c) implies t.parent_of(c) == s.parent_of(c) by {
            if init.contains(c) {
                let i = choose|i: int| 0 <= i < init.len() && init[i] == c;
                assert(children[i] == c);
            }
        }
    }
}

/// Adding a child keeps the hierarchy well-formed.
pub proof fn lemma_add_child_wf(s: WorldView, parent: Entity, child: Entity)
    requires
        s.wf(),
        s.contains(parent),
        s.contains(child),
    ensures
        s.add_child(parent, child).wf(),
        s.add_child(parent, child).lists(parent, child),
        s.add_child(parent, child).parent_of(child) == Some(parent),
        forall|e: Entity| s.add_child(parent, child).contains(e) == s.contains(e),
{
    let loose = seq![child];
    let moved = s.reparent(child, parent);
    lemma_reparent(s, child, parent, Seq::empty());
    assert(Seq::<Entity>::empty().push(child) =~= loose);
    assert(loose[0] == child);
    let kept = moved.kept_children(parent, loose);
    lemma_remove_all(moved.child_list(parent), loose);
    lemma_splice(kept, kept.len() as int, loose);
    assert(kept.subrange(0, kept.len() as int) + loose + kept.subrange(
        kept.len() as int,
        kept.len() as int,
    ) =~= kept.push(child));
    lemma_settle(moved, parent, loose, kept.push(child));
    assert(kept.push(child).contains(child));
}

/// Inserting a child at a position of the list keeps the hierarchy well-formed.
pub proof fn lemma_insert_child_wf(s: WorldView, parent: Entity, index: usize, child: Entity)
    requires
        s.wf(),
        s.contains(parent),
        s.contains(child),
        index <= s.kept_children(parent, seq![child]).len(),
    ensures
        s.insert_child(parent, index, child).wf(),
        s.insert_child(parent, index, child).lists(parent, child),
        s.insert_child(parent, index, child).parent_of(child) == Some(parent),
        forall|e: Entity| s.insert_child(parent, index, child).contains(e) == s.contains(e),
{
    let loose = seq![child];
    let moved = s.reparent(child, parent);
    lemma_reparent(s, child, parent, Seq::empty());
    assert(Seq::<Entity>::empty().push(child) =~= loose);
    assert(loose[0] == child);
    let kept = moved.kept_children(parent, loose);
    lemma_remove_all(moved.child_list(parent), loose);
    lemma_splice(kept, index as int, loose);
    let list = kept.insert(index as int, child);
    assert(kept.subrange(0, index as int) + loose + kept.subrange(index as int, kept.len() as int)
        =~= list);
    lemma_settle(moved, parent, loose, list);
    assert(list[index as int] == child);
}

/// Adding a batch of children keeps the hierarchy well-formed.
pub proof fn lemma_add_children_wf(s: WorldView, parent: Entity, children: Seq<Entity>)
    requires
        s.wf(),
        s.contains(parent),
        s.holds_all(children),
    ensures
        s.add_children(parent, children).wf(),
        forall|c: Entity|
            children.contains(c) ==> s.add_children(parent, children).lists(parent, c),
        forall|e: Entity| s.add_children(parent, children).contains(e) == s.contains(e),
{
    let moved = s.reparent_all(parent, children);
    lemma_reparent_all(s, parent, children);
    let kept = moved.kept_children(parent, children);
    let batch = distinct(children);
    lemma_remove_all(moved.child_list(parent), children);
    lemma_distinct(children);
    lemma_splice(kept, kept.len() as int, batch);
    let list = kept + batch;
    assert(kept.subrange(0, kept.len() as int) + batch + kept.subrange(
        kept.len() as int,
        kept.len() as int,
    ) =~= list);
    lemma_settle(moved, parent, children, list);
}

/// Inserting a batch of children at a position keeps the hierarchy well-formed.
pub proof fn lemma_insert_children_wf(
    s: WorldView,
    parent: Entity,
    index: usize,
    children: Seq<Entity>,
)
    requires
        s.wf(),
        s.contains(parent),
        s.holds_all(children),
        index <= s.kept_children(parent, children).len(),
    ensures
        s.insert_children(parent, index, children).wf(),
        forall|c: Entity|
            children.contains(c) ==> s.insert_children(parent, index, children).lists(parent, c),
        forall|e: Entity| s.insert_children(parent, index, children).contains(e) == s.contains(e),
{
    let moved = s.reparent_all(parent, children);
    lemma_reparent_all(s, parent, children);
    let kept = moved.kept_children(parent, children);
    let batch = distinct(children);
    lemma_remove_all(moved.child_list(parent), children);
    lemma_distinct(children);
    lemma_splice(kept, index as int, batch);
    let list = kept.subrange(0, index as int) + batch + kept.subrange(
        index as int,
        kept.len() as int,
    );
    lemma_settle(moved, parent, children, list);
}

/// What [`WorldView::detach_each`] changes: the entities of the list lose their
/// parent attribute, everything else but the events stays.
pub proof fn lemma_detach_each(s: WorldView, parent: Entity, list: Seq<Entity>)
    ensures
        forall|e: Entity|
            s.detach_each(parent, list).parent_of(e) == if list.contains(e) {
                None
            } else {
                s.parent_of(e)
            },
        forall|e: Entity| s.detach_each(parent, list).children_of(e) == s.children_of(e),
        forall|e: Entity| s.detach_each(parent, list).contains(e) == s.contains(e),
    decreases list.len(),
{
    if list.len() > 0 {
        let init = list.drop_last();
        lemma_detach_each(s, parent, init);
        let t = s.detach_each(parent, list);
        assert(list[list.len() - 1] == list.last());
        assert forall|e: Entity| t.children_of(e) == s.children_of(e) by {
            let mid = s.detach_each(parent, init);
            assert(mid.children_of(e) == s.children_of(e));
        }
        assert forall|e: Entity| t.contains(e) == s.contains(e) by {
            let mid = s.detach_each(parent, init);
            assert(mid.contains(e) == s.contains(e));
        }
        assert forall|e: Entity|
            t.parent_of(e) == if list.contains(e) {
                None
            } else {
                s.parent_of(e)
            } by {
            let mid = s.detach_each(parent, init);
            assert(mid.parent_of(e) == if init.contains(e) {
                None
            } else {
                s.parent_of(e)
            });
            assert(mid.contains(e) == s.contains(e));
            if init.contains(e) {
                let i = choose|i: int| 0 <= i < init.len() && init[i] == e;
                assert(list[i] == e);
            }
            if list.contains(e) && e != list.last() {
                let i = choose|i: int| 0 <= i < list.len() && list[i] == e;
                assert(init[i] == e);
            }
        }
    }
}

/// Removing children keeps the hierarchy well-formed.
pub proof fn lemma_remove_children_wf(s: WorldView, parent: Entity, children: Seq<Entity>)
    requires
        s.wf(),
    ensures
        s.remove_children(parent, children).wf(),
        forall|c: Entity|
            children.contains(c) ==> !s.remove_children(parent, children).lists(parent, c),
        forall|c: Entity|
            children.contains(c) && s.lists(parent, c) ==> s.remove_children(
                parent,
                children,
            ).parent_of(c).is_none(),
        forall|e: Entity| s.remove_children(parent, children).contains(e) == s.contains(e),
{
    let none = Seq::<Entity>::empty();
    match s.children_of(parent) {
        Some(list) => {
            let found = present(list, children);
            let mid = s.detach_each(parent, found);
            let kept = remove_all(list, children);
            let t = mid.with_children(parent, listed(kept));
            lemma_present(list, children);
            lemma_detach_each(s, parent, found);
            lemma_remove_all(list, children);
            assert forall|e: Entity| t.contains(e) == s.contains(e) by {
                assert(mid.contains(e) == s.contains(e));
            }
            assert forall|e: Entity|
                t.parent_of(e) == if found.contains(e) {
                    None
                } else {
                    s.parent_of(e)
                } by {
                assert(mid.parent_of(e) == if found.contains(e) {
                    None
                } else {
                    s.parent_of(e)
                });
            }
            assert forall|p: Entity| p != parent implies t.children_of(p) == s.children_of(p) by {
                assert(mid.children_of(p) == s.children_of(p));
            }
            assert forall|p: Entity, c: Entity| #[trigger] t.lists(p, c) implies t.parent_of(c)
                == Some(p) by {
                if p == parent {
                    assert(kept.contains(c));
                    assert(s.lists(p, c));
                } else {
                    assert(t.children_of(p) == s.children_of(p));
                    assert(s.lists(p, c));
                    if found.contains(c) {
                        assert(s.lists(parent, c));
                    }
                }
            }
            assert forall|c: Entity| #![trigger t.parent_of(c)] t.parent_of(c).is_some() implies
                t.lists(t.parent_of(c).unwrap(), c) || none.contains(c) by {
                let p = s.parent_of(c).unwrap();
                assert(s.lists(p, c) || none.contains(c));
                if p == parent {
                    assert(kept.contains(c));
                } else {
                    assert(t.children_of(p) == s.children_of(p));
                }
            }
            assert forall|p: Entity| #![trigger t.children_of(p)] t.children_of(
                p,
            ).is_some() implies t.children_of(p).unwrap().len() > 0 && t.children_of(
                p,
            ).unwrap().no_duplicates() by {
                if p != parent {
                    assert(t.children_of(p) == s.children_of(p));
                }
            }
            assert forall|e: Entity| #![trigger t.children_of(e)] !t.contains(e) implies
                t.children_of(e).is_none() by {
                assert(!s.contains(e));
                assert(s.children_of(e).is_none());
            }
            assert forall|e: Entity| #![trigger t.parent_of(e)] !t.contains(e) implies t.parent_of(
                e,
            ).is_none() by {
                assert(!s.contains(e));
                assert(s.parent_of(e).is_none());
            }
            assert forall|c: Entity| children.contains(c) implies !t.lists(parent, c) by {
                if t.lists(parent, c) {
                    assert(kept.contains(c));
                }
            }
        },
        None => {},
    }
}

/// Removing all children keeps the hierarchy well-formed, and the former children
/// stay alive without a parent.
pub proof fn lemma_remove_all_children_wf(s: WorldView, parent: Entity)
    requires
        s.wf(),
    ensures
        s.remove_all_children(parent).wf(),
        s.remove_all_children(parent).children_of(parent).is_none(),
        forall|c: Entity|
            s.lists(parent, c) ==> s.remove_all_children(parent).parent_of(c).is_none(),
        forall|e: Entity| s.remove_all_children(parent).contains(e) == s.contains(e),
{
    let none = Seq::<Entity>::empty();
    match s.children_of(parent) {
        Some(list) => {
            let mid = s.with_children(parent, None);
            let t = mid.detach_each(parent, list);
            lemma_detach_each(mid, parent, list);
            assert forall|e: Entity| t.contains(e) == s.contains(e) by {
                assert(t.contains(e) == mid.contains(e));
            }
            assert forall|e: Entity|
                t.parent_of(e) == if list.contains(e) {
                    None
                } else {
                    s.parent_of(e)
                } by {
                assert(t.parent_of(e) == if list.contains(e) {
                    None
                } else {
                    mid.parent_of(e)
                });
            }
            assert forall|p: Entity|
                t.children_of(p) == if p == parent {
                    None
                } else {
                    s.children_of(p)
                } by {
                assert(t.children_of(p) == mid.children_of(p));
            }
            assert forall|p: Entity, c: Entity| #[trigger] t.lists(p, c) implies t.parent_of(c)
                == Some(p) by {
                assert(t.children_of(p).is_some());
                assert(p != parent);
                assert(s.lists(p, c));
                if list.contains(c) {
                    assert(s.lists(parent, c));
                }
            }
            assert forall|c: Entity| #![trigger t.parent_of(c)] t.parent_of(c).is_some() implies
                t.lists(t.parent_of(c).unwrap(), c) || none.contains(c) by {
                let p = s.parent_of(c).unwrap();
                assert(s.lists(p, c) || none.contains(c));
                assert(t.children_of(p) == s.children_of(p));
            }
            assert forall|p: Entity| #![trigger t.children_of(p)] t.children_of(
                p,
            ).is_some() implies t.children_of(p).unwrap().len() > 0 && t.children_of(
                p,
            ).unwrap().no_duplicates() by {
                assert(s.children_of(p).is_some());
            }
            assert forall|e: Entity| #![trigger t.children_of(e)] !t.contains(e) implies
                t.children_of(e).is_none() by {
                assert(!s.contains(e));
                assert(s.children_of(e).is_none());
            }
            assert forall|e: Entity| #![trigger t.parent_of(e)] !t.contains(e) implies t.parent_of(
                e,
            ).is_none() by {
                assert(!s.contains(e));
                assert(s.parent_of(e).is_none());
            }
        },
        None => {},
    }
}

/// Removing the parent of an entity keeps the hierarchy well-formed.
pub proof fn lemma_remove_parent_wf(s: WorldView, child: Entity)
    requires
        s.wf(),
    ensures
        s.remove_parent(child).wf(),
        s.remove_parent(child).parent_of(child).is_none(),
        forall|p: Entity| !s.remove_parent(child).lists(p, child),
        forall|e: Entity| s.remove_parent(child).contains(e) == s.contains(e),
{
    let none = Seq::<Entity>::empty();
    let t = s.remove_parent(child);
    match s.parent_of(child) {
        Some(parent) => {
            let list = s.child_list(parent);
            assert(s.lists(parent, child) || none.contains(child));
            lemma_remove_all(list, seq![child]);
            assert(seq![child][0] == child);
            assert forall|p: Entity, c: Entity| #[trigger] t.lists(p, c) implies t.parent_of(c)
                == Some(p) && c != child by {
                if p == parent {
                    assert(s.lists(p, c));
                } else {
                    assert(t.children_of(p) == s.children_of(p));
                    assert(s.lists(p, c));
                }
            }
            assert forall|c: Entity| #![trigger t.parent_of(c)] t.parent_of(c).is_some() implies
                t.lists(t.parent_of(c).unwrap(), c) || none.contains(c) by {
                let p = s.parent_of(c).unwrap();
                assert(s.lists(p, c) || none.contains(c));
                if p == parent {
                    assert(remove_all(list, seq![child]).contains(c));
                } else {
                    assert(t.children_of(p) == s.children_of(p));
                }
            }
            assert forall|p: Entity| #![trigger t.children_of(p)] t.children_of(
                p,
            ).is_some() implies t.children_of(p).unwrap().len() > 0 && t.children_of(
                p,
            ).unwrap().no_duplicates() by {
                if p != parent {
                    assert(t.children_of(p) == s.children_of(p));
                }
            }
            assert forall|e: Entity| #![trigger t.children_of(e)] !t.contains(e) implies
                t.children_of(e).is_none() by {
                assert(!s.contains(e));
                assert(s.children_of(e).is_none());
            }
            assert forall|e: Entity| #![trigger t.parent_of(e)] !t.contains(e) implies t.parent_of(
                e,
            ).is_none() by {
                assert(!s.contains(e));
                assert(s.parent_of(e).is_none());
            }
        },
        None => {
            assert forall|p: Entity| !t.lists(p, child) by {
                if s.lists(p, child) {
                }
            }
        },
    }
}

/// Idempotent re-parent: adding a child to the parent that it was just added to
/// changes nothing. The children lists and the event stream are those of the first
/// call.
pub proof fn lemma_add_child_idempotent(s: WorldView, parent: Entity, child: Entity)
    requires
        s.contains(parent),
        s.contains(child),
    ensures
        s.add_child(parent, child).add_child(parent, child) == s.add_child(parent, child),
{
    let once = s.add_child(parent, child);
    let moved = s.reparent(child, parent);
    let kept = moved.kept_children(parent, seq![child]);
    assert(moved.parent_of(child) == Some(parent));
    assert(once.parent_of(child) == Some(parent));
    assert(once.reparent(child, parent) == once);
    assert(once.child_list(parent) == kept.push(child));
    reveal(Seq::filter);
    assert(kept.push(child).drop_last() =~= kept);
    assert(seq![child][0] == child);
    assert(seq![child].contains(child));
    assert(remove_all(kept.push(child), seq![child]) == remove_all(kept, seq![child]));
    lemma_remove_all(moved.child_list(parent), seq![child]);
    lemma_remove_all_absent(kept, seq![child]);
    assert(once.kept_children(parent, seq![child]) == kept);
    assert(once.add_child(parent, child).slots =~= once.slots);
}

/// Move semantics: adding a child that has another parent takes it out of that
/// parent's list, puts it into the new parent's list, and emits exactly one
/// `ChildMoved`.
pub proof fn lemma_add_child_moves(s: WorldView, from: Entity, to: Entity, child: Entity)
    requires
        s.wf(),
        s.contains(child),
        s.contains(to),
        s.parent_of(child) == Some(from),
        from != to,
    ensures
        s.add_child(to, child).wf(),
        !s.add_child(to, child).lists(from, child),
        s.add_child(to, child).lists(to, child),
        s.add_child(to, child).parent_of(child) == Some(to),
        s.add_child(to, child).events == s.events.push(
            HierarchyEvent::ChildMoved { child, previous_parent: from, new_parent: to },
        ),
{
    lemma_add_child_wf(s, to, child);
    let t = s.add_child(to, child);
    if t.lists(from, child) {
        assert(t.parent_of(child) == Some(from));
    }
}

/// The invariant speaks of the slots alone: two states with the same slots are
/// well-formed together.
pub proof fn lemma_same_slots(s: WorldView, t: WorldView, loose: Seq<Entity>)
    requires
        s.slots == t.slots,
        s.wf_except(loose),
    ensures
        t.wf_except(loose),
{
    assert forall|e: Entity| t.parent_of(e) == s.parent_of(e) && t.children_of(e) == s.children_of(
        e,
    ) && t.contains(e) == s.contains(e) by {}
    assert forall|p: Entity, c: Entity| #[trigger] t.lists(p, c) implies t.parent_of(c) == Some(
        p,
    ) by {
        assert(s.lists(p, c));
    }
    assert forall|c: Entity| #![trigger t.parent_of(c)] t.parent_of(c).is_some() implies t.lists(
        t.parent_of(c).unwrap(),
        c,
    ) || loose.contains(c) by {
        assert(s.lists(s.parent_of(c).unwrap(), c) || loose.contains(c));
    }
    assert forall|p: Entity| #![trigger t.children_of(p)] t.children_of(p).is_some() implies
        t.children_of(p).unwrap().len() > 0 && t.children_of(p).unwrap().no_duplicates() by {
        assert(s.children_of(p).is_some());
    }
    assert forall|e: Entity| #![trigger t.children_of(e)] !t.contains(e) implies t.children_of(
        e,
    ).is_none() by {
        assert(s.children_of(e).is_none());
    }
    assert forall|e: Entity| #![trigger t.parent_of(e)] !t.contains(e) implies t.parent_of(
        e,
    ).is_none() by {
        assert(s.parent_of(e).is_none());
    }
}

/// Creating an entity keeps the hierarchy well-formed and touches no other entity.
pub proof fn lemma_spawn_wf(s: WorldView)
    requires
        s.wf(),
        s.slots.len() <= usize::MAX,
    ensures
        s.spawn().wf(),
        !s.contains(s.next_entity()),
        s.spawn().contains(s.next_entity()),
        s.spawn().parent_of(s.next_entity()).is_none(),
        s.spawn().children_of(s.next_entity()).is_none(),
        forall|e: Entity| s.contains(e) ==> s.spawn().contains(e),
{
    let t = s.spawn();
    let none = Seq::<Entity>::empty();
    assert forall|e: Entity| e != s.next_entity() implies t.parent_of(e) == s.parent_of(e)
        && t.children_of(e) == s.children_of(e) && t.contains(e) == s.contains(e) by {}
    assert forall|p: Entity, c: Entity| #[trigger] t.lists(p, c) implies t.parent_of(c) == Some(
        p,
    ) by {
        assert(s.lists(p, c));
    }
    assert forall|c: Entity| #![trigger t.parent_of(c)] t.parent_of(c).is_some() implies t.lists(
        t.parent_of(c).unwrap(),
        c,
    ) || none.contains(c) by {
        let p = s.parent_of(c).unwrap();
        assert(s.lists(p, c) || none.contains(c));
        assert(t.children_of(p) == s.children_of(p));
    }
    assert forall|p: Entity| #![trigger t.children_of(p)] t.children_of(p).is_some() implies
        t.children_of(p).unwrap().len() > 0 && t.children_of(p).unwrap().no_duplicates() by {
        assert(s.children_of(p).is_some());
    }
    assert forall|e: Entity| #![trigger t.children_of(e)] !t.contains(e) implies t.children_of(
        e,
    ).is_none() by {
        assert(!s.contains(e));
        assert(s.children_of(e).is_none());
    }
    assert forall|e: Entity| #![trigger t.parent_of(e)] !t.contains(e) implies t.parent_of(
        e,
    ).is_none() by {
        assert(!s.contains(e));
        assert(s.parent_of(e).is_none());
    }
}

/// Creating an entity as the last child of a parent keeps the hierarchy
/// well-formed.
pub proof fn lemma_spawn_child_wf(s: WorldView, parent: Entity)
    requires
        s.wf(),
        s.contains(parent),
        s.slots.len() <= usize::MAX,
    ensures
        s.spawn_child(parent).wf(),
        s.spawn_child(parent).contains(s.next_entity()),
        s.spawn_child(parent).parent_of(s.next_entity()) == Some(parent),
        s.spawn_child(parent).children_of(parent) == Some(
            s.child_list(parent).push(s.next_entity()),
        ),
        forall|e: Entity| s.contains(e) ==> s.spawn_child(parent).contains(e),
{
    let child = s.next_entity();
    lemma_spawn_wf(s);
    let born = s.spawn();
    let mid = born.with_parent(child, Some(parent));
    let loose = seq![child];
    let none = Seq::<Entity>::empty();
    assert(loose[0] == child);
    let list = s.child_list(parent).push(child);
    assert(born.child_list(parent) == s.child_list(parent));
    assert forall|c: Entity| #![trigger mid.parent_of(c)] mid.parent_of(c).is_some() implies
        mid.lists(mid.parent_of(c).unwrap(), c) || loose.contains(c) by {
        if c != child {
            let p = born.parent_of(c).unwrap();
            assert(born.lists(p, c) || none.contains(c));
            assert(mid.children_of(p) == born.children_of(p));
        }
    }
    assert forall|p: Entity, c: Entity| #[trigger] mid.lists(p, c) implies mid.parent_of(c) == Some(
        p,
    ) by {
        assert(mid.children_of(p) == born.children_of(p));
        assert(born.lists(p, c));
        assert(born.parent_of(c) == Some(p));
    }
    assert forall|p: Entity| #![trigger mid.children_of(p)] mid.children_of(p).is_some() implies
        mid.children_of(p).unwrap().len() > 0 && mid.children_of(p).unwrap().no_duplicates() by {
        assert(born.children_of(p).is_some());
    }
    assert forall|e: Entity| #![trigger mid.children_of(e)] !mid.contains(e) implies mid.children_of(
        e,
    ).is_none() by {
        assert(!born.contains(e));
        assert(born.children_of(e).is_none());
    }
    assert forall|e: Entity| #![trigger mid.parent_of(e)] !mid.contains(e) implies mid.parent_of(
        e,
    ).is_none() by {
        assert(!born.contains(e));
        assert(born.parent_of(e).is_none());
    }
    assert(mid.wf_except(loose));
    assert(!s.lists(parent, child)) by {
        if s.lists(parent, child) {
            assert(s.parent_of(child) == Some(parent));
        }
    }
    lemma_concat_contains(s.child_list(parent), loose);
    assert(s.child_list(parent) + loose =~= list);
    assert(list.no_duplicates()) by {
        if s.children_of(parent).is_some() {
        }
        vstd::seq_lib::lemma_no_dup_in_concat(s.child_list(parent), loose);
    }
    assert(mid.child_list(parent) == s.child_list(parent));
    lemma_settle(mid, parent, loose, list);
    assert(list[list.len() - 1] == child);
    lemma_same_slots(
        mid.with_children(parent, listed(list)),
        s.spawn_child(parent),
        Seq::empty(),
    );
}

/// What destroying one entity changes.
pub proof fn lemma_destroy(s: WorldView, e: Entity)
    requires
        s.contains(e),
    ensures
        forall|x: Entity| s.destroy(e).contains(x) == (s.contains(x) && x != e),
        forall|x: Entity| x != e ==> s.destroy(e).parent_of(x) == s.parent_of(x),
        s.destroy(e).parent_of(e).is_none(),
        forall|q: Entity|
            s.destroy(e).children_of(q) == if q == e {
                None
            } else if s.parent_of(e) == Some(q) && s.contains(q) && s.children_of(q).is_some() {
                listed(remove_all(s.children_of(q).unwrap(), seq![e]))
            } else {
                s.children_of(q)
            },
{
}

/// Destroying the first entity of the queue keeps the state well-formed but for
/// the rest of the queue and the children of the destroyed entity.
pub proof fn lemma_destroy_pending(s: WorldView, e: Entity, rest: Seq<Entity>)
    requires
        s.wf_except(seq![e] + rest),
        s.contains(e),
    ensures
        s.destroy(e).wf_except(rest + s.child_list(e)),
{
    let t = s.destroy(e);
    let before = seq![e] + rest;
    let after = rest + s.child_list(e);
    lemma_destroy(s, e);
    lemma_concat_contains(seq![e], rest);
    lemma_concat_contains(rest, s.child_list(e));
    assert(seq![e][0] == e);
    assert forall|x: Entity| seq![e].contains(x) implies x == e by {}
    if s.parent_of(e).is_some() {
        let p = s.parent_of(e).unwrap();
        lemma_remove_all(s.child_list(p), seq![e]);
    }
    assert forall|q: Entity, x: Entity| #[trigger] t.lists(q, x) implies s.lists(q, x) && x != e
        && q != e by {
        assert(t.children_of(q).is_some());
        assert(s.children_of(q).is_some());
        assert(s.contains(q));
        if x == e {
            assert(s.lists(q, x));
            assert(s.parent_of(e) == Some(q));
        }
    }
    assert forall|q: Entity, x: Entity| #[trigger] t.lists(q, x) implies t.parent_of(x) == Some(
        q,
    ) by {
        assert(s.lists(q, x));
    }
    assert forall|x: Entity| #![trigger t.parent_of(x)] t.parent_of(x).is_some() implies t.lists(
        t.parent_of(x).unwrap(),
        x,
    ) || after.contains(x) by {
        let q = s.parent_of(x).unwrap();
        assert(s.lists(q, x) || before.contains(x));
        assert(x != e);
        if s.lists(q, x) {
            if q == e {
                assert(s.child_list(e).contains(x));
            } else {
                assert(s.children_of(q).is_some());
                if s.parent_of(e) == Some(q) {
                    assert(remove_all(s.child_list(q), seq![e]).contains(x));
                }
                assert(t.lists(q, x));
            }
        }
    }
    assert forall|q: Entity| #![trigger t.children_of(q)] t.children_of(q).is_some() implies
        t.children_of(q).unwrap().len() > 0 && t.children_of(q).unwrap().no_duplicates() by {
        assert(s.children_of(q).is_some());
    }
    assert forall|x: Entity| #![trigger t.children_of(x)] !t.contains(x) implies t.children_of(
        x,
    ).is_none() by {
        if x != e {
            assert(!s.contains(x));
            assert(s.children_of(x).is_none());
        }
    }
    assert forall|x: Entity| #![trigger t.parent_of(x)] !t.contains(x) implies t.parent_of(
        x,
    ).is_none() by {
        if x != e {
            assert(!s.contains(x));
            assert(s.parent_of(x).is_none());
        }
    }
}

/// Destroying a queue of entities with all their descendants leaves no entity of
/// the queue, brings no entity to life, and leaves the entities that stay the
/// parent they had.
pub proof fn lemma_drain_frame(s: WorldView, queue: Seq<Entity>)
    ensures
        forall|x: Entity| queue.contains(x) ==> !s.drain(queue).contains(x),
        forall|x: Entity| s.drain(queue).contains(x) ==> s.contains(x),
        forall|x: Entity| s.drain(queue).contains(x) ==> s.drain(queue).parent_of(x) == s.parent_of(x),
    decreases live_count(s.slots), queue.len(),
{
    if queue.len() > 0 {
        let e = queue.first();
        let rest = queue.drop_first();
        assert(queue =~= seq![e] + rest);
        lemma_concat_contains(seq![e], rest);
        assert(seq![e][0] == e);
        let t = s.drain(queue);
        if s.contains(e) {
            let next = s.destroy(e);
            let more = rest + s.child_list(e);
            lemma_destroy_live_count(s, e);
            lemma_destroy(s, e);
            lemma_drain_frame(next, more);
            lemma_concat_contains(rest, s.child_list(e));
            assert forall|x: Entity| queue.contains(x) implies !t.contains(x) by {
                if x == e {
                    if t.contains(x) {
                        assert(next.contains(x));
                    }
                } else {
                    assert(rest.contains(x));
                    assert(more.contains(x));
                }
            }
            assert forall|x: Entity| t.contains(x) implies s.contains(x) && t.parent_of(x)
                == s.parent_of(x) by {
                assert(next.contains(x));
            }
        } else {
            lemma_drain_frame(s, rest);
            assert forall|x: Entity| queue.contains(x) implies !t.contains(x) by {
                if x != e {
                    assert(rest.contains(x));
                }
            }
        }
    }
}

/// The event that reports `child` as removed from `parent`.
pub open spec fn removal(child: Entity, parent: Entity) -> HierarchyEvent {
    HierarchyEvent::ChildRemoved { child, parent }
}

/// The events that the step from `s` to `t` added, if `t` continues the events of
/// `s`.
pub open spec fn new_events(s: WorldView, t: WorldView) -> Seq<HierarchyEvent> {
    t.events.skip(s.events.len() as int)
}

/// Whether the step from `s` to `t` reports exactly the entities that it destroyed
/// while they had a parent: the events of `s` are kept, each new event says of
/// such an entity that it was removed from the parent it had, there is such an
/// event for each of them, and no event occurs twice.
pub open spec fn reports_destroyed(s: WorldView, t: WorldView) -> bool {
    &&& s.events.len() <= t.events.len()
    &&& t.events.take(s.events.len() as int) == s.events
    &&& forall|i: int|
        0 <= i < new_events(s, t).len() ==> (#[trigger] new_events(s, t)[i]
            matches HierarchyEvent::ChildRemoved { child, parent } && s.contains(child)
            && !t.contains(child) && s.parent_of(child) == Some(parent))
    &&& forall|x: Entity, p: Entity|
        s.contains(x) && !t.contains(x) && s.parent_of(x) == Some(p) ==> new_events(s, t).contains(
            #[trigger] removal(x, p),
        )
    &&& new_events(s, t).no_duplicates()
}

/// Each entity that is destroyed while it has a parent is reported once as removed
/// from that parent, and nothing else is reported.
pub proof fn lemma_drain_reports(s: WorldView, queue: Seq<Entity>)
    ensures
        reports_destroyed(s, s.drain(queue)),
    decreases live_count(s.slots), queue.len(),
{
    let t = s.drain(queue);
    if queue.len() == 0 {
        assert(new_events(s, t) =~= Seq::<HierarchyEvent>::empty());
        assert(t.events.take(s.events.len() as int) =~= s.events);
    } else {
        let e = queue.first();
        let rest = queue.drop_first();
        if s.contains(e) {
            let next = s.destroy(e);
            let more = rest + s.child_list(e);
            lemma_destroy_live_count(s, e);
            lemma_destroy(s, e);
            lemma_drain_frame(next, more);
            lemma_drain_reports(next, more);
            let later = new_events(next, t);
            let all = new_events(s, t);
            assert(t.events.take(next.events.len() as int) == next.events);
            match s.parent_of(e) {
                Some(p) => {
                    let first = HierarchyEvent::ChildRemoved { child: e, parent: p };
                    assert(next.events == s.events.push(first));
                    assert(t.events.take(s.events.len() as int) =~= next.events.take(
                        s.events.len() as int,
                    )) by {
                        assert forall|i: int| 0 <= i < s.events.len() implies t.events[i]
                            == next.events[i] by {
                            assert(t.events.take(next.events.len() as int)[i] == next.events[i]);
                        }
                    }
                    assert(next.events.take(s.events.len() as int) =~= s.events);
                    assert(all =~= seq![first] + later) by {
                        assert(t.events.take(next.events.len() as int)[s.events.len() as int]
                            == first);
                    }
                    assert forall|i: int| 0 <= i < all.len() implies (#[trigger] all[i]
                        matches HierarchyEvent::ChildRemoved { child, parent } && s.contains(child)
                        && !t.contains(child) && s.parent_of(child) == Some(parent)) by {
                        if i > 0 {
                            assert(all[i] == later[i - 1]);
                        }
                    }
                    assert forall|x: Entity, q: Entity|
                        s.contains(x) && !t.contains(x) && s.parent_of(x) == Some(
                            q,
                        ) implies all.contains(
                        #[trigger] removal(x, q),
                    ) by {
                        let event = HierarchyEvent::ChildRemoved { child: x, parent: q };
                        if x == e {
                            assert(all[0] == event);
                        } else {
                            assert(next.contains(x));
                            assert(later.contains(event));
                            let i = choose|i: int| 0 <= i < later.len() && later[i] == event;
                            assert(all[i + 1] == event);
                        }
                    }
                    assert forall|i: int, j: int|
                        0 <= i < all.len() && 0 <= j < all.len() && i != j implies all[i]
                        != all[j] by {
                        if i > 0 {
                            assert(all[i] == later[i - 1]);
                        }
                        if j > 0 {
                            assert(all[j] == later[j - 1]);
                        }
                    }
                },
                None => {
                    assert(next.events == s.events);
                    assert(all =~= later);
                    assert forall|x: Entity, q: Entity|
                        s.contains(x) && !t.contains(x) && s.parent_of(x) == Some(
                            q,
                        ) implies all.contains(
                        #[trigger] removal(x, q),
                    ) by {
                        assert(next.contains(x));
                    }
                },
            }
        } else {
            lemma_drain_reports(s, rest);
        }
    }
}

/// Destroying a queue of entities with all their descendants settles a state
/// in which only entities of the queue are loose.
pub proof fn lemma_drain(s: WorldView, queue: Seq<Entity>)
    requires
        s.wf_except(queue),
    ensures
        s.drain(queue).wf(),
    decreases live_count(s.slots), queue.len(),
{
    if queue.len() == 0 {
        assert(queue =~= Seq::<Entity>::empty());
    } else {
        let e = queue.first();
        let rest = queue.drop_first();
        assert(queue =~= seq![e] + rest);
        lemma_concat_contains(seq![e], rest);
        assert(seq![e][0] == e);
        let t = s.drain(queue);
        if s.contains(e) {
            let next = s.destroy(e);
            let more = rest + s.child_list(e);
            lemma_destroy_live_count(s, e);
            lemma_destroy_pending(s, e, rest);
            lemma_drain(next, more);
        } else {
            assert forall|x: Entity| #![trigger s.parent_of(x)] s.parent_of(x).is_some() implies
                s.lists(s.parent_of(x).unwrap(), x) || rest.contains(x) by {
                assert(s.lists(s.parent_of(x).unwrap(), x) || queue.contains(x));
                assert(s.contains(x));
            }
            lemma_drain(s, rest);
        }
    }
}

/// Cascading destruction: destroying an entity keeps the hierarchy well-formed,
/// the entity is gone, no other entity changes its parent, and an entity whose
/// parent is gone is gone too, so the whole subtree disappears.
pub proof fn lemma_despawn(s: WorldView, e: Entity)
    requires
        s.wf(),
    ensures
        s.despawn(e).wf(),
        !s.despawn(e).contains(e),
        forall|x: Entity| s.despawn(e).contains(x) ==> s.contains(x),
        forall|x: Entity| s.despawn(e).contains(x) ==> s.despawn(e).parent_of(x) == s.parent_of(x),
        forall|x: Entity, p: Entity|
            s.parent_of(x) == Some(p) && !s.despawn(e).contains(p) ==> !s.despawn(e).contains(x),
{
    let t = s.despawn(e);
    let queue = seq![e];
    assert(queue[0] == e);
    assert forall|x: Entity| #![trigger s.parent_of(x)] s.parent_of(x).is_some() implies s.lists(
        s.parent_of(x).unwrap(),
        x,
    ) || queue.contains(x) by {
        assert(s.lists(s.parent_of(x).unwrap(), x) || Seq::<Entity>::empty().contains(x));
    }
    lemma_drain(s, queue);
    lemma_drain_frame(s, queue);
    assert(queue.contains(e));
    assert(!s.drain(queue).contains(e));
    assert forall|x: Entity, p: Entity| s.parent_of(x) == Some(p) && !t.contains(p) implies
        !t.contains(x) by {
        if t.contains(x) {
            assert(t.parent_of(x) == Some(p));
            assert(t.lists(p, x) || Seq::<Entity>::empty().contains(x));
            assert(t.children_of(p).is_some());
        }
    }
}

/// Cascading destruction reports each entity that it destroys while the entity has
/// a parent once as removed from that parent, and nothing else.
pub proof fn lemma_despawn_reports(s: WorldView, e: Entity)
    ensures
        reports_destroyed(s, s.despawn(e)),
{
    lemma_drain_reports(s, seq![e]);
}

/// Destroying the descendants of an entity reports each entity that it destroys
/// while the entity has a parent once as removed from that parent, and nothing
/// else.
pub proof fn lemma_despawn_descendants_reports(s: WorldView, e: Entity)
    ensures
        reports_destroyed(s, s.despawn_descendants(e)),
{
    let t = s.despawn_descendants(e);
    match s.children_of(e) {
        Some(list) => {
            let cut = s.with_children(e, None);
            lemma_drain_reports(cut, list);
            assert(new_events(s, t) == new_events(cut, t));
            assert forall|x: Entity| cut.contains(x) == s.contains(x) && cut.parent_of(x)
                == s.parent_of(x) by {}
            assert forall|x: Entity, p: Entity|
                s.contains(x) && !t.contains(x) && s.parent_of(x) == Some(p) implies new_events(
                s,
                t,
            ).contains(#[trigger] removal(x, p)) by {
                assert(cut.contains(x) && cut.parent_of(x) == Some(p));
            }
        },
        None => {
            assert(new_events(s, t) =~= Seq::<HierarchyEvent>::empty());
            assert(t.events.take(s.events.len() as int) =~= s.events);
        },
    }
}

/// Destroying the descendants of an entity keeps the hierarchy well-formed: the
/// entity has no children left, its former children are gone, no other entity
/// changes its parent, and an entity whose parent is gone is gone too.
pub proof fn lemma_despawn_descendants(s: WorldView, e: Entity)
    requires
        s.wf(),
    ensures
        s.despawn_descendants(e).wf(),
        s.despawn_descendants(e).children_of(e).is_none(),
        forall|c: Entity| s.lists(e, c) ==> !s.despawn_descendants(e).contains(c),
        forall|x: Entity| s.despawn_descendants(e).contains(x) ==> s.contains(x),
        forall|x: Entity|
            s.despawn_descendants(e).contains(x) ==> s.despawn_descendants(e).parent_of(x)
                == s.parent_of(x),
        forall|x: Entity, p: Entity|
            s.parent_of(x) == Some(p) && !s.despawn_descendants(e).contains(p)
                ==> !s.despawn_descendants(e).contains(x),
{
    let t = s.despawn_descendants(e);
    let none = Seq::<Entity>::empty();
    match s.children_of(e) {
        Some(list) => {
            let cut = s.with_children(e, None);
            assert forall|x: Entity| #![trigger cut.parent_of(x)] cut.parent_of(
                x,
            ).is_some() implies cut.lists(cut.parent_of(x).unwrap(), x) || list.contains(x) by {
                let p = s.parent_of(x).unwrap();
                assert(s.lists(p, x) || none.contains(x));
                if p != e {
                    assert(cut.children_of(p) == s.children_of(p));
                }
            }
            assert forall|q: Entity, x: Entity| #[trigger] cut.lists(q, x) implies cut.parent_of(x)
                == Some(q) by {
                assert(cut.children_of(q).is_some());
                assert(s.lists(q, x));
            }
            assert forall|q: Entity| #![trigger cut.children_of(q)] cut.children_of(
                q,
            ).is_some() implies cut.children_of(q).unwrap().len() > 0 && cut.children_of(
                q,
            ).unwrap().no_duplicates() by {
                assert(s.children_of(q).is_some());
            }
            assert forall|x: Entity| #![trigger cut.children_of(x)] !cut.contains(x) implies
                cut.children_of(x).is_none() by {
                assert(!s.contains(x));
                assert(s.children_of(x).is_none());
            }
            assert forall|x: Entity| #![trigger cut.parent_of(x)] !cut.contains(x) implies
                cut.parent_of(x).is_none() by {
                assert(!s.contains(x));
                assert(s.parent_of(x).is_none());
            }
            lemma_drain(cut, list);
            lemma_drain_frame(cut, list);
            assert(t == cut.drain(list));
            assert forall|x: Entity| t.contains(x) implies s.contains(x) && t.parent_of(x)
                == s.parent_of(x) by {
                assert(cut.drain(list).contains(x));
                assert(cut.contains(x));
                assert(cut.parent_of(x) == s.parent_of(x));
            }
            assert forall|c: Entity| s.lists(e, c) implies !t.contains(c) by {
                assert(list.contains(c));
                assert(!cut.drain(list).contains(c));
            }
            assert(t.children_of(e).is_none()) by {
                if t.children_of(e).is_some() {
                    let l = t.children_of(e).unwrap();
                    assert(l.len() > 0);
                    let c = l[0];
                    assert(t.lists(e, c));
                    assert(t.parent_of(c) == Some(e));
                    assert(t.contains(c));
                    assert(s.parent_of(c) == Some(e));
                    assert(s.lists(e, c) || none.contains(c));
                }
            }
        },
        None => {},
    }
    assert forall|x: Entity, p: Entity| s.parent_of(x) == Some(p) && !t.contains(p) implies
        !t.contains(x) by {
        if t.contains(x) {
            assert(t.parent_of(x) == Some(p));
            assert(t.lists(p, x) || none.contains(x));
            assert(t.children_of(p).is_some());
        }
    }
}

} // verus!
