//! The order paths sort in is a strict total order on what they name, so a
//! sorted list is sorted in the one way, whatever order it arrived in.

use vstd::prelude::*;

use crate::files::{
    PathKeyed, chars_lt, component_lt, components_lt, insert_by_path, insert_in_order,
    path_lt, rank, sorted_by_path, sorted_paths,
};

verus! {

proof fn lemma_chars_irreflexive(a: Seq<char>)
    ensures
        !chars_lt(a, a),
    decreases a.len(),
{
    if a.len() > 0 {
        lemma_chars_irreflexive(a.drop_first());
    }
}

proof fn lemma_chars_transitive(a: Seq<char>, b: Seq<char>, c: Seq<char>)
    requires
        chars_lt(a, b),
        chars_lt(b, c),
    ensures
        chars_lt(a, c),
    decreases a.len(),
{
    if a.len() > 0 && b.len() > 0 && c.len() > 0 && a[0] == b[0] && b[0] == c[0] {
        lemma_chars_transitive(a.drop_first(), b.drop_first(), c.drop_first());
    }
}

proof fn lemma_chars_total(a: Seq<char>, b: Seq<char>)
    requires
        a != b,
    ensures
        chars_lt(a, b) || chars_lt(b, a),
    decreases a.len(),
{
    if a.len() > 0 && b.len() > 0 && a[0] == b[0] {
        if a.drop_first() == b.drop_first() {
            assert(a =~= seq![a[0]] + a.drop_first());
            assert(b =~= seq![b[0]] + b.drop_first());
        }
        lemma_chars_total(a.drop_first(), b.drop_first());
    } else if a.len() == 0 && b.len() == 0 {
        assert(a =~= b);
    }
}

proof fn lemma_rank_names(x: Seq<char>)
    ensures
        rank(x) == 0 ==> x == "/"@,
        rank(x) == 1 ==> x == "."@,
        rank(x) == 2 ==> x == ".."@,
        0 <= rank(x) <= 3,
{
}

proof fn lemma_component_irreflexive(x: Seq<char>)
    ensures
        !component_lt(x, x),
{
    lemma_chars_irreflexive(x);
}

proof fn lemma_component_transitive(x: Seq<char>, y: Seq<char>, z: Seq<char>)
    requires
        component_lt(x, y),
        component_lt(y, z),
    ensures
        component_lt(x, z),
{
    if rank(x) == 3 && rank(y) == 3 && rank(z) == 3 {
        lemma_chars_transitive(x, y, z);
    }
}

proof fn lemma_component_total(x: Seq<char>, y: Seq<char>)
    requires
        x != y,
    ensures
        component_lt(x, y) || component_lt(y, x),
{
    lemma_rank_names(x);
    lemma_rank_names(y);
    if rank(x) == 3 && rank(y) == 3 {
        lemma_chars_total(x, y);
    }
}

pub proof fn lemma_components_irreflexive(a: Seq<Seq<char>>)
    ensures
        !components_lt(a, a),
    decreases a.len(),
{
    if a.len() > 0 {
        lemma_components_irreflexive(a.drop_first());
    }
}

pub proof fn lemma_components_transitive(a: Seq<Seq<char>>, b: Seq<Seq<char>>, c: Seq<Seq<char>>)
    requires
        components_lt(a, b),
        components_lt(b, c),
    ensures
        components_lt(a, c),
    decreases a.len(),
{
    if a.len() > 0 && b.len() > 0 && c.len() > 0 {
        if a[0] == b[0] && b[0] == c[0] {
            lemma_components_transitive(a.drop_first(), b.drop_first(), c.drop_first());
        } else if a[0] != b[0] && b[0] != c[0] {
            lemma_component_transitive(a[0], b[0], c[0]);
            if a[0] == c[0] {
                lemma_component_irreflexive(a[0]);
            }
        }
    }
}

pub proof fn lemma_components_total(a: Seq<Seq<char>>, b: Seq<Seq<char>>)
    requires
        a != b,
    ensures
        components_lt(a, b) || components_lt(b, a),
    decreases a.len(),
{
    if a.len() > 0 && b.len() > 0 {
        if a[0] == b[0] {
            if a.drop_first() == b.drop_first() {
                assert(a =~= seq![a[0]] + a.drop_first());
                assert(b =~= seq![b[0]] + b.drop_first());
            }
            lemma_components_total(a.drop_first(), b.drop_first());
        } else {
            lemma_component_total(a[0], b[0]);
        }
    } else if a.len() == 0 && b.len() == 0 {
        assert(a =~= b);
    }
}

/// Neither of two paths before the other means they name the same thing;
/// one before another and that before a third puts the first before the
/// third; and no path comes before itself.
pub proof fn lemma_path_order(a: Seq<char>, b: Seq<char>, c: Seq<char>)
    ensures
        !path_lt(a, a),
        path_lt(a, b) && path_lt(b, c) ==> path_lt(a, c),
        path_lt(a, b) ==> !path_lt(b, a),
        !path_lt(a, b) && !path_lt(b, a) ==> crate::path::spec_components(a) == crate::path::spec_components(b),
{
    let (ca, cb, cc) = (
        crate::path::spec_components(a),
        crate::path::spec_components(b),
        crate::path::spec_components(c),
    );
    lemma_components_irreflexive(ca);
    if components_lt(ca, cb) && components_lt(cb, cc) {
        lemma_components_transitive(ca, cb, cc);
    }
    if components_lt(ca, cb) && components_lt(cb, ca) {
        lemma_components_transitive(ca, cb, ca);
    }
    if ca != cb {
        lemma_components_total(ca, cb);
    }
}

/// `s` is in path order: no item comes before one placed ahead of it.
pub open spec fn in_path_order(s: Seq<Seq<char>>) -> bool {
    forall|i: int, j: int| 0 <= i < j < s.len() ==> !path_lt(#[trigger] s[j], #[trigger] s[i])
}

/// Not after: `b` does not come before `a`.
proof fn lemma_not_after_chain(a: Seq<char>, b: Seq<char>, c: Seq<char>)
    requires
        !path_lt(b, a),
        !path_lt(c, b),
    ensures
        !path_lt(c, a),
{
    lemma_path_order(a, b, c);
    lemma_path_order(c, a, b);
    lemma_path_order(b, c, a);
    lemma_path_order(a, c, b);
    lemma_path_order(c, b, a);
    lemma_path_order(b, a, c);
    if path_lt(c, a) {
        let (ca, cb, cc) = (
            crate::path::spec_components(a),
            crate::path::spec_components(b),
            crate::path::spec_components(c),
        );
        // b is between: not before a, and c not before it.
        if path_lt(a, b) {
            // c < a < b contradicts !(c < b)
            assert(path_lt(c, b));
        } else {
            // a and b name the same thing
            assert(ca == cb);
            assert(path_lt(c, b));
        }
    }
}

proof fn lemma_insert_in_order(s: Seq<Seq<char>>, x: Seq<char>)
    requires
        in_path_order(s),
    ensures
        in_path_order(insert_in_order(s, x)),
        insert_in_order(s, x).to_multiset() == s.to_multiset().insert(x),
    decreases s.len(),
{
    broadcast use vstd::multiset::group_multiset_axioms;
    broadcast use vstd::seq_lib::group_to_multiset_ensures;
    if s.len() == 0 {
        assert(insert_in_order(s, x) =~= seq![x]);
        assert(seq![x] =~= Seq::<Seq<char>>::empty().push(x));
    } else {
        let last = s.last();
        let init = s.drop_last();
        assert(s =~= init.push(last));
        if path_lt(x, last) {
            lemma_insert_in_order(init, x);
            let inner = insert_in_order(init, x);
            assert forall|i: int, j: int| 0 <= i < j < inner.push(last).len() implies !path_lt(
                #[trigger] inner.push(last)[j],
                #[trigger] inner.push(last)[i],
            ) by {
                if j == inner.len() {
                    let y = inner[i];
                    assert(inner.to_multiset().contains(y));
                    assert(init.to_multiset().insert(x).contains(y));
                    if y == x {
                        lemma_path_order(x, last, last);
                    } else {
                        assert(init.to_multiset().contains(y));
                        let k = init.index_of(y);
                        assert(init.contains(y));
                        assert(s[k] == y);
                        assert(!path_lt(s[s.len() - 1], s[k]));
                    }
                }
            }
        } else {
            assert forall|i: int, j: int| 0 <= i < j < s.push(x).len() implies !path_lt(
                #[trigger] s.push(x)[j],
                #[trigger] s.push(x)[i],
            ) by {
                if j == s.len() && i < s.len() - 1 {
                    assert(!path_lt(s[s.len() - 1], s[i]));
                    lemma_not_after_chain(s[i], last, x);
                }
            }
        }
    }
}

/// Sorting paths leaves them in path order, and leaves out and adds nothing:
/// the same paths, each as often as it came.
pub proof fn sorted_paths_are_in_order(paths: Seq<Seq<char>>)
    ensures
        in_path_order(sorted_paths(paths)),
        sorted_paths(paths).to_multiset() == paths.to_multiset(),
    decreases paths.len(),
{
    broadcast use vstd::multiset::group_multiset_axioms;
    broadcast use vstd::seq_lib::group_to_multiset_ensures;
    if paths.len() == 0 {
        assert(sorted_paths(paths) =~= paths);
    } else {
        sorted_paths_are_in_order(paths.drop_last());
        lemma_insert_in_order(sorted_paths(paths.drop_last()), paths.last());
        assert(paths =~= paths.drop_last().push(paths.last()));
    }
}


/// `s` is in the order of its items' paths.
pub open spec fn in_key_order<T: PathKeyed>(s: Seq<T>) -> bool {
    forall|i: int, j: int|
        0 <= i < j < s.len() ==> !path_lt((#[trigger] s[j]).path_key(), (#[trigger] s[i]).path_key())
}

proof fn lemma_insert_by_path<T: PathKeyed>(s: Seq<T>, x: T)
    requires
        in_key_order(s),
    ensures
        in_key_order(insert_by_path(s, x)),
        insert_by_path(s, x).to_multiset() == s.to_multiset().insert(x),
    decreases s.len(),
{
    broadcast use vstd::multiset::group_multiset_axioms;
    broadcast use vstd::seq_lib::group_to_multiset_ensures;
    if s.len() == 0 {
        assert(insert_by_path(s, x) =~= seq![x]);
        assert(seq![x] =~= Seq::<T>::empty().push(x));
    } else {
        let last = s.last();
        let init = s.drop_last();
        assert(s =~= init.push(last));
        if path_lt(x.path_key(), last.path_key()) {
            lemma_insert_by_path(init, x);
            let inner = insert_by_path(init, x);
            assert forall|i: int, j: int| 0 <= i < j < inner.push(last).len() implies !path_lt(
                (#[trigger] inner.push(last)[j]).path_key(),
                (#[trigger] inner.push(last)[i]).path_key(),
            ) by {
                if j == inner.len() {
                    let y = inner[i];
                    assert(inner.to_multiset().contains(y));
                    assert(init.to_multiset().insert(x).contains(y));
                    if y == x {
                        lemma_path_order(x.path_key(), last.path_key(), last.path_key());
                    } else {
                        assert(init.to_multiset().contains(y));
                        let k = init.index_of(y);
                        assert(init.contains(y));
                        assert(s[k] == y);
                        assert(!path_lt(s[s.len() - 1].path_key(), s[k].path_key()));
                    }
                }
            }
        } else {
            assert forall|i: int, j: int| 0 <= i < j < s.push(x).len() implies !path_lt(
                (#[trigger] s.push(x)[j]).path_key(),
                (#[trigger] s.push(x)[i]).path_key(),
            ) by {
                if j == s.len() && i < s.len() - 1 {
                    assert(!path_lt(s[s.len() - 1].path_key(), s[i].path_key()));
                    lemma_not_after_chain(s[i].path_key(), last.path_key(), x.path_key());
                }
            }
        }
    }
}

/// Sorting items by path leaves them in path order, and leaves out and adds
/// nothing.
pub proof fn sorted_by_path_is_in_order<T: PathKeyed>(items: Seq<T>)
    ensures
        in_key_order(sorted_by_path(items)),
        sorted_by_path(items).to_multiset() == items.to_multiset(),
    decreases items.len(),
{
    broadcast use vstd::multiset::group_multiset_axioms;
    broadcast use vstd::seq_lib::group_to_multiset_ensures;
    if items.len() == 0 {
        assert(sorted_by_path(items) =~= items);
    } else {
        sorted_by_path_is_in_order(items.drop_last());
        lemma_insert_by_path(sorted_by_path(items.drop_last()), items.last());
        assert(items =~= items.drop_last().push(items.last()));
    }
}

} // verus!
