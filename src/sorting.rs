use vstd::prelude::*;
use vstd::multiset::Multiset;
use crate::fields::{attrs_of, lemma_lex_lt_asymmetric, lex_lt, name_le, name_lt, Attr, FieldPair};

verus! {

/// Places `x` after every element of the sorted `t` whose name is not
/// greater than its own, and before the rest.
pub open spec fn insert_by_name(t: Seq<Attr>, x: Attr) -> Seq<Attr>
    decreases t.len(),
{
    if t.len() == 0 {
        seq![x]
    } else if name_le(t.last().0, x.0) {
        t.push(x)
    } else {
        insert_by_name(t.drop_last(), x).push(t.last())
    }
}

/// The attributes ordered by name; attributes with equal names keep their
/// relative order (a stable sort).
pub open spec fn sorted_by_name(s: Seq<Attr>) -> Seq<Attr>
    decreases s.len(),
{
    if s.len() == 0 {
        Seq::empty()
    } else {
        insert_by_name(sorted_by_name(s.drop_last()), s.last())
    }
}

/// Each name is no greater than the next one.
pub open spec fn is_sorted_by_name(s: Seq<Attr>) -> bool {
    forall|i: int| 0 <= i < s.len() - 1 ==> name_le(#[trigger] s[i].0, s[i + 1].0)
}

proof fn lemma_insert_by_name(t: Seq<Attr>, x: Attr)
    ensures
        insert_by_name(t, x).to_multiset() =~= t.to_multiset().insert(x),
        insert_by_name(t, x).len() == t.len() + 1,
        insert_by_name(t, x).last() == x || (t.len() > 0 && insert_by_name(t, x).last()
            == t.last()),
        is_sorted_by_name(t) ==> is_sorted_by_name(insert_by_name(t, x)),
    decreases t.len(),
{
    broadcast use vstd::seq_lib::group_to_multiset_ensures;

    if t.len() == 0 {
        assert(seq![x] =~= Seq::<Attr>::empty().push(x));
    } else if name_le(t.last().0, x.0) {
        let r = t.push(x);
        assert(is_sorted_by_name(t) ==> is_sorted_by_name(r)) by {
            if is_sorted_by_name(t) {
                assert forall|i: int| 0 <= i < r.len() - 1 implies name_le(
                    #[trigger] r[i].0,
                    r[i + 1].0,
                ) by {
                    if i < t.len() - 1 {
                        assert(r[i] == t[i] && r[i + 1] == t[i + 1]);
                    }
                }
            }
        }
    } else {
        let u = t.drop_last();
        lemma_insert_by_name(u, x);
        lemma_lex_lt_asymmetric(x.0, t.last().0);
        let v = insert_by_name(u, x);
        let r = v.push(t.last());
        assert(t =~= u.push(t.last()));
        assert(is_sorted_by_name(t) ==> is_sorted_by_name(r)) by {
            if is_sorted_by_name(t) {
                assert(is_sorted_by_name(u)) by {
                    assert forall|i: int| 0 <= i < u.len() - 1 implies name_le(
                        #[trigger] u[i].0,
                        u[i + 1].0,
                    ) by {
                        assert(u[i] == t[i] && u[i + 1] == t[i + 1]);
                    }
                }
                if v.last() != x {
                    assert(name_le(t[u.len() - 1].0, t[u.len() as int].0));
                }
                assert forall|i: int| 0 <= i < r.len() - 1 implies name_le(
                    #[trigger] r[i].0,
                    r[i + 1].0,
                ) by {
                    if i < v.len() - 1 {
                        assert(r[i] == v[i] && r[i + 1] == v[i + 1]);
                    } else {
                        assert(r[i] == v.last());
                    }
                }
            }
        }
    }
}

/// `sorted_by_name` is sorted, and holds exactly the attributes it was
/// given, each as often as before.
pub proof fn lemma_sorted_by_name(s: Seq<Attr>)
    ensures
        is_sorted_by_name(sorted_by_name(s)),
        sorted_by_name(s).to_multiset() =~= s.to_multiset(),
        sorted_by_name(s).len() == s.len(),
    decreases s.len(),
{
    broadcast use vstd::seq_lib::group_to_multiset_ensures;

    if s.len() > 0 {
        lemma_sorted_by_name(s.drop_last());
        lemma_insert_by_name(sorted_by_name(s.drop_last()), s.last());
        assert(s =~= s.drop_last().push(s.last()));
    } else {
        assert(s.to_multiset() =~= Multiset::empty());
    }
}

/// Where `x` lands in `t` when it goes after position `j - 1` and before
/// position `j`.
proof fn lemma_insert_at(t: Seq<Attr>, x: Attr, j: int)
    requires
        0 <= j <= t.len(),
        j == 0 || name_le(t[j - 1].0, x.0),
        forall|k: int| j <= k < t.len() ==> lex_lt(x.0, #[trigger] t[k].0),
    ensures
        insert_by_name(t, x) == t.insert(j, x),
    decreases t.len(),
{
    if t.len() == 0 {
        assert(t.insert(j, x) =~= seq![x]);
    } else if j == t.len() {
        assert(t.insert(j, x) =~= t.push(x));
    } else {
        let u = t.drop_last();
        assert(lex_lt(x.0, t[t.len() - 1].0));
        lemma_lex_lt_asymmetric(x.0, t.last().0);
        assert forall|k: int| j <= k < u.len() implies lex_lt(x.0, #[trigger] u[k].0) by {
            assert(u[k] == t[k]);
        }
        if j > 0 {
            assert(u[j - 1] == t[j - 1]);
        }
        lemma_insert_at(u, x, j);
        assert(t.insert(j, x) =~= u.insert(j, x).push(t.last()));
    }
}

/// The pairs of `fields` ordered by name; pairs with equal names keep their
/// relative order.
pub fn sort_by_name(fields: &Vec<FieldPair>) -> (r: Vec<FieldPair>)
    ensures
        attrs_of(r@) == sorted_by_name(attrs_of(fields@)),
{
    let ghost s = attrs_of(fields@);
    let mut out: Vec<FieldPair> = Vec::new();
    let mut i: usize = 0;
    while i < fields.len()
        invariant
            s == attrs_of(fields@),
            i <= fields@.len(),
            attrs_of(out@) == sorted_by_name(s.subrange(0, i as int)),
        decreases fields@.len() - i,
    {
        let x = fields[i].copy_pair();
        let ghost t = attrs_of(out@);
        proof {
            lemma_sorted_by_name(s.subrange(0, i as int));
        }
        let mut j: usize = out.len();
        while j > 0 && name_lt(x.name.as_str(), out[j - 1].name.as_str())
            invariant
                t == attrs_of(out@),
                j <= out@.len(),
                forall|k: int| j <= k < t.len() ==> lex_lt(x@.0, #[trigger] t[k].0),
            decreases j,
        {
            j = j - 1;
        }
        proof {
            lemma_insert_at(t, x@, j as int);
            assert(s.subrange(0, i + 1).drop_last() =~= s.subrange(0, i as int));
        }
        let ghost xv = x@;
        out.insert(j, x);
        proof {
            assert(attrs_of(out@) =~= t.insert(j as int, xv));
        }
        i = i + 1;
    }
    proof {
        assert(s.subrange(0, i as int) =~= s);
    }
    out
}

} // verus!
