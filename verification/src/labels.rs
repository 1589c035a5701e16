//! Lists of labels: their view as sequences of character sequences, and the
//! few operations the taggers perform on them.

use vstd::prelude::*;

verus! {

/// The text of each label, in order.
pub open spec fn label_views(v: Seq<String>) -> Seq<Seq<char>> {
    v.map_values(|s: String| s@)
}

/// The labels of `all`, in their order, that `taken` does not hold.
pub open spec fn labels_without(all: Seq<Seq<char>>, taken: Seq<Seq<char>>) -> Seq<Seq<char>>
    decreases all.len(),
{
    if all.len() == 0 {
        Seq::empty()
    } else {
        let rest = labels_without(all.drop_last(), taken);
        if taken.contains(all.last()) {
            rest
        } else {
            rest.push(all.last())
        }
    }
}

/// A label is left over exactly when the full list holds it and `taken` does not.
pub proof fn lemma_without_contains(all: Seq<Seq<char>>, taken: Seq<Seq<char>>, l: Seq<char>)
    ensures
        labels_without(all, taken).contains(l) <==> (all.contains(l) && !taken.contains(l)),
    decreases all.len(),
{
    if all.len() > 0 {
        let init = all.drop_last();
        lemma_without_contains(init, taken, l);
        let rest = labels_without(init, taken);
        if all.contains(l) && !taken.contains(l) {
            let k = choose|k: int| 0 <= k < all.len() && all[k] == l;
            if k < init.len() {
                assert(init[k] == l);
                if !taken.contains(all.last()) {
                    let j = choose|j: int| 0 <= j < rest.len() && rest[j] == l;
                    assert(rest.push(all.last())[j] == l);
                }
            } else {
                assert(all.last() == l);
                assert(rest.push(all.last())[rest.len() as int] == l);
            }
        }
        if labels_without(all, taken).contains(l) {
            if !(rest.contains(l)) {
                assert(l == all.last());
                assert(all[all.len() - 1] == l);
            } else {
                let j = choose|j: int| 0 <= j < init.len() && init[j] == l;
                assert(all[j] == l);
            }
        }
    }
}

/// Every label is either in `labels_without(all, taken)` or in `taken`, and
/// never in both; and nothing outside `all` is left over.
pub proof fn lemma_without_partition(all: Seq<Seq<char>>, taken: Seq<Seq<char>>)
    ensures
        forall|l: Seq<char>| #[trigger] labels_without(all, taken).contains(l) ==> all.contains(l)
            && !taken.contains(l),
        forall|l: Seq<char>|
            #[trigger] all.contains(l) ==> (taken.contains(l) || labels_without(
                all,
                taken,
            ).contains(l)),
{
    assert forall|l: Seq<char>| #[trigger] labels_without(all, taken).contains(l) implies all.contains(l)
        && !taken.contains(l) by {
        lemma_without_contains(all, taken, l);
    }
    assert forall|l: Seq<char>| #[trigger] all.contains(l) implies (taken.contains(l)
        || labels_without(all, taken).contains(l)) by {
        lemma_without_contains(all, taken, l);
    }
}

/// Taking out a label that `all` does not hold changes nothing.
proof fn lemma_without_absent(all: Seq<Seq<char>>, taken: Seq<Seq<char>>, x: Seq<char>)
    requires
        !all.contains(x),
    ensures
        labels_without(all, taken.push(x)) == labels_without(all, taken),
    decreases all.len(),
{
    if all.len() > 0 {
        let init = all.drop_last();
        if init.contains(x) {
            let j = choose|j: int| 0 <= j < init.len() && init[j] == x;
            assert(all[j] == x);
        }
        lemma_without_absent(init, taken, x);
        assert(all[all.len() - 1] == all.last());
        assert(taken.push(x).contains(all.last()) <==> taken.contains(all.last())) by {
            if taken.push(x).contains(all.last()) {
                let j = choose|j: int| 0 <= j < taken.push(x).len() && taken.push(x)[j] == all.last();
                if j == taken.len() {
                    assert(all.contains(x));
                }
                assert(taken[j] == all.last());
            }
            if taken.contains(all.last()) {
                let j = choose|j: int| 0 <= j < taken.len() && taken[j] == all.last();
                assert(taken.push(x)[j] == all.last());
            }
        }
    }
}

/// Removing one more label of a list without duplicates from what is left
/// over is the same as taking that label out at its place.
pub proof fn lemma_without_remove(all: Seq<Seq<char>>, taken: Seq<Seq<char>>, x: Seq<char>, k: int)
    requires
        all.no_duplicates(),
        0 <= k < labels_without(all, taken).len(),
        labels_without(all, taken)[k] == x,
    ensures
        labels_without(all, taken.push(x)) == labels_without(all, taken).remove(k),
    decreases all.len(),
{
    let init = all.drop_last();
    let y = all.last();
    let rest = labels_without(init, taken);
    assert(all[all.len() - 1] == y);
    if y == x {
        assert(!taken.contains(x)) by {
            lemma_without_contains(all, taken, x);
            assert(labels_without(all, taken).contains(x));
        }
        assert(!init.contains(x)) by {
            if init.contains(x) {
                let j = choose|j: int| 0 <= j < init.len() && init[j] == x;
                assert(all[j] == all[all.len() - 1]);
            }
        }
        lemma_without_contains(init, taken, x);
        assert(taken.push(x).contains(y)) by {
            assert(taken.push(x)[taken.len() as int] == x);
        }
        lemma_without_absent(init, taken, x);
        assert(k == rest.len()) by {
            if k < rest.len() {
                assert(labels_without(all, taken)[k] == rest[k]);
                assert(rest.contains(x));
            }
        }
        assert(labels_without(all, taken).remove(k) =~= rest);
    } else {
        assert(taken.push(x).contains(y) <==> taken.contains(y)) by {
            if taken.push(x).contains(y) {
                let j = choose|j: int| 0 <= j < taken.push(x).len() && taken.push(x)[j] == y;
                assert(taken[j] == y);
            }
            if taken.contains(y) {
                let j = choose|j: int| 0 <= j < taken.len() && taken[j] == y;
                assert(taken.push(x)[j] == y);
            }
        }
        assert(init.no_duplicates());
        if taken.contains(y) {
            lemma_without_remove(init, taken, x, k);
        } else {
            assert(k < rest.len());
            assert(rest[k] == x);
            lemma_without_remove(init, taken, x, k);
            assert(rest.remove(k).push(y) =~= rest.push(y).remove(k));
        }
    }
}

/// A copy of a list of labels.
pub fn copy_labels(v: &Vec<String>) -> (r: Vec<String>)
    ensures
        r@ == v@,
{
    let mut r: Vec<String> = Vec::new();
    let mut i: usize = 0;
    while i < v.len()
        invariant
            i <= v.len(),
            r@ == v@.take(i as int),
        decreases v.len() - i,
    {
        r.push(v[i].clone());
        assert(v@.take(i as int).push(v@[i as int]) =~= v@.take(i + 1));
        i = i + 1;
    }
    assert(v@.take(v.len() as int) =~= v@);
    r
}

/// Where a label stands in a list, if it stands there at all.
pub fn label_position(v: &Vec<String>, l: &String) -> (r: Option<usize>)
    ensures
        match r {
            Some(k) => k < v.len() && v@[k as int]@ == l@,
            None => !label_views(v@).contains(l@),
        },
{
    let mut i: usize = 0;
    while i < v.len()
        invariant
            i <= v.len(),
            forall|j: int| 0 <= j < i ==> v@[j]@ != l@,
        decreases v.len() - i,
    {
        if v[i] == *l {
            return Some(i);
        }
        i = i + 1;
    }
    proof {
        if label_views(v@).contains(l@) {
            let j = choose|j: int| 0 <= j < label_views(v@).len() && label_views(v@)[j] == l@;
            assert(v@[j]@ == l@);
        }
    }
    None
}

/// Whether a list holds a label.
pub fn holds_label(v: &Vec<String>, l: &String) -> (r: bool)
    ensures
        r == label_views(v@).contains(l@),
{
    match label_position(v, l) {
        Some(k) => {
            assert(label_views(v@)[k as int] == l@);
            true
        },
        None => false,
    }
}

/// Whether text `a` comes strictly before text `b`, character by character,
/// as strings are ordered.
pub open spec fn text_before(a: Seq<char>, b: Seq<char>) -> bool
    decreases a.len(),
{
    if b.len() == 0 {
        false
    } else if a.len() == 0 {
        true
    } else if a[0] != b[0] {
        (a[0] as u32) < (b[0] as u32)
    } else {
        text_before(a.drop_first(), b.drop_first())
    }
}

/// Whether a list of labels is in strictly increasing order.
pub open spec fn labels_sorted(s: Seq<Seq<char>>) -> bool {
    forall|i: int| 0 <= i < s.len() - 1 ==> text_before(#[trigger] s[i], s[i + 1])
}

/// Two texts that agree up to a place and differ there are ordered by the
/// characters at that place.
pub proof fn lemma_text_before_at(a: Seq<char>, b: Seq<char>, k: int)
    requires
        0 <= k < a.len(),
        k < b.len(),
        a.take(k) == b.take(k),
        (a[k] as u32) < (b[k] as u32),
    ensures
        text_before(a, b),
    decreases k,
{
    if k > 0 {
        assert(a[0] == a.take(k)[0]);
        assert(b[0] == b.take(k)[0]);
        assert(a.drop_first().take(k - 1) =~= b.drop_first().take(k - 1)) by {
            assert forall|i: int| 0 <= i < k - 1 implies a.drop_first()[i] == b.drop_first()[i] by {
                assert(a.take(k)[i + 1] == b.take(k)[i + 1]);
                assert(a.take(k)[i + 1] == a[i + 1]);
                assert(b.take(k)[i + 1] == b[i + 1]);
                assert(a.drop_first()[i] == a[i + 1]);
                assert(b.drop_first()[i] == b[i + 1]);
            }
        }
        lemma_text_before_at(a.drop_first(), b.drop_first(), k - 1);
    }
}

/// What is left over of a list without duplicates has no duplicates.
proof fn lemma_without_distinct(all: Seq<Seq<char>>, taken: Seq<Seq<char>>)
    requires
        all.no_duplicates(),
    ensures
        labels_without(all, taken).no_duplicates(),
    decreases all.len(),
{
    if all.len() > 0 {
        let init = all.drop_last();
        assert(init.no_duplicates());
        lemma_without_distinct(init, taken);
        let rest = labels_without(init, taken);
        if !taken.contains(all.last()) {
            assert(!rest.contains(all.last())) by {
                lemma_without_contains(init, taken, all.last());
                if init.contains(all.last()) {
                    let j = choose|j: int| 0 <= j < init.len() && init[j] == all.last();
                    assert(all[j] == all[all.len() - 1]);
                }
            }
            assert forall|i: int, j: int|
                0 <= i < rest.push(all.last()).len() && 0 <= j < rest.push(all.last()).len() && i
                    != j implies rest.push(all.last())[i] != rest.push(all.last())[j] by {
                if i < rest.len() && j < rest.len() {
                } else if i < rest.len() {
                    assert(rest.contains(rest[i]));
                } else {
                    assert(rest.contains(rest[j]));
                }
            }
        }
    }
}

/// When a list without duplicates is split into the labels taken (again
/// without duplicates, all from the list) and the labels left over, every
/// label of the list lands in exactly one of the two, exactly once: both
/// are free of duplicates, they share no label, and their lengths add up to
/// the length of the list.
pub proof fn lemma_without_exact(all: Seq<Seq<char>>, taken: Seq<Seq<char>>)
    requires
        all.no_duplicates(),
        taken.no_duplicates(),
        forall|l: Seq<char>| #[trigger] taken.contains(l) ==> all.contains(l),
    ensures
        labels_without(all, taken).no_duplicates(),
        labels_without(all, taken).disjoint(taken),
        labels_without(all, taken).len() + taken.len() == all.len(),
{
    let w = labels_without(all, taken);
    lemma_without_distinct(all, taken);
    lemma_without_partition(all, taken);
    assert forall|i: int, j: int| 0 <= i < w.len() && 0 <= j < taken.len() implies w[i]
        != taken[j] by {
        assert(w.contains(w[i]));
        assert(taken.contains(taken[j]));
    }
    vstd::seq_lib::lemma_no_dup_in_concat(w, taken);
    assert forall|l: Seq<char>| (w + taken).contains(l) <==> all.contains(l) by {
        if (w + taken).contains(l) {
            let k = choose|k: int| 0 <= k < (w + taken).len() && (w + taken)[k] == l;
            if k < w.len() {
                assert(w[k] == l);
                assert(w.contains(l));
            } else {
                assert(taken[k - w.len()] == l);
                assert(taken.contains(l));
            }
        }
        if all.contains(l) {
            if taken.contains(l) {
                let k = choose|k: int| 0 <= k < taken.len() && taken[k] == l;
                assert((w + taken)[k + w.len()] == l);
            } else {
                assert(w.contains(l));
                let k = choose|k: int| 0 <= k < w.len() && w[k] == l;
                assert((w + taken)[k] == l);
            }
        }
    }
    assert((w + taken).to_set() =~= all.to_set());
    (w + taken).unique_seq_to_set();
    all.unique_seq_to_set();
}

} // verus!
