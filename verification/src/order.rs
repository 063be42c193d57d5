//! The order of texts, and lists of texts in that order.
use vstd::prelude::*;
use vstd::relations::*;
use crate::text::{chars_of, same, texts, texts_of_push};

verus! {

/// Whether `a` comes before `b`, or is `b`, when texts are compared character by
/// character.
pub open spec fn text_le(a: Seq<char>, b: Seq<char>) -> bool
    decreases a.len(),
{
    if a.len() == 0 {
        true
    } else if b.len() == 0 {
        false
    } else if a[0] != b[0] {
        a[0] < b[0]
    } else {
        text_le(a.drop_first(), b.drop_first())
    }
}

/// `parts` put in the order of texts.
pub open spec fn sorted(parts: Seq<Seq<char>>) -> Seq<Seq<char>> {
    parts.sort_by(|a: Seq<char>, b: Seq<char>| text_le(a, b))
}

proof fn text_le_reflexive(a: Seq<char>)
    ensures
        text_le(a, a),
    decreases a.len(),
{
    if a.len() > 0 {
        text_le_reflexive(a.drop_first());
    }
}

proof fn text_le_antisymmetric(a: Seq<char>, b: Seq<char>)
    requires
        text_le(a, b),
        text_le(b, a),
    ensures
        a == b,
    decreases a.len(),
{
    if a.len() > 0 && b.len() > 0 {
        text_le_antisymmetric(a.drop_first(), b.drop_first());
        assert(a == seq![a[0]] + a.drop_first());
        assert(b == seq![b[0]] + b.drop_first());
    } else {
        assert(a =~= b);
    }
}

proof fn text_le_transitive(a: Seq<char>, b: Seq<char>, c: Seq<char>)
    requires
        text_le(a, b),
        text_le(b, c),
    ensures
        text_le(a, c),
    decreases a.len(),
{
    if a.len() > 0 && b.len() > 0 && c.len() > 0 && a[0] == b[0] && b[0] == c[0] {
        text_le_transitive(a.drop_first(), b.drop_first(), c.drop_first());
    }
}

proof fn text_le_total(a: Seq<char>, b: Seq<char>)
    ensures
        text_le(a, b) || text_le(b, a),
    decreases a.len(),
{
    if a.len() > 0 && b.len() > 0 {
        text_le_total(a.drop_first(), b.drop_first());
    }
}

/// The order of texts is a total order.
pub proof fn text_order_is_total()
    ensures
        total_ordering(|a: Seq<char>, b: Seq<char>| text_le(a, b)),
{
    let r = |a: Seq<char>, b: Seq<char>| text_le(a, b);
    assert forall|a: Seq<char>| #[trigger] r(a, a) by {
        text_le_reflexive(a);
    }
    assert forall|a: Seq<char>, b: Seq<char>| #[trigger] r(a, b) && #[trigger] r(b, a) implies a
        == b by {
        text_le_antisymmetric(a, b);
    }
    assert forall|a: Seq<char>, b: Seq<char>, c: Seq<char>| #[trigger]
        r(a, b) && #[trigger] r(b, c) implies r(a, c) by {
        text_le_transitive(a, b, c);
    }
    assert forall|a: Seq<char>, b: Seq<char>| #[trigger] r(a, b) || #[trigger] r(b, a) by {
        text_le_total(a, b);
    }
}

/// Lists with the same members, counted, are the same list once sorted.
pub proof fn sorting_forgets_order(a: Seq<Seq<char>>, b: Seq<Seq<char>>)
    requires
        a.to_multiset() == b.to_multiset(),
    ensures
        sorted(a) == sorted(b),
{
    let r = |x: Seq<char>, y: Seq<char>| text_le(x, y);
    text_order_is_total();
    a.lemma_sort_by_ensures(r);
    b.lemma_sort_by_ensures(r);
    vstd::seq_lib::lemma_sorted_unique(a.sort_by(r), b.sort_by(r), r);
}

/// Sorting keeps every member of a list, as often as it is there.
pub proof fn sorting_keeps_members(parts: Seq<Seq<char>>)
    ensures
        sorted(parts).to_multiset() == parts.to_multiset(),
        sorted(parts).len() == parts.len(),
{
    let r = |x: Seq<char>, y: Seq<char>| text_le(x, y);
    text_order_is_total();
    parts.lemma_sort_by_ensures(r);
    vstd::seq_lib::to_multiset_len(parts);
    vstd::seq_lib::to_multiset_len(sorted(parts));
}

/// In a sorted list, no member comes before an earlier one.
pub proof fn sorted_is_in_order(parts: Seq<Seq<char>>)
    ensures
        forall|i: int, j: int|
            0 <= i < j < sorted(parts).len() ==> text_le(
                #[trigger] sorted(parts)[i],
                #[trigger] sorted(parts)[j],
            ),
{
    let r = |x: Seq<char>, y: Seq<char>| text_le(x, y);
    text_order_is_total();
    parts.lemma_sort_by_ensures(r);
    assert forall|i: int, j: int| 0 <= i < j < sorted(parts).len() implies text_le(
        #[trigger] sorted(parts)[i],
        #[trigger] sorted(parts)[j],
    ) by {
        assert(r(parts.sort_by(r)[i], parts.sort_by(r)[j]));
    }
}

pub(crate) fn chars_le(a: &[char], b: &[char]) -> (r: bool)
    ensures
        r == text_le(a@, b@),
{
    let mut i: usize = 0;
    assert(a@.skip(0) == a@ && b@.skip(0) == b@);
    while i < a.len() && i < b.len()
        invariant
            i <= a.len(),
            i <= b.len(),
            text_le(a@, b@) == text_le(a@.skip(i as int), b@.skip(i as int)),
        decreases a.len() - i,
    {
        if a[i] != b[i] {
            return a[i] < b[i];
        }
        assert(a@.skip(i as int).drop_first() == a@.skip(i + 1));
        assert(b@.skip(i as int).drop_first() == b@.skip(i + 1));
        i = i + 1;
    }
    i == a.len()
}

pub fn text_not_after(a: &str, b: &str) -> (r: bool)
    ensures
        r == text_le(a@, b@),
{
    let x = chars_of(a);
    let y = chars_of(b);
    chars_le(&x, &y)
}

/// The list `parts` in the order of texts.
pub fn sort_texts(parts: &Vec<String>) -> (r: Vec<String>)
    ensures
        texts(r@) == sorted(texts(parts@)),
{
    let ghost le = |a: Seq<char>, b: Seq<char>| text_le(a, b);
    let ghost all = texts(parts@);
    let mut r: Vec<String> = Vec::new();
    let mut i: usize = 0;
    proof {
        text_order_is_total();
        assert(all.take(0) =~= Seq::<Seq<char>>::empty());
        assert(texts(r@) =~= Seq::<Seq<char>>::empty());
    }
    while i < parts.len()
        invariant
            i <= parts.len(),
            le == (|a: Seq<char>, b: Seq<char>| text_le(a, b)),
            total_ordering(le),
            all == texts(parts@),
            sorted_by(texts(r@), le),
            texts(r@).to_multiset() == all.take(i as int).to_multiset(),
        decreases parts.len() - i,
    {
        let ghost x = parts@[i as int]@;
        let ghost before = texts(r@);
        let mut k: usize = 0;
        while k < r.len() && text_not_after(r[k].as_str(), parts[i].as_str())
            invariant
                i < parts.len(),
                k <= r.len(),
                x == parts@[i as int]@,
                le == (|a: Seq<char>, b: Seq<char>| text_le(a, b)),
                total_ordering(le),
                sorted_by(texts(r@), le),
                k > 0 ==> le(texts(r@)[k - 1], x),
            decreases r.len() - k,
        {
            k = k + 1;
        }
        r.insert(k, parts[i].clone());
        proof {
            let after = before.insert(k as int, x);
            assert(texts(r@) =~= after);
            assert(k < before.len() ==> le(x, before[k as int])) by {
                if k < before.len() {
                    text_le_total(before[k as int], x);
                }
            }
            assert forall|m: int, n: int| 0 <= m < n < after.len() implies #[trigger] le(
                after[m],
                after[n],
            ) by {
                insertion_keeps_order(before, x, k as int, m, n, le);
            }
            vstd::seq_lib::to_multiset_insert(before, k as int, x);
            vstd::seq_lib::to_multiset_build(all.take(i as int), x);
            assert(all.take(i + 1) == all.take(i as int).push(x));
        }
        i = i + 1;
    }
    proof {
        assert(all.take(i as int) == all);
        all.lemma_sort_by_ensures(le);
        vstd::seq_lib::lemma_sorted_unique(texts(r@), all.sort_by(le), le);
    }
    r
}

proof fn insertion_keeps_order(
    before: Seq<Seq<char>>,
    x: Seq<char>,
    k: int,
    m: int,
    n: int,
    le: spec_fn(Seq<char>, Seq<char>) -> bool,
)
    requires
        total_ordering(le),
        sorted_by(before, le),
        0 <= k <= before.len(),
        k > 0 ==> le(before[k - 1], x),
        k < before.len() ==> le(x, before[k]),
        0 <= m < n < before.len() + 1,
    ensures
        le(before.insert(k, x)[m], before.insert(k, x)[n]),
{
    let after = before.insert(k, x);
    if m == k {
        assert(after[n] == before[n - 1]);
        assert(le(x, before[k]));
        if n - 1 > k {
            assert(le(before[k], before[n - 1]));
        }
    } else if n == k {
        assert(after[m] == before[m]);
        if m < k - 1 {
            assert(le(before[m], before[k - 1]));
        }
    } else {
        let m0 = if m < k { m } else { m - 1 };
        let n0 = if n < k { n } else { n - 1 };
        assert(le(before[m0], before[n0]));
    }
}

/// `parts` without a member that equals the one before it.
pub open spec fn without_repeats(parts: Seq<Seq<char>>) -> Seq<Seq<char>>
    decreases parts.len(),
{
    if parts.len() < 2 {
        parts
    } else {
        let before = without_repeats(parts.drop_last());
        if parts.last() == parts[parts.len() - 2] {
            before
        } else {
            before.push(parts.last())
        }
    }
}

/// `dedup` on a list of strings.
pub fn drop_repeats(parts: &Vec<String>) -> (r: Vec<String>)
    ensures
        texts(r@) == without_repeats(texts(parts@)),
{
    broadcast use texts_of_push;

    let ghost all = texts(parts@);
    let mut r: Vec<String> = Vec::new();
    let mut i: usize = 0;
    assert(texts(r@) =~= all.take(0));
    while i < parts.len()
        invariant
            i <= parts.len(),
            all == texts(parts@),
            texts(r@) == without_repeats(all.take(i as int)),
        decreases parts.len() - i,
    {
        assert(all.take(i + 1).drop_last() == all.take(i as int));
        assert(all.take(i + 1).last() == parts@[i as int]@);
        if i == 0 {
            r.push(parts[i].clone());
            assert(texts(r@) =~= all.take(1));
        } else {
            assert(all.take(i + 1)[i - 1] == parts@[i - 1]@);
            if !same(parts[i].as_str(), parts[i - 1].as_str()) {
                r.push(parts[i].clone());
            }
        }
        i = i + 1;
    }
    assert(all.take(i as int) == all);
    r
}

/// Dropping repeats of a sorted list leaves every member, and each one once.
pub proof fn dropping_repeats_keeps_each_member_once(parts: Seq<Seq<char>>)
    ensures
        forall|t: Seq<char>|
            without_repeats(sorted(parts)).contains(t) <==> #[trigger] parts.contains(t),
        without_repeats(sorted(parts)).no_duplicates(),
{
    sorted_is_in_order(parts);
    sorting_keeps_members(parts);
    each_member_once(sorted(parts));
    assert forall|t: Seq<char>|
        without_repeats(sorted(parts)).contains(t) <==> #[trigger] parts.contains(t) by {
        parts.to_multiset_ensures();
        sorted(parts).to_multiset_ensures();
        assert(parts.contains(t) <==> parts.to_multiset().count(t) > 0);
        assert(sorted(parts).contains(t) <==> sorted(parts).to_multiset().count(t) > 0);
    }
}

#[verifier::spinoff_prover]
proof fn each_member_once(parts: Seq<Seq<char>>)
    requires
        forall|i: int, j: int|
            0 <= i < j < parts.len() ==> text_le(#[trigger] parts[i], #[trigger] parts[j]),
    ensures
        forall|t: Seq<char>|
            #[trigger] without_repeats(parts).contains(t) <==> parts.contains(t),
        without_repeats(parts).no_duplicates(),
        parts.len() > 0 ==> without_repeats(parts).len() > 0 && without_repeats(parts).last()
            == parts.last(),
        without_repeats(parts).len() <= parts.len(),
    decreases parts.len(),
{
    if parts.len() >= 2 {
        let front = parts.drop_last();
        let before = without_repeats(front);
        assert forall|i: int, j: int| 0 <= i < j < front.len() implies text_le(
            #[trigger] front[i],
            #[trigger] front[j],
        ) by {
            assert(front[i] == parts[i] && front[j] == parts[j]);
        }
        each_member_once(front);
        let last = parts.last();
        assert(front.last() == parts[parts.len() - 2]);
        if last == front.last() {
            assert forall|t: Seq<char>| #[trigger] before.contains(t) <==> parts.contains(t) by {
                if parts.contains(t) {
                    let k = choose|k: int| 0 <= k < parts.len() && parts[k] == t;
                    if k == parts.len() - 1 {
                        assert(front[front.len() - 1] == t);
                    } else {
                        assert(front[k] == t);
                    }
                }
                if front.contains(t) {
                    let k = choose|k: int| 0 <= k < front.len() && front[k] == t;
                    assert(parts[k] == t);
                }
            }
        } else {
            // The last one is new: it comes after all the others and differs from the largest.
            assert(!front.contains(last)) by {
                if front.contains(last) {
                    let k = choose|k: int| 0 <= k < front.len() && front[k] == last;
                    let m = front.len() - 1;
                    if k < m {
                        assert(text_le(parts[k], parts[m]));
                    }
                    assert(text_le(parts[m], parts[parts.len() - 1]));
                    if k < m {
                        text_le_antisymmetric(front[m], last);
                    }
                }
            }
            let all = before.push(last);
            assert forall|t: Seq<char>| #[trigger] all.contains(t) <==> parts.contains(t) by {
                if parts.contains(t) {
                    let k = choose|k: int| 0 <= k < parts.len() && parts[k] == t;
                    if k == parts.len() - 1 {
                        assert(all[all.len() - 1] == t);
                    } else {
                        assert(front[k] == t);
                        assert(front.contains(t));
                        assert(before.contains(t));
                        let m = choose|m: int| 0 <= m < before.len() && before[m] == t;
                        assert(all[m] == t);
                    }
                }
                if all.contains(t) {
                    let m = choose|m: int| 0 <= m < all.len() && all[m] == t;
                    if m < before.len() {
                        assert(before[m] == t);
                        assert(before.contains(t));
                        let k = choose|k: int| 0 <= k < front.len() && front[k] == t;
                        assert(parts[k] == t);
                    } else {
                        assert(parts[parts.len() - 1] == t);
                    }
                }
            }
            assert(!before.contains(last));
        }
    }
}

/// Texts are compared by the first character in which they differ, and a beginning comes before
/// what goes on.
pub proof fn the_first_different_character_decides(
    common: Seq<char>,
    x: char,
    y: char,
    a: Seq<char>,
    b: Seq<char>,
)
    ensures
        x != y ==> (text_le(common + seq![x] + a, common + seq![y] + b) <==> x < y),
        text_le(common, common + a),
        a.len() > 0 ==> !text_le(common + a, common),
    decreases common.len(),
{
    let s = common + seq![x] + a;
    let t = common + seq![y] + b;
    if common.len() == 0 {
        assert(s[0] == x && t[0] == y);
    } else {
        let rest = common.drop_first();
        the_first_different_character_decides(rest, x, y, a, b);
        assert(s.drop_first() =~= rest + seq![x] + a);
        assert(t.drop_first() =~= rest + seq![y] + b);
        assert((common + a).drop_first() =~= rest + a);
        assert(s[0] == common[0] && t[0] == common[0] && (common + a)[0] == common[0]);
    }
}

} // verus!
