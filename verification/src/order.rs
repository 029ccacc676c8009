//! Texts in ascending order, each once.
use vstd::prelude::*;

verus! {

/// `a` stands before `b` in the order of their characters.
pub open spec fn text_less(a: Seq<char>, b: Seq<char>) -> bool
    decreases a.len(),
{
    if b.len() == 0 {
        false
    } else if a.len() == 0 {
        true
    } else if a[0] != b[0] {
        a[0] < b[0]
    } else {
        text_less(a.skip(1), b.skip(1))
    }
}

/// Each text stands before all that follow it.
pub open spec fn ascending(items: Seq<Seq<char>>) -> bool {
    forall|i: int, j: int| 0 <= i < j < items.len() ==> text_less(#[trigger] items[i], #[trigger] items[j])
}

/// `r` lists the texts of `items` in ascending order, each once.
pub open spec fn lists_each_once(r: Seq<Seq<char>>, items: Seq<Seq<char>>) -> bool {
    &&& ascending(r)
    &&& forall|t: Seq<char>| r.contains(t) <==> items.contains(t)
}

/// The texts of `items` in ascending order, each once.
pub open spec fn sorted_distinct(items: Seq<Seq<char>>) -> Seq<Seq<char>> {
    choose|r: Seq<Seq<char>>| lists_each_once(r, items)
}

proof fn lemma_less_irreflexive(a: Seq<char>)
    ensures
        !text_less(a, a),
    decreases a.len(),
{
    if a.len() > 0 {
        lemma_less_irreflexive(a.skip(1));
    }
}

proof fn lemma_less_transitive(a: Seq<char>, b: Seq<char>, c: Seq<char>)
    requires
        text_less(a, b),
        text_less(b, c),
    ensures
        text_less(a, c),
    decreases a.len(),
{
    if a.len() > 0 && b.len() > 0 && c.len() > 0 && a[0] == b[0] && b[0] == c[0] {
        lemma_less_transitive(a.skip(1), b.skip(1), c.skip(1));
    }
}

/// The first text of an ascending list stands before or at any text of it.
proof fn lemma_first_is_least(r: Seq<Seq<char>>, t: Seq<char>)
    requires
        ascending(r),
        r.contains(t),
    ensures
        r[0] == t || text_less(r[0], t),
{
    let k = choose|k: int| 0 <= k < r.len() && r[k] == t;
    if k > 0 {
        assert(text_less(r[0], r[k]));
    }
}

/// Two ascending lists of the same texts are the same list, so the order and
/// the texts say what the list is.
pub proof fn law_order_fixes_the_list(a: Seq<Seq<char>>, b: Seq<Seq<char>>)
    requires
        ascending(a),
        ascending(b),
        forall|t: Seq<char>| a.contains(t) <==> b.contains(t),
    ensures
        a == b,
    decreases a.len(),
{
    if a.len() == 0 {
        if b.len() > 0 {
            assert(b.contains(b[0]));
            assert(a.contains(b[0]));
        }
        assert(a =~= b);
    } else {
        assert(a.contains(a[0]));
        assert(b.contains(a[0]));
        assert(b.len() > 0);
        assert(b.contains(b[0]));
        assert(a.contains(b[0]));
        lemma_first_is_least(a, b[0]);
        lemma_first_is_least(b, a[0]);
        if a[0] != b[0] {
            lemma_less_transitive(a[0], b[0], a[0]);
            lemma_less_irreflexive(a[0]);
        }
        let a1 = a.skip(1);
        let b1 = b.skip(1);
        assert forall|i: int, j: int| 0 <= i < j < a1.len() implies text_less(
            #[trigger] a1[i],
            #[trigger] a1[j],
        ) by {
            assert(text_less(a[i + 1], a[j + 1]));
        }
        assert forall|i: int, j: int| 0 <= i < j < b1.len() implies text_less(
            #[trigger] b1[i],
            #[trigger] b1[j],
        ) by {
            assert(text_less(b[i + 1], b[j + 1]));
        }
        assert forall|t: Seq<char>| a1.contains(t) <==> b1.contains(t) by {
            lemma_rest_contains(a, t);
            lemma_rest_contains(b, t);
        }
        law_order_fixes_the_list(a1, b1);
        assert(a =~= seq![a[0]] + a1);
        assert(b =~= seq![b[0]] + b1);
    }
}

proof fn lemma_rest_contains(r: Seq<Seq<char>>, t: Seq<char>)
    requires
        r.len() > 0,
        ascending(r),
    ensures
        r.skip(1).contains(t) <==> r.contains(t) && t != r[0],
{
    let rest = r.skip(1);
    if rest.contains(t) {
        let k = choose|k: int| 0 <= k < rest.len() && rest[k] == t;
        assert(r[k + 1] == t);
        assert(text_less(r[0], r[k + 1]));
        lemma_less_irreflexive(t);
    }
    if r.contains(t) && t != r[0] {
        let k = choose|k: int| 0 <= k < r.len() && r[k] == t;
        assert(rest[k - 1] == t);
    }
}

/// There is one such list, so that any of them is `sorted_distinct`.
pub proof fn lemma_sorted_distinct(r: Seq<Seq<char>>, items: Seq<Seq<char>>)
    requires
        lists_each_once(r, items),
    ensures
        sorted_distinct(items) == r,
{
    let c = choose|c: Seq<Seq<char>>| lists_each_once(c, items);
    assert(lists_each_once(c, items));
    law_order_fixes_the_list(c, r);
}

/// Of two different texts, one stands before the other.
proof fn lemma_less_total(a: Seq<char>, b: Seq<char>)
    ensures
        a == b || text_less(a, b) || text_less(b, a),
    decreases a.len(),
{
    if a.len() > 0 && b.len() > 0 && a[0] == b[0] {
        lemma_less_total(a.skip(1), b.skip(1));
        if a.skip(1) == b.skip(1) {
            assert(a =~= seq![a[0]] + a.skip(1));
            assert(b =~= seq![b[0]] + b.skip(1));
        }
    } else if a.len() == 0 && b.len() == 0 {
        assert(a =~= b);
    }
}

/// A text that an ascending list does not have stands between two neighbours of
/// it, at or behind position `i` where it stands behind all before that.
proof fn lemma_place(items: Seq<Seq<char>>, text: Seq<char>, i: int) -> (r: int)
    requires
        !items.contains(text),
        0 <= i <= items.len(),
        forall|k: int| 0 <= k < i ==> text_less(#[trigger] items[k], text),
    ensures
        i <= r <= items.len(),
        forall|k: int| 0 <= k < r ==> text_less(#[trigger] items[k], text),
        r < items.len() ==> text_less(text, items[r]),
    decreases items.len() - i,
{
    if i == items.len() {
        i
    } else {
        assert(items.contains(items[i]));
        lemma_less_total(items[i], text);
        if text_less(items[i], text) {
            lemma_place(items, text, i + 1)
        } else {
            i
        }
    }
}

/// Every list of texts can be put in ascending order, each text once, and
/// `sorted_distinct` is that list: it has the texts that `items` has, and no
/// others.
pub proof fn law_texts_can_be_sorted(items: Seq<Seq<char>>)
    ensures
        lists_each_once(sorted_distinct(items), items),
    decreases items.len(),
{
    if items.len() == 0 {
        let none = Seq::<Seq<char>>::empty();
        assert forall|t: Seq<char>| none.contains(t) <==> items.contains(t) by {
        }
        assert(lists_each_once(none, items));
        lemma_sorted_distinct(none, items);
    } else {
        let front = items.drop_last();
        let last = items.last();
        law_texts_can_be_sorted(front);
        let r = sorted_distinct(front);
        assert forall|t: Seq<char>| items.contains(t) <==> front.contains(t) || t == last by {
            if items.contains(t) {
                let k = choose|k: int| 0 <= k < items.len() && items[k] == t;
                if k < front.len() {
                    assert(front[k] == t);
                }
            }
            if front.contains(t) {
                let k = choose|k: int| 0 <= k < front.len() && front[k] == t;
                assert(items[k] == t);
            }
            assert(items[items.len() - 1] == last);
        }
        if r.contains(last) {
            assert(lists_each_once(r, items));
            lemma_sorted_distinct(r, items);
        } else {
            let i = lemma_place(r, last, 0);
            lemma_inserted(r, last, i);
            assert(lists_each_once(r.insert(i, last), items));
            lemma_sorted_distinct(r.insert(i, last), items);
        }
    }
}

/// How two texts stand to each other.
pub(crate) enum Standing {
    Before,
    Same,
    After,
}

/// How `a` stands to `b`.
pub(crate) fn standing(a: &[char], b: &[char]) -> (r: Standing)
    ensures
        match r {
            Standing::Before => text_less(a@, b@),
            Standing::Same => a@ == b@,
            Standing::After => text_less(b@, a@),
        },
{
    let mut i: usize = 0;
    assert(a@.skip(0) =~= a@);
    assert(b@.skip(0) =~= b@);
    while i < a.len() && i < b.len()
        invariant
            i <= a@.len(),
            i <= b@.len(),
            forall|k: int| 0 <= k < i ==> a@[k] == b@[k],
            text_less(a@, b@) == text_less(a@.skip(i as int), b@.skip(i as int)),
            text_less(b@, a@) == text_less(b@.skip(i as int), a@.skip(i as int)),
        decreases a@.len() - i,
    {
        let ghost a0 = a@.skip(i as int);
        let ghost b0 = b@.skip(i as int);
        assert(a0[0] == a@[i as int]);
        assert(b0[0] == b@[i as int]);
        if a[i] < b[i] {
            return Standing::Before;
        }
        if b[i] < a[i] {
            return Standing::After;
        }
        i += 1;
        assert(a0.skip(1) =~= a@.skip(i as int));
        assert(b0.skip(1) =~= b@.skip(i as int));
    }
    if i < b.len() {
        Standing::Before
    } else if i < a.len() {
        Standing::After
    } else {
        assert(a@ =~= b@);
        Standing::Same
    }
}

/// What each of the lists of characters holds.
pub open spec fn char_texts(items: Seq<Vec<char>>) -> Seq<Seq<char>> {
    items.map_values(|item: Vec<char>| item@)
}

/// Puts a text in its place, where it does not stand there yet.
pub(crate) fn insert_sorted(items: &mut Vec<Vec<char>>, text: Vec<char>)
    requires
        ascending(char_texts(old(items)@)),
    ensures
        ascending(char_texts(final(items)@)),
        forall|t: Seq<char>|
            char_texts(final(items)@).contains(t) <==> char_texts(old(items)@).contains(t) || t
                == text@,
{
    let ghost before = char_texts(items@);
    let mut i: usize = 0;
    while i < items.len()
        invariant
            i <= items@.len(),
            items@ == old(items)@,
            before == char_texts(items@),
            ascending(before),
            forall|k: int| 0 <= k < i ==> text_less(#[trigger] before[k], text@),
        decreases items@.len() - i,
    {
        match standing(items[i].as_slice(), text.as_slice()) {
            Standing::Before => {
                assert(before[i as int] == items@[i as int]@);
                i += 1;
            },
            Standing::Same => {
                assert(before[i as int] == items@[i as int]@);
                assert(before.contains(text@));
                return;
            },
            Standing::After => {
                assert(before[i as int] == items@[i as int]@);
                items.insert(i, text);
                proof {
                    lemma_inserted(before, text@, i as int);
                    assert(char_texts(items@) =~= before.insert(i as int, text@));
                }
                return;
            },
        }
    }
    let ghost added = text@;
    items.insert(i, text);
    proof {
        lemma_inserted(before, added, i as int);
        assert(char_texts(items@) =~= before.insert(i as int, added));
        assert(before == char_texts(old(items)@));
        assert forall|t: Seq<char>|
            char_texts(items@).contains(t) <==> char_texts(old(items)@).contains(t) || t
                == added by {
            assert(before.insert(i as int, added).contains(t) <==> before.contains(t) || t
                == added);
        }
    }
}

proof fn lemma_inserted(items: Seq<Seq<char>>, text: Seq<char>, i: int)
    requires
        ascending(items),
        0 <= i <= items.len(),
        forall|k: int| 0 <= k < i ==> text_less(#[trigger] items[k], text),
        i < items.len() ==> text_less(text, items[i]),
    ensures
        ascending(items.insert(i, text)),
        forall|t: Seq<char>|
            items.insert(i, text).contains(t) <==> items.contains(t) || t == text,
{
    let after = items.insert(i, text);
    assert forall|a: int, b: int| 0 <= a < b < after.len() implies text_less(
        #[trigger] after[a],
        #[trigger] after[b],
    ) by {
        if a < i && b == i {
            assert(text_less(items[a], text));
        } else if a == i {
            if b > i + 1 {
                assert(text_less(items[i], items[b - 1]));
                lemma_less_transitive(text, items[i], items[b - 1]);
            }
        } else {
            let x = if a < i {
                a
            } else {
                a - 1
            };
            let y = if b < i {
                b
            } else {
                b - 1
            };
            assert(text_less(items[x], items[y]));
        }
    }
    assert forall|t: Seq<char>| after.contains(t) <==> items.contains(t) || t == text by {
        if after.contains(t) {
            let k = choose|k: int| 0 <= k < after.len() && after[k] == t;
            if k < i {
                assert(items[k] == t);
            } else if k > i {
                assert(items[k - 1] == t);
            }
        }
        if items.contains(t) {
            let k = choose|k: int| 0 <= k < items.len() && items[k] == t;
            if k < i {
                assert(after[k] == t);
            } else {
                assert(after[k + 1] == t);
            }
        }
        assert(after[i] == text);
    }
}

/// A text stands before another if it is a proper start of it, or has the smaller
/// character where the two first differ.
pub proof fn law_first_difference_decides(a: Seq<char>, b: Seq<char>)
    ensures
        text_less(a, b) <==> exists|k: int| first_difference(a, b, k),
    decreases a.len(),
{
    if a.len() > 0 && b.len() > 0 && a[0] == b[0] {
        let a1 = a.skip(1);
        let b1 = b.skip(1);
        law_first_difference_decides(a1, b1);
        if exists|k: int| first_difference(a1, b1, k) {
            let k = choose|k: int| first_difference(a1, b1, k);
            assert(a.take(k + 1) =~= seq![a[0]] + a1.take(k));
            assert(b.take(k + 1) =~= seq![b[0]] + b1.take(k));
            assert(first_difference(a, b, k + 1));
        }
        if exists|k: int| first_difference(a, b, k) {
            let k = choose|k: int| first_difference(a, b, k);
            assert(k > 0);
            assert(a1.take(k - 1) =~= a.take(k).skip(1));
            assert(b1.take(k - 1) =~= b.take(k).skip(1));
            assert(first_difference(a1, b1, k - 1));
        }
    } else {
        if text_less(a, b) {
            assert(a.take(0) =~= b.take(0));
            assert(first_difference(a, b, 0));
        }
        if exists|k: int| first_difference(a, b, k) {
            let k = choose|k: int| first_difference(a, b, k);
            if k > 0 {
                assert(a.take(k)[0] == a[0]);
                assert(b.take(k)[0] == b[0]);
            }
        }
    }
}

/// The texts are the same up to position `k`, and there the first one ends or has
/// the smaller character.
pub open spec fn first_difference(a: Seq<char>, b: Seq<char>, k: int) -> bool {
    &&& 0 <= k <= a.len()
    &&& k < b.len()
    &&& a.take(k) == b.take(k)
    &&& k == a.len() || a[k] < b[k]
}

/// The list has the texts of `items`, and each stands before all that follow it.
pub proof fn law_sorted_list_has_the_texts(items: Seq<Seq<char>>, t: Seq<char>, i: int, j: int)
    ensures
        sorted_distinct(items).contains(t) <==> items.contains(t),
        0 <= i < j < sorted_distinct(items).len() ==> text_less(
            sorted_distinct(items)[i],
            sorted_distinct(items)[j],
        ),
{
    law_texts_can_be_sorted(items);
}

/// The texts of lists of characters are those characters, in the order of the
/// lists.
pub proof fn law_char_texts_show_the_lists(items: Seq<Vec<char>>)
    ensures
        char_texts(items).len() == items.len(),
        forall|i: int| 0 <= i < items.len() ==> #[trigger] char_texts(items)[i] == items[i]@,
{
}

} // verus!
