//! The order in which paths are listed, and a stable sort by it.

use vstd::prelude::*;

use crate::text::chars_of;

verus! {

/// Whether `a` stands before `b` or is equal to it: texts are ordered character
/// by character, and a text stands before any longer one that it starts.
pub open spec fn text_le(a: Seq<char>, b: Seq<char>) -> bool
    decreases a.len(),
{
    if a.len() == 0 {
        true
    } else if b.len() == 0 {
        false
    } else if a.first() == b.first() {
        text_le(a.drop_first(), b.drop_first())
    } else {
        a.first() < b.first()
    }
}

/// Of two texts one stands before the other, or they are equal.
pub proof fn lemma_text_le_total(a: Seq<char>, b: Seq<char>)
    ensures
        text_le(a, b) || text_le(b, a),
        text_le(a, b) && text_le(b, a) ==> a == b,
    decreases a.len(),
{
    if a.len() == 0 && b.len() == 0 {
        assert(a =~= b);
    } else if a.len() > 0 && b.len() > 0 && a.first() == b.first() {
        lemma_text_le_total(a.drop_first(), b.drop_first());
        if a.drop_first() == b.drop_first() {
            assert(a =~= seq![a.first()] + a.drop_first());
            assert(b =~= seq![b.first()] + b.drop_first());
        }
    }
}

/// What stands before a text stands before all that follows it.
pub proof fn lemma_text_le_transitive(a: Seq<char>, b: Seq<char>, c: Seq<char>)
    requires
        text_le(a, b),
        text_le(b, c),
    ensures
        text_le(a, c),
    decreases a.len(),
{
    if a.len() > 0 && b.len() > 0 && c.len() > 0 && a.first() == b.first() && b.first()
        == c.first() {
        lemma_text_le_transitive(a.drop_first(), b.drop_first(), c.drop_first());
    }
}

/// Whether `a` stands before `b` or is equal to it.
pub fn in_text_order(a: &str, b: &str) -> (r: bool)
    ensures
        r == text_le(a@, b@),
{
    let x = chars_of(a);
    let y = chars_of(b);
    let mut i: usize = 0;
    assert(x@.skip(0) =~= a@);
    assert(y@.skip(0) =~= b@);
    while i < x.len() && i < y.len() && x[i] == y[i]
        invariant
            0 <= i <= x@.len(),
            i <= y@.len(),
            x@ == a@,
            y@ == b@,
            text_le(a@, b@) == text_le(x@.skip(i as int), y@.skip(i as int)),
        decreases x@.len() - i,
    {
        assert(x@.skip(i as int).drop_first() =~= x@.skip(i as int + 1));
        assert(y@.skip(i as int).drop_first() =~= y@.skip(i as int + 1));
        i = i + 1;
    }
    if i == x.len() {
        true
    } else if i == y.len() {
        false
    } else {
        x[i] < y[i]
    }
}

/// What is listed under a text.
pub trait Listed: View + Sized {
    /// The text that orders it.
    spec fn key(v: Self::V) -> Seq<char>;

    /// The text that orders it.
    fn key_text(&self) -> (r: &str)
        ensures
            r@ == Self::key(self@),
    ;
}

impl Listed for String {
    open spec fn key(v: Seq<char>) -> Seq<char> {
        v
    }

    fn key_text(&self) -> (r: &str) {
        self.as_str()
    }
}

/// What the items of a list hold.
pub open spec fn contents<T: Listed>(items: Seq<T>) -> Seq<T::V> {
    items.map_values(|t: T| t@)
}

/// Two lists in one, each in its own order: what comes later in the order
/// comes later in the result, and of equals those of `b` come later.
pub open spec fn merged<T: Listed>(a: Seq<T::V>, b: Seq<T::V>) -> Seq<T::V>
    decreases a.len() + b.len(),
{
    if a.len() == 0 {
        b
    } else if b.len() == 0 {
        a
    } else if text_le(T::key(a.last()), T::key(b.last())) {
        merged::<T>(a, b.drop_last()).push(b.last())
    } else {
        merged::<T>(a.drop_last(), b).push(a.last())
    }
}

/// The items of `s` in the order of their texts; those with equal texts stay in
/// the order that they have in `s`.
pub open spec fn in_order<T: Listed>(s: Seq<T::V>) -> Seq<T::V>
    decreases s.len(),
{
    if s.len() == 0 {
        s
    } else {
        merged::<T>(in_order::<T>(s.drop_last()), seq![s.last()])
    }
}

proof fn lemma_merged_associative<T: Listed>(a: Seq<T::V>, b: Seq<T::V>, c: Seq<T::V>)
    ensures
        merged::<T>(a, merged::<T>(b, c)) == merged::<T>(merged::<T>(a, b), c),
    decreases a.len() + b.len() + c.len(),
{
    let bc = merged::<T>(b, c);
    let ab = merged::<T>(a, b);
    if a.len() > 0 && b.len() > 0 && c.len() > 0 {
        let x = T::key(a.last());
        let y = T::key(b.last());
        let z = T::key(c.last());
        if text_le(y, z) {
            assert(bc.drop_last() =~= merged::<T>(b, c.drop_last()));
            lemma_merged_associative::<T>(a, b, c.drop_last());
            if text_le(x, y) {
                lemma_text_le_transitive(x, y, z);
                assert(ab.drop_last() =~= merged::<T>(a, b.drop_last()));
            } else {
                assert(ab.drop_last() =~= merged::<T>(a.drop_last(), b));
                if !text_le(x, z) {
                    lemma_merged_associative::<T>(a.drop_last(), b, c);
                }
            }
        } else {
            lemma_text_le_total(y, z);
            assert(bc.drop_last() =~= merged::<T>(b.drop_last(), c));
            if text_le(x, y) {
                assert(ab.drop_last() =~= merged::<T>(a, b.drop_last()));
                lemma_merged_associative::<T>(a, b.drop_last(), c);
            } else {
                lemma_text_le_total(x, y);
                if text_le(x, z) {
                    lemma_text_le_transitive(x, z, y);
                    lemma_text_le_total(x, y);
                }
                assert(ab.drop_last() =~= merged::<T>(a.drop_last(), b));
                lemma_merged_associative::<T>(a.drop_last(), b, c);
            }
        }
    }
}

proof fn lemma_in_order_of_two_halves<T: Listed>(a: Seq<T::V>, b: Seq<T::V>)
    ensures
        in_order::<T>(a + b) == merged::<T>(in_order::<T>(a), in_order::<T>(b)),
    decreases b.len(),
{
    if b.len() == 0 {
        assert(a + b =~= a);
        assert(in_order::<T>(b) =~= b);
    } else {
        assert((a + b).drop_last() =~= a + b.drop_last());
        lemma_in_order_of_two_halves::<T>(a, b.drop_last());
        lemma_merged_associative::<T>(
            in_order::<T>(a),
            in_order::<T>(b.drop_last()),
            seq![b.last()],
        );
    }
}

fn merge<T: Listed>(first: Vec<T>, second: Vec<T>) -> (r: Vec<T>)
    ensures
        contents(r@) == merged::<T>(contents(first@), contents(second@)),
{
    let mut a = first;
    let mut b = second;
    let ghost whole = merged::<T>(contents(a@), contents(b@));
    let mut tail: Vec<T> = Vec::new();
    assert(whole + contents(tail@).reverse() =~= whole);
    while a.len() > 0 && b.len() > 0
        invariant
            merged::<T>(contents(a@), contents(b@)) + contents(tail@).reverse() == whole,
        decreases a@.len() + b@.len(),
    {
        let ghost x = contents(a@);
        let ghost y = contents(b@);
        let ghost t = contents(tail@);
        let from_second = in_text_order(a[a.len() - 1].key_text(), b[b.len() - 1].key_text());
        assert(x.last() == a@.last()@ && y.last() == b@.last()@);
        let next = if from_second {
            b.pop()
        } else {
            a.pop()
        };
        match next {
            Some(item) => {
                let ghost it = item@;
                tail.push(item);
                assert(contents(tail@) =~= t.push(it));
                assert(t.push(it).reverse() =~= seq![it] + t.reverse());
                if from_second {
                    assert(contents(b@) =~= y.drop_last());
                    assert(it == y.last());
                } else {
                    assert(contents(a@) =~= x.drop_last());
                    assert(it == x.last());
                }
                let ghost now = merged::<T>(contents(a@), contents(b@));
                assert(now.push(it) + t.reverse() =~= now + (seq![it] + t.reverse()));
            },
            None => {},
        }
    }
    let mut r = if a.len() > 0 {
        a
    } else {
        b
    };
    let ghost head = contents(r@);
    let mut rest = tail;
    let ghost t = contents(rest@);
    assert(head + t.reverse() == whole);
    assert(head + t.reverse().take(0) =~= head);
    let ghost n = t.len();
    while rest.len() > 0
        invariant
            rest@.len() <= n == t.len(),
            contents(rest@) == t.take(rest@.len() as int),
            contents(r@) == head + t.reverse().take(n - rest@.len()),
        decreases rest@.len(),
    {
        let ghost before = contents(r@);
        let ghost left = contents(rest@);
        match rest.pop() {
            Some(item) => {
                assert(item@ == left.last());
                r.push(item);
                assert(contents(r@) =~= before.push(item@));
                assert(contents(rest@) =~= left.drop_last());
            },
            None => {},
        }
    }
    assert(t.reverse().take(n as int) =~= t.reverse());
    r
}

/// Puts `items` in the order of their texts; those with equal texts stay in the
/// order that they have.
pub fn sort<T: Listed>(items: Vec<T>) -> (r: Vec<T>)
    ensures
        contents(r@) == in_order::<T>(contents(items@)),
    decreases items@.len(),
{
    let n: usize = items.len();
    if n == 0 {
        assert(contents(items@) =~= Seq::empty());
        return items;
    }
    if n == 1 {
        let ghost s = contents(items@);
        assert(s.drop_last() =~= Seq::empty());
        assert(in_order::<T>(s.drop_last()) =~= Seq::empty());
        assert(seq![s.last()] =~= s);
        return items;
    }
    let mut first = items;
    let ghost s = contents(items@);
    let second = first.split_off(n / 2);
    assert(contents(first@) + contents(second@) =~= s);
    proof {
        lemma_in_order_of_two_halves::<T>(contents(first@), contents(second@));
    }
    merge(sort(first), sort(second))
}

// ---------------------------------------------------------------------------
// What the order gives
// ---------------------------------------------------------------------------

/// Whether each item of `s` stands before those that follow it.
pub open spec fn ordered<T: Listed>(s: Seq<T::V>) -> bool {
    forall|i: int, j: int|
        0 <= i <= j < s.len() ==> text_le(T::key(#[trigger] s[i]), T::key(#[trigger] s[j]))
}

/// The items of `s` that are listed under `key`, in the order of `s`.
pub open spec fn listed_under<T: Listed>(s: Seq<T::V>, key: Seq<char>) -> Seq<T::V>
    decreases s.len(),
{
    if s.len() == 0 {
        s
    } else if T::key(s.last()) == key {
        listed_under::<T>(s.drop_last(), key).push(s.last())
    } else {
        listed_under::<T>(s.drop_last(), key)
    }
}

proof fn lemma_merged_ordered<T: Listed>(a: Seq<T::V>, b: Seq<T::V>)
    requires
        ordered::<T>(a),
        ordered::<T>(b),
    ensures
        ordered::<T>(merged::<T>(a, b)),
        forall|i: int|
            0 <= i < merged::<T>(a, b).len() ==> a.contains(#[trigger] merged::<T>(a, b)[i])
                || b.contains(merged::<T>(a, b)[i]),
    decreases a.len() + b.len(),
{
    let m = merged::<T>(a, b);
    if a.len() == 0 {
        assert forall|i: int| 0 <= i < m.len() implies b.contains(#[trigger] m[i]) by {
            assert(m[i] == b[i]);
        }
    } else if b.len() == 0 {
        assert forall|i: int| 0 <= i < m.len() implies a.contains(#[trigger] m[i]) by {
            assert(m[i] == a[i]);
        }
    } else {
        let from_b = text_le(T::key(a.last()), T::key(b.last()));
        let (p, q, last) = if from_b {
            (a, b.drop_last(), b.last())
        } else {
            (a.drop_last(), b, a.last())
        };
        assert(ordered::<T>(p)) by {
            assert forall|i: int, j: int| 0 <= i <= j < p.len() implies text_le(
                T::key(#[trigger] p[i]),
                T::key(#[trigger] p[j]),
            ) by {
                assert(p[i] == a[i] && p[j] == a[j]);
            }
        }
        assert(ordered::<T>(q)) by {
            assert forall|i: int, j: int| 0 <= i <= j < q.len() implies text_le(
                T::key(#[trigger] q[i]),
                T::key(#[trigger] q[j]),
            ) by {
                assert(q[i] == b[i] && q[j] == b[j]);
            }
        }
        lemma_merged_ordered::<T>(p, q);
        let rest = merged::<T>(p, q);
        lemma_text_le_total(T::key(a.last()), T::key(b.last()));
        assert forall|i: int| 0 <= i < rest.len() implies text_le(
            T::key(#[trigger] rest[i]),
            T::key(last),
        ) && (a.contains(rest[i]) || b.contains(rest[i])) by {
            if p.contains(rest[i]) {
                let k = choose|k: int| 0 <= k < p.len() && p[k] == rest[i];
                assert(a[k] == rest[i]);
                assert(text_le(T::key(a[k]), T::key(a[a.len() - 1])));
                lemma_text_le_transitive(T::key(a[k]), T::key(a.last()), T::key(last));
            } else {
                let k = choose|k: int| 0 <= k < q.len() && q[k] == rest[i];
                assert(b[k] == rest[i]);
                assert(text_le(T::key(b[k]), T::key(b[b.len() - 1])));
                lemma_text_le_transitive(T::key(b[k]), T::key(b.last()), T::key(last));
            }
        }
        assert(m == rest.push(last));
        assert forall|i: int, j: int| 0 <= i <= j < m.len() implies text_le(
            T::key(#[trigger] m[i]),
            T::key(#[trigger] m[j]),
        ) by {
            lemma_text_le_total(T::key(last), T::key(last));
            if j < rest.len() {
                assert(m[i] == rest[i] && m[j] == rest[j]);
            } else if i < rest.len() {
                assert(m[i] == rest[i]);
            }
        }
        assert forall|i: int| 0 <= i < m.len() implies a.contains(#[trigger] m[i]) || b.contains(
            m[i],
        ) by {
            if i < rest.len() {
                assert(m[i] == rest[i]);
            } else if from_b {
                assert(m[i] == b[b.len() - 1]);
            } else {
                assert(m[i] == a[a.len() - 1]);
            }
        }
    }
}

proof fn lemma_listed_under_ordered<T: Listed>(s: Seq<T::V>, key: Seq<char>)
    requires
        ordered::<T>(s),
        s.len() > 0,
        text_le(T::key(s.last()), key),
        T::key(s.last()) != key,
    ensures
        listed_under::<T>(s, key).len() == 0,
    decreases s.len(),
{
    let rest = s.drop_last();
    if rest.len() > 0 {
        assert(text_le(T::key(s[rest.len() - 1]), T::key(s[s.len() - 1])));
        lemma_text_le_transitive(T::key(rest.last()), T::key(s.last()), key);
        if T::key(rest.last()) == key {
            lemma_text_le_total(T::key(s.last()), key);
        }
        assert(ordered::<T>(rest)) by {
            assert forall|i: int, j: int| 0 <= i <= j < rest.len() implies text_le(
                T::key(#[trigger] rest[i]),
                T::key(#[trigger] rest[j]),
            ) by {
                assert(rest[i] == s[i] && rest[j] == s[j]);
            }
        }
        lemma_listed_under_ordered::<T>(rest, key);
    } else {
        assert(listed_under::<T>(rest, key) == rest);
    }
}

proof fn lemma_merged_listed_under<T: Listed>(a: Seq<T::V>, b: Seq<T::V>, key: Seq<char>)
    requires
        ordered::<T>(a),
        ordered::<T>(b),
    ensures
        listed_under::<T>(merged::<T>(a, b), key) == listed_under::<T>(a, key) + listed_under::<T>(
            b,
            key,
        ),
    decreases a.len() + b.len(),
{
    let m = merged::<T>(a, b);
    if a.len() == 0 {
        assert(listed_under::<T>(a, key) + listed_under::<T>(b, key) =~= listed_under::<T>(b, key));
    } else if b.len() == 0 {
        assert(listed_under::<T>(a, key) + listed_under::<T>(b, key) =~= listed_under::<T>(a, key));
    } else {
        let from_b = text_le(T::key(a.last()), T::key(b.last()));
        let (p, q, last) = if from_b {
            (a, b.drop_last(), b.last())
        } else {
            (a.drop_last(), b, a.last())
        };
        assert(ordered::<T>(p)) by {
            assert forall|i: int, j: int| 0 <= i <= j < p.len() implies text_le(
                T::key(#[trigger] p[i]),
                T::key(#[trigger] p[j]),
            ) by {
                assert(p[i] == a[i] && p[j] == a[j]);
            }
        }
        assert(ordered::<T>(q)) by {
            assert forall|i: int, j: int| 0 <= i <= j < q.len() implies text_le(
                T::key(#[trigger] q[i]),
                T::key(#[trigger] q[j]),
            ) by {
                assert(q[i] == b[i] && q[j] == b[j]);
            }
        }
        lemma_merged_listed_under::<T>(p, q, key);
        assert(m.drop_last() =~= merged::<T>(p, q));
        let x = listed_under::<T>(a, key);
        let y = listed_under::<T>(b, key);
        if from_b {
            assert(x + listed_under::<T>(q, key).push(last) =~= (x + listed_under::<T>(
                q,
                key,
            )).push(last));
        } else if T::key(last) == key {
            lemma_text_le_total(T::key(a.last()), T::key(b.last()));
            lemma_listed_under_ordered::<T>(b, key);
            assert(y =~= Seq::empty());
            assert(x + y =~= x);
            assert(listed_under::<T>(p, key) + y =~= listed_under::<T>(p, key));
        }
    }
}

/// A sorted list is in order, and holds under each text just what the list held
/// under it, in the order that it had: nothing is lost, added or doubled.
pub proof fn law_sorting<T: Listed>(s: Seq<T::V>)
    ensures
        ordered::<T>(in_order::<T>(s)),
        forall|key: Seq<char>| #[trigger]
            listed_under::<T>(in_order::<T>(s), key) == listed_under::<T>(s, key),
        in_order::<T>(s).len() == s.len(),
    decreases s.len(),
{
    if s.len() > 0 {
        law_sorting::<T>(s.drop_last());
        let before = in_order::<T>(s.drop_last());
        let one = seq![s.last()];
        assert(ordered::<T>(one)) by {
            lemma_text_le_total(T::key(s.last()), T::key(s.last()));
        }
        lemma_merged_ordered::<T>(before, one);
        lemma_merged_len::<T>(before, one);
        assert forall|key: Seq<char>| #[trigger]
            listed_under::<T>(in_order::<T>(s), key) == listed_under::<T>(s, key) by {
            lemma_merged_listed_under::<T>(before, one, key);
            assert(listed_under::<T>(before, key) == listed_under::<T>(s.drop_last(), key));
            assert(one.drop_last() =~= Seq::empty());
            let under = listed_under::<T>(s.drop_last(), key);
            assert(listed_under::<T>(one.drop_last(), key) =~= Seq::empty());
            if T::key(s.last()) == key {
                assert(listed_under::<T>(one, key) =~= one);
                assert(under + one =~= under.push(s.last()));
            } else {
                assert(under + listed_under::<T>(one, key) =~= under);
            }
        }
    }
}

proof fn lemma_merged_len<T: Listed>(a: Seq<T::V>, b: Seq<T::V>)
    ensures
        merged::<T>(a, b).len() == a.len() + b.len(),
    decreases a.len() + b.len(),
{
    if a.len() > 0 && b.len() > 0 {
        if text_le(T::key(a.last()), T::key(b.last())) {
            lemma_merged_len::<T>(a, b.drop_last());
        } else {
            lemma_merged_len::<T>(a.drop_last(), b);
        }
    }
}

} // verus!
