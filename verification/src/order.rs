//! The order of texts, and lists of texts in that order.

use crate::text;
use vstd::prelude::*;

verus! {

/// Whether a text comes before another: at the first place where they differ it has the smaller
/// character, or it ends there.
pub open spec fn before(a: Seq<char>, b: Seq<char>) -> bool
    decreases a.len(),
{
    if b.len() == 0 {
        false
    } else if a.len() == 0 {
        true
    } else if a[0] != b[0] {
        a[0] < b[0]
    } else {
        before(a.skip(1), b.skip(1))
    }
}

/// Whether each text of a list comes before those behind it.
pub open spec fn ascending(list: Seq<Seq<char>>) -> bool {
    forall|i: int, j: int| 0 <= i < j < list.len() ==> before(#[trigger] list[i], #[trigger] list[j])
}

/// No text comes before itself.
pub proof fn lemma_irreflexive(a: Seq<char>)
    ensures
        !before(a, a),
    decreases a.len(),
{
    if a.len() > 0 {
        lemma_irreflexive(a.skip(1));
    }
}

/// Of two different texts, one comes before the other.
pub proof fn lemma_total(a: Seq<char>, b: Seq<char>)
    ensures
        before(a, b) || before(b, a) || a == b,
    decreases a.len(),
{
    if a.len() > 0 && b.len() > 0 && a[0] == b[0] {
        lemma_total(a.skip(1), b.skip(1));
        if a.skip(1) == b.skip(1) {
            assert(a =~= seq![a[0]] + a.skip(1));
            assert(b =~= seq![b[0]] + b.skip(1));
        }
    } else if a.len() == 0 && b.len() == 0 {
        assert(a =~= b);
    }
}

/// What comes before a text that comes before another, comes before the other.
pub proof fn lemma_transitive(a: Seq<char>, b: Seq<char>, c: Seq<char>)
    requires
        before(a, b),
        before(b, c),
    ensures
        before(a, c),
    decreases a.len(),
{
    if a.len() > 0 && a[0] == b[0] && b[0] == c[0] {
        lemma_transitive(a.skip(1), b.skip(1), c.skip(1));
    }
}

/// Whether a text comes before another.
pub fn comes_before(a: &[char], b: &[char]) -> (r: bool)
    ensures
        r == before(a@, b@),
{
    let mut i: usize = 0;
    assert(a@.skip(0) =~= a@);
    assert(b@.skip(0) =~= b@);
    while i < a.len() && i < b.len() && a[i] == b[i]
        invariant
            i <= a.len(),
            i <= b.len(),
            before(a@, b@) == before(a@.skip(i as int), b@.skip(i as int)),
        decreases a.len() - i,
    {
        assert(a@.skip(i as int).skip(1) =~= a@.skip(i + 1));
        assert(b@.skip(i as int).skip(1) =~= b@.skip(i + 1));
        i += 1;
    }
    if i >= b.len() {
        false
    } else if i >= a.len() {
        true
    } else {
        a[i] < b[i]
    }
}

/// Puts a text into an ascending list, where it is not in it yet.
fn put(list: &mut Vec<String>, s: String)
    requires
        ascending(text::texts(old(list)@)),
    ensures
        ascending(text::texts(final(list)@)),
        text::texts(final(list)@).to_set() == text::texts(old(list)@).to_set().insert(s@),
{
    let ghost was = text::texts(list@);
    let chars = text::to_chars(s.as_str());
    let mut lo: usize = 0;
    let mut hi: usize = list.len();
    while lo < hi
        invariant
            lo <= hi <= list.len(),
            chars@ == s@,
            was == text::texts(list@),
            ascending(was),
            forall|j: int| 0 <= j < lo ==> before(#[trigger] was[j], s@),
            forall|j: int| hi <= j < was.len() ==> !before(#[trigger] was[j], s@),
        decreases hi - lo,
    {
        let mid: usize = lo + (hi - lo) / 2;
        let other = text::to_chars(list[mid].as_str());
        assert(was[mid as int] == other@);
        if comes_before(other.as_slice(), chars.as_slice()) {
            assert forall|j: int| 0 <= j < mid + 1 implies before(#[trigger] was[j], s@) by {
                if j < mid {
                    lemma_transitive(was[j], was[mid as int], s@);
                }
            }
            lo = mid + 1;
        } else {
            assert forall|j: int| mid <= j < was.len() implies !before(#[trigger] was[j], s@) by {
                if mid < j && before(was[j], s@) {
                    lemma_transitive(was[mid as int], was[j], s@);
                }
            }
            hi = mid;
        }
    }
    if lo < list.len() && text::same_text(list[lo].as_str(), s.as_str()) {
        assert(was[lo as int] == s@);
        assert(was.to_set().insert(s@) =~= was.to_set());
        return;
    }
    list.insert(lo, s);
    proof {
        let now = text::texts(list@);
        assert(now =~= was.insert(lo as int, s@));
        assert forall|j: int| lo <= j < was.len() implies before(s@, #[trigger] was[j]) by {
            lemma_total(s@, was[j]);
            if was[j] == s@ {
                if j > lo {
                    assert(before(was[lo as int], was[j]));
                }
            }
        }
        assert(ascending(now));
        assert forall|t: Seq<char>| #[trigger] now.to_set().contains(t) == was.to_set().insert(
            s@,
        ).contains(t) by {
            if was.contains(t) {
                let k = was.index_of(t);
                if k < lo {
                    assert(now[k] == t);
                } else {
                    assert(now[k + 1] == t);
                }
            }
            if t == s@ {
                assert(now[lo as int] == t);
            }
            if now.contains(t) {
                let k = now.index_of(t);
                if k < lo {
                    assert(was[k] == t);
                } else if k > lo {
                    assert(was[k - 1] == t);
                }
            }
        }
        assert(now.to_set() =~= was.to_set().insert(s@));
    }
}

/// The texts of a list in ascending order, each once.
pub fn sorted(list: Vec<String>) -> (out: Vec<String>)
    ensures
        ascending(text::texts(out@)),
        text::texts(out@).to_set() == text::texts(list@).to_set(),
{
    let ghost all = text::texts(list@);
    let mut list = list;
    let mut out: Vec<String> = Vec::new();
    assert(text::texts(out@).to_set().union(text::texts(list@).to_set()) =~= all.to_set());
    loop
        invariant
            ascending(text::texts(out@)),
            text::texts(out@).to_set().union(text::texts(list@).to_set()) == all.to_set(),
        ensures
            list@.len() == 0,
            ascending(text::texts(out@)),
            text::texts(out@).to_set().union(text::texts(list@).to_set()) == all.to_set(),
        decreases list@.len(),
    {
        let ghost left = text::texts(list@);
        let ghost had = text::texts(out@);
        match list.pop() {
            Some(s) => {
                let ghost key = s@;
                put(&mut out, s);
                proof {
                    let rest = text::texts(list@);
                    assert(left =~= rest.push(key));
                    assert forall|t: Seq<char>| #[trigger] left.to_set().contains(t)
                        == rest.to_set().insert(key).contains(t) by {
                        if rest.contains(t) {
                            assert(left[rest.index_of(t)] == t);
                        }
                        if t == key {
                            assert(left[left.len() - 1] == t);
                        }
                    }
                    assert(text::texts(out@).to_set().union(rest.to_set()) =~= had.to_set().union(
                        left.to_set(),
                    ));
                }
            },
            None => {
                break;
            },
        }
    }
    assert(text::texts(out@).to_set() =~= all.to_set());
    out
}

/// A set of texts has only one ascending list: the first texts of two such lists are the same, and
/// so on.
pub proof fn law_one_ascending_list(a: Seq<Seq<char>>, b: Seq<Seq<char>>)
    requires
        ascending(a),
        ascending(b),
        a.to_set() == b.to_set(),
    ensures
        a == b,
    decreases a.len(),
{
    if a.len() == 0 || b.len() == 0 {
        if a.len() > 0 {
            assert(a.to_set().contains(a[0]));
            assert(b.contains(a[0]));
        }
        if b.len() > 0 {
            assert(b.to_set().contains(b[0]));
            assert(a.contains(b[0]));
        }
        assert(a =~= b);
    } else {
        let x = a.last();
        let y = b.last();
        assert(a.to_set().contains(x) && b.to_set().contains(y));
        let i = b.index_of(x);
        let j = a.index_of(y);
        assert(b.contains(x) && a.contains(y));
        if x != y {
            assert(before(b[i], b[b.len() - 1]));
            assert(before(a[j], a[a.len() - 1]));
            lemma_transitive(x, y, x);
            lemma_irreflexive(x);
        }
        let c = a.drop_last();
        let d = b.drop_last();
        assert forall|t: Seq<char>| #[trigger] c.to_set().contains(t) == d.to_set().contains(t) by {
            lemma_irreflexive(x);
            if c.contains(t) {
                let k = c.index_of(t);
                assert(a[k] == t);
                assert(before(a[k], a[a.len() - 1]));
                assert(a.to_set().contains(t));
                assert(b.contains(t));
                assert(d[b.index_of(t)] == t);
            }
            if d.contains(t) {
                let k = d.index_of(t);
                assert(b[k] == t);
                assert(before(b[k], b[b.len() - 1]));
                assert(b.to_set().contains(t));
                assert(a.contains(t));
                assert(c[a.index_of(t)] == t);
            }
        }
        assert(c.to_set() =~= d.to_set());
        law_one_ascending_list(c, d);
        assert(a =~= c.push(x));
        assert(b =~= d.push(y));
    }
}

/// Of two texts that are the same up to some place, the one with the smaller character there comes
/// before the other, and one that ends there comes before one that does not.
pub proof fn law_the_first_difference_decides(
    same: Seq<char>,
    a: char,
    b: char,
    rest: Seq<char>,
    other: Seq<char>,
)
    ensures
        a < b ==> before(same.push(a) + rest, same.push(b) + other),
        a < b ==> !before(same.push(b) + other, same.push(a) + rest),
        before(same, same.push(a) + rest),
        !before(same.push(a) + rest, same),
    decreases same.len(),
{
    let x = same.push(a) + rest;
    let y = same.push(b) + other;
    if same.len() > 0 {
        let less = same.skip(1);
        law_the_first_difference_decides(less, a, b, rest, other);
        assert(x.skip(1) =~= less.push(a) + rest);
        assert(y.skip(1) =~= less.push(b) + other);
    }
}

/// What is sorted holds the same texts, each once and after those that come before it.
pub proof fn law_sorting(list: Vec<String>, out: Vec<String>, i: int, j: int)
    requires
        call_ensures(sorted, (list,), out),
    ensures
        0 <= i < j < out@.len() ==> before(out@[i]@, out@[j]@) && out@[i]@ != out@[j]@,
        forall|s: Seq<char>| #[trigger]
            text::texts(out@).contains(s) <==> text::texts(list@).contains(s),
{
    let all = text::texts(out@);
    if 0 <= i < j < out@.len() {
        assert(before(all[i], all[j]));
        lemma_irreflexive(all[i]);
    }
    assert forall|s: Seq<char>| #[trigger] all.contains(s) <==> text::texts(list@).contains(s) by {
        assert(all.to_set().contains(s) == all.contains(s));
        assert(text::texts(list@).to_set().contains(s) == text::texts(list@).contains(s));
    }
}

/// Texts are told apart by their order as stated.
pub proof fn law_order_is_told(a: &[char], b: &[char], out: bool)
    requires
        call_ensures(comes_before, (a, b), out),
    ensures
        out <==> before(a@, b@),
{
}

} // verus!
