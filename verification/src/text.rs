//! Texts as sequences of characters: equality, and the order in which
//! texts are compared character by character.

use vstd::prelude::*;
use vstd::string::*;

verus! {

/// `str`'s `==`: two texts are equal exactly when their characters are.
pub assume_specification[ <str as PartialEq>::eq ](a: &str, b: &str) -> (r: bool)
    ensures
        r == (a@ == b@),
;

/// The characters of an optional string.
pub open spec fn text_of(s: Option<String>) -> Option<Seq<char>> {
    match s {
        Some(t) => Some(t@),
        None => None,
    }
}

/// A copy of an optional string.
pub(crate) fn copy_optional_text(text: &Option<String>) -> (r: Option<String>)
    ensures
        text_of(r) == text_of(*text),
{
    match text {
        Some(t) => Some(t.clone()),
        None => None,
    }
}

/// Whether text `a` comes before text `b`: they agree on their first `k`
/// characters, `b` has one more, and there `a` either ends or has a smaller
/// character.
pub open spec fn text_before(a: Seq<char>, b: Seq<char>) -> bool {
    exists|k: int|
        #![trigger a.take(k)]
        0 <= k <= a.len() && k < b.len() && a.take(k) == b.take(k) && (k == a.len() || (
        a[k] as int) < (b[k] as int))
}

/// Compares two texts character by character.
pub fn is_text_before(a: &str, b: &str) -> (before: bool)
    ensures
        before == text_before(a@, b@),
{
    let n = a.unicode_len();
    let m = b.unicode_len();
    let mut i: usize = 0;
    while i < n && i < m
        invariant
            i <= n,
            i <= m,
            n == a@.len(),
            m == b@.len(),
            forall|k: int| 0 <= k < i ==> a@[k] == b@[k],
        decreases n - i,
    {
        let ca = a.get_char(i);
        let cb = b.get_char(i);
        if ca != cb {
            let before = (ca as u32) < (cb as u32);
            proof {
                if before {
                    assert(a@.take(i as int) =~= b@.take(i as int));
                } else {
                    assert forall|k: int|
                        0 <= k <= a@.len() && k < b@.len() && #[trigger] a@.take(k) == b@.take(k)
                        implies !(k == a@.len() || (a@[k] as int) < (b@[k] as int)) by {
                        if k > i {
                            assert(a@.take(k)[i as int] == a@[i as int]);
                            assert(b@.take(k)[i as int] == b@[i as int]);
                        }
                    }
                }
            }
            return before;
        }
        i += 1;
    }
    proof {
        if i < m {
            assert(a@.take(i as int) =~= b@.take(i as int));
        }
    }
    i < m
}

/// No text comes before itself.
pub proof fn lemma_text_not_before_itself(a: Seq<char>)
    ensures
        !text_before(a, a),
{
}

/// Two texts that agree on their first `i` characters are equal, or one of
/// them comes before the other.
proof fn lemma_texts_compare_from(a: Seq<char>, b: Seq<char>, i: int)
    requires
        0 <= i <= a.len(),
        i <= b.len(),
        a.take(i) == b.take(i),
    ensures
        a == b || text_before(a, b) || text_before(b, a),
    decreases a.len() - i,
{
    if i == a.len() {
        if i == b.len() {
            assert(a.take(i) =~= a);
            assert(b.take(i) =~= b);
        } else {
            assert(text_before(a, b));
        }
    } else if i == b.len() {
        assert(b.take(i) == a.take(i));
        assert(text_before(b, a));
    } else if a[i] == b[i] {
        assert(a.take(i + 1) =~= a.take(i).push(a[i]));
        assert(b.take(i + 1) =~= b.take(i).push(b[i]));
        lemma_texts_compare_from(a, b, i + 1);
    } else if (a[i] as int) < (b[i] as int) {
        assert(text_before(a, b));
    } else {
        assert(b.take(i) == a.take(i));
        assert((b[i] as int) < (a[i] as int));
        assert(text_before(b, a));
    }
}

/// Of two different texts one comes before the other.
pub proof fn lemma_texts_are_ordered(a: Seq<char>, b: Seq<char>)
    ensures
        a == b || text_before(a, b) || text_before(b, a),
{
    assert(a.take(0) =~= b.take(0));
    lemma_texts_compare_from(a, b, 0);
}

/// A text that comes before a second, which comes before a third, comes
/// before the third.
pub proof fn lemma_text_order_is_transitive(a: Seq<char>, b: Seq<char>, c: Seq<char>)
    requires
        text_before(a, b),
        text_before(b, c),
    ensures
        text_before(a, c),
{
    let k1 = choose|k: int|
        #![trigger a.take(k)]
        0 <= k <= a.len() && k < b.len() && a.take(k) == b.take(k) && (k == a.len() || (
        a[k] as int) < (b[k] as int));
    let k2 = choose|k: int|
        #![trigger b.take(k)]
        0 <= k <= b.len() && k < c.len() && b.take(k) == c.take(k) && (k == b.len() || (
        b[k] as int) < (c[k] as int));
    let k = if k1 <= k2 {
        k1
    } else {
        k2
    };
    assert(a.take(k) =~= c.take(k)) by {
        assert forall|i: int| 0 <= i < k implies a[i] == c[i] by {
            assert(a.take(k1)[i] == b.take(k1)[i]);
            assert(b.take(k2)[i] == c.take(k2)[i]);
        }
    }
    if k1 < k2 {
        assert(b.take(k2)[k1] == c.take(k2)[k1]);
    } else if k2 < k1 {
        assert(a.take(k1)[k2] == b.take(k1)[k2]);
    }
    assert(k == a.len() || (a[k] as int) < (c[k] as int));
}

} // verus!
