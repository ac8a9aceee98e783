//! The set of passwords that one run tries: the caller's list and the empty
//! password, each once, in ascending order.

use crate::order::{
    ascending, compare_bytes, lemma_bytes_before_total, lemma_empty_first, lemma_key_injective,
    lemma_precedes_irreflexive, lemma_precedes_transitive, precedes, Place,
};
use vstd::prelude::*;
use vstd::utf8::*;

verus! {

/// The password that stands for "no password": the empty string.
pub open spec fn sentinel() -> Seq<char> {
    Seq::empty()
}

/// Whether a run on `list` tries the password `p`: the sentinel always, and
/// every password of the list.
pub open spec fn is_candidate(list: Option<Seq<Seq<char>>>, p: Seq<char>) -> bool {
    p == sentinel() || (list matches Some(given) && given.contains(p))
}

/// Whether `set` is the trial set of `list`: ascending, and holding the
/// candidates of `list` and nothing else.
pub open spec fn is_candidate_set(list: Option<Seq<Seq<char>>>, set: Seq<Seq<char>>) -> bool {
    &&& ascending(set)
    &&& forall|p: Seq<char>| #[trigger] set.contains(p) <==> is_candidate(list, p)
}

/// The trial set of `list`. [`lemma_candidate_set`] shows that there is one,
/// [`lemma_candidate_set_unique`] that there is no other.
pub open spec fn candidate_set(list: Option<Seq<Seq<char>>>) -> Seq<Seq<char>> {
    choose|set: Seq<Seq<char>>| is_candidate_set(list, set)
}

/// Two ascending sequences that hold the same elements are equal.
pub proof fn lemma_ascending_unique(a: Seq<Seq<char>>, b: Seq<Seq<char>>)
    requires
        ascending(a),
        ascending(b),
        forall|p: Seq<char>| a.contains(p) <==> b.contains(p),
    ensures
        a == b,
    decreases a.len(),
{
    if a.len() == 0 {
        if b.len() > 0 {
            assert(b.contains(b[0]));
            assert(a.contains(b[0]));
        }
        assert(a =~= b);
    } else {
        let top = a.last();
        assert(a.contains(top));
        assert(b.contains(top));
        let high = b.last();
        assert(b.contains(high));
        assert(a.contains(high));
        let i = choose|i: int| 0 <= i < a.len() && a[i] == high;
        let j = choose|j: int| 0 <= j < b.len() && b[j] == top;
        if i < a.len() - 1 && j < b.len() - 1 {
            lemma_precedes_transitive(top, high, top);
        }
        lemma_precedes_irreflexive(top);
        assert(top == high);
        let a0 = a.drop_last();
        let b0 = b.drop_last();
        assert forall|p: Seq<char>| a0.contains(p) <==> b0.contains(p) by {
            lemma_precedes_irreflexive(p);
            if a0.contains(p) {
                let k = choose|k: int| 0 <= k < a0.len() && a0[k] == p;
                assert(a[k] == p);
                assert(a.contains(p));
                let m = choose|m: int| 0 <= m < b.len() && b[m] == p;
                assert(b0[m] == p);
            }
            if b0.contains(p) {
                let k = choose|k: int| 0 <= k < b0.len() && b0[k] == p;
                assert(b[k] == p);
                assert(b.contains(p));
                let m = choose|m: int| 0 <= m < a.len() && a[m] == p;
                assert(a0[m] == p);
            }
        }
        lemma_ascending_unique(a0, b0);
        assert(a =~= a0.push(top));
        assert(b =~= b0.push(high));
    }
}

/// A list has at most one trial set.
pub proof fn lemma_candidate_set_unique(
    list: Option<Seq<Seq<char>>>,
    a: Seq<Seq<char>>,
    b: Seq<Seq<char>>,
)
    requires
        is_candidate_set(list, a),
        is_candidate_set(list, b),
    ensures
        a == b,
{
    lemma_ascending_unique(a, b);
}

/// An ascending sequence with `p` put at its place, if it is not there yet.
proof fn lemma_insert_ascending(s: Seq<Seq<char>>, p: Seq<char>) -> (t: Seq<Seq<char>>)
    requires
        ascending(s),
    ensures
        ascending(t),
        forall|q: Seq<char>| #[trigger] t.contains(q) <==> s.contains(q) || q == p,
    decreases s.len(),
{
    if s.len() == 0 {
        let t = seq![p];
        assert(t[0] == p);
        t
    } else if s.last() == p {
        assert(s.contains(p));
        s
    } else if precedes(s.last(), p) {
        let t = s.push(p);
        assert forall|i: int, j: int| 0 <= i < j < t.len() implies precedes(
            #[trigger] t[i],
            #[trigger] t[j],
        ) by {
            if j == s.len() && i < s.len() - 1 {
                lemma_precedes_transitive(s[i], s.last(), p);
            }
        }
        assert forall|q: Seq<char>| #[trigger] t.contains(q) <==> s.contains(q) || q == p by {
            if s.contains(q) {
                let k = choose|k: int| 0 <= k < s.len() && s[k] == q;
                assert(t[k] == q);
            }
            if q == p {
                assert(t[s.len() as int] == q);
            }
        }
        t
    } else {
        lemma_bytes_before_total(encode_utf8(s.last()), encode_utf8(p));
        if encode_utf8(s.last()) == encode_utf8(p) {
            lemma_key_injective(s.last(), p);
        }
        assert(precedes(p, s.last()));
        let s0 = s.drop_last();
        let t0 = lemma_insert_ascending(s0, p);
        let t = t0.push(s.last());
        assert forall|i: int, j: int| 0 <= i < j < t.len() implies precedes(
            #[trigger] t[i],
            #[trigger] t[j],
        ) by {
            if j == t0.len() {
                assert(t0.contains(t0[i]));
                if t0[i] != p {
                    let k = choose|k: int| 0 <= k < s0.len() && s0[k] == t0[i];
                    assert(s[k] == t0[i]);
                }
            }
        }
        assert forall|q: Seq<char>| #[trigger] t.contains(q) <==> s.contains(q) || q == p by {
            if t.contains(q) {
                let k = choose|k: int| 0 <= k < t.len() && t[k] == q;
                if k < t0.len() {
                    assert(t0.contains(q));
                    if q != p {
                        let m = choose|m: int| 0 <= m < s0.len() && s0[m] == q;
                        assert(s[m] == q);
                    }
                } else {
                    assert(s[s.len() - 1] == q);
                }
            }
            if s.contains(q) {
                let k = choose|k: int| 0 <= k < s.len() && s[k] == q;
                if k < s0.len() {
                    assert(s0[k] == q);
                    assert(t0.contains(q));
                    let m = choose|m: int| 0 <= m < t0.len() && t0[m] == q;
                    assert(t[m] == q);
                } else {
                    assert(t[t0.len() as int] == q);
                }
            }
            if q == p {
                assert(t0.contains(q));
                let m = choose|m: int| 0 <= m < t0.len() && t0[m] == q;
                assert(t[m] == q);
            }
        }
        t
    }
}

/// An ascending sequence that holds the sentinel and the elements of `given`.
proof fn lemma_build(given: Seq<Seq<char>>) -> (set: Seq<Seq<char>>)
    ensures
        is_candidate_set(Some(given), set),
    decreases given.len(),
{
    if given.len() == 0 {
        let set = seq![sentinel()];
        assert(set[0] == sentinel());
        set
    } else {
        let rest = given.drop_last();
        let set0 = lemma_build(rest);
        let set = lemma_insert_ascending(set0, given.last());
        assert forall|p: Seq<char>| #[trigger] set.contains(p) <==> is_candidate(Some(given), p) by {
            if rest.contains(p) {
                let k = choose|k: int| 0 <= k < rest.len() && rest[k] == p;
                assert(given[k] == p);
            }
            if given.contains(p) && p != given.last() {
                let k = choose|k: int| 0 <= k < given.len() && given[k] == p;
                assert(rest[k] == p);
            }
            assert(given[given.len() - 1] == given.last());
            assert(set0.contains(p) <==> is_candidate(Some(rest), p));
        }
        set
    }
}

/// Every list has a trial set, and `candidate_set` is it.
pub proof fn lemma_candidate_set(list: Option<Seq<Seq<char>>>)
    ensures
        is_candidate_set(list, candidate_set(list)),
{
    match list {
        None => {
            let set = seq![sentinel()];
            assert(set[0] == sentinel());
            assert(is_candidate_set(list, set));
        },
        Some(given) => {
            let set = lemma_build(given);
            assert(is_candidate_set(list, set));
        },
    }
}

/// In a trial set the sentinel stands first, and nowhere else.
pub proof fn lemma_sentinel_first(list: Option<Seq<Seq<char>>>, set: Seq<Seq<char>>)
    requires
        is_candidate_set(list, set),
    ensures
        set.len() > 0,
        set[0] == sentinel(),
        forall|i: int| 0 < i < set.len() ==> set[i] != sentinel(),
{
    assert(set.contains(sentinel()));
    // Nothing precedes the sentinel, so it stands behind no other element.
    lemma_empty_first(set[0]);
}

/// A trial set holds the sentinel exactly once, whatever the list held:
/// counted with multiplicity, it occurs one time.
pub proof fn lemma_sentinel_once(list: Option<Seq<Seq<char>>>, set: Seq<Seq<char>>)
    requires
        is_candidate_set(list, set),
    ensures
        set.to_multiset().count(sentinel()) == 1,
{
    lemma_sentinel_first(list, set);
    assert forall|i: int, j: int| 0 <= i < set.len() && 0 <= j < set.len() && i != j implies set[i]
        != set[j] by {
        lemma_precedes_irreflexive(set[i]);
    }
    assert(set.no_duplicates());
    set.lemma_multiset_has_no_duplicates();
    set.to_multiset_ensures();
    assert(set.contains(sentinel()));
}

/// Without a list the trial set is the sentinel alone.
pub proof fn lemma_no_list()
    ensures
        candidate_set(None) == seq![sentinel()],
{
    let set = seq![sentinel()];
    assert(set[0] == sentinel());
    assert(is_candidate_set(None, set));
    lemma_candidate_set_unique(None, set, candidate_set(None));
}

/// The trial set of a list of one password: the sentinel, and after it the
/// password, unless that is the sentinel itself.
pub proof fn lemma_single_password(password: Seq<char>)
    ensures
        candidate_set(Some(seq![password])) == if password == sentinel() {
            seq![sentinel()]
        } else {
            seq![sentinel(), password]
        },
{
    let list = Some(seq![password]);
    let set = if password == sentinel() {
        seq![sentinel()]
    } else {
        seq![sentinel(), password]
    };
    assert(seq![password][0] == password);
    assert(set[0] == sentinel());
    if password != sentinel() {
        assert(set[1] == password);
        assert(password.len() > 0) by {
            if password.len() == 0 {
                assert(password =~= sentinel());
            }
        }
        lemma_empty_first(password);
    }
    assert(is_candidate_set(list, set));
    lemma_candidate_set(list);
    lemma_candidate_set_unique(list, set, candidate_set(list));
}

/// The trial set depends on which passwords a list holds, and neither on
/// their order nor on how often each occurs.
pub proof fn lemma_same_passwords_same_set(a: Seq<Seq<char>>, b: Seq<Seq<char>>)
    requires
        forall|p: Seq<char>| a.contains(p) <==> b.contains(p),
    ensures
        candidate_set(Some(a)) == candidate_set(Some(b)),
{
    lemma_candidate_set(Some(a));
    lemma_candidate_set(Some(b));
    lemma_ascending_unique(candidate_set(Some(a)), candidate_set(Some(b)));
}

/// A trial set is its own trial set: to normalize it again changes nothing.
pub proof fn lemma_candidate_set_is_fixed(list: Option<Seq<Seq<char>>>)
    ensures
        candidate_set(Some(candidate_set(list))) == candidate_set(list),
{
    let set = candidate_set(list);
    lemma_candidate_set(list);
    lemma_candidate_set(Some(set));
    assert(is_candidate(list, sentinel()));
    lemma_ascending_unique(candidate_set(Some(set)), set);
}

/// Puts `password` at its place in the ascending `set`, unless `set` holds it
/// already.
fn insert_candidate(set: &mut Vec<String>, password: String)
    requires
        ascending(old(set).deep_view()),
    ensures
        ascending(final(set).deep_view()),
        forall|p: Seq<char>| #[trigger]
            final(set).deep_view().contains(p) <==> old(set).deep_view().contains(p) || p
                == password@,
{
    let ghost before = set.deep_view();
    let mut lo: usize = 0;
    let mut hi: usize = set.len();
    while lo < hi
        invariant
            lo <= hi <= set.len(),
            set.deep_view() == before,
            ascending(before),
            forall|j: int| 0 <= j < lo ==> precedes(#[trigger] before[j], password@),
            forall|j: int| hi <= j < before.len() ==> precedes(password@, #[trigger] before[j]),
        decreases hi - lo,
    {
        let mid = lo + (hi - lo) / 2;
        assert(before[mid as int] == set[mid as int]@);
        match compare_bytes(set[mid].as_str().as_bytes(), password.as_str().as_bytes()) {
            Place::Before => {
                assert forall|j: int| 0 <= j < mid + 1 implies precedes(
                    #[trigger] before[j],
                    password@,
                ) by {
                    if j < mid {
                        lemma_precedes_transitive(before[j], before[mid as int], password@);
                    }
                }
                lo = mid + 1;
            },
            Place::Same => {
                proof {
                    lemma_key_injective(before[mid as int], password@);
                    assert(before.contains(password@));
                }
                return ;
            },
            Place::After => {
                assert forall|j: int| mid <= j < before.len() implies precedes(
                    password@,
                    #[trigger] before[j],
                ) by {
                    if mid < j {
                        lemma_precedes_transitive(password@, before[mid as int], before[j]);
                    }
                }
                hi = mid;
            },
        }
    }
    let ghost text = password@;
    set.insert(lo, password);
    proof {
        let after = set.deep_view();
        assert(after =~= before.insert(lo as int, text));
        assert forall|i: int, j: int| 0 <= i < j < after.len() implies precedes(
            #[trigger] after[i],
            #[trigger] after[j],
        ) by {
            if i < lo && j > lo {
                assert(precedes(before[i], before[j - 1]));
            } else if i > lo {
                assert(precedes(before[i - 1], before[j - 1]));
            } else if j < lo {
                assert(precedes(before[i], before[j]));
            }
        }
        assert forall|p: Seq<char>| #[trigger]
            after.contains(p) <==> before.contains(p) || p == text by {
            if after.contains(p) {
                let k = choose|k: int| 0 <= k < after.len() && after[k] == p;
                if k < lo {
                    assert(before[k] == p);
                } else if k > lo {
                    assert(before[k - 1] == p);
                }
            }
            if before.contains(p) {
                let k = choose|k: int| 0 <= k < before.len() && before[k] == p;
                if k < lo {
                    assert(after[k] == p);
                } else {
                    assert(after[k + 1] == p);
                }
            }
            if p == text {
                assert(after[lo as int] == p);
            }
        }
    }
}

/// Turns the caller's list into the set of passwords to try: the list and the
/// empty password, each once, in ascending order of their bytes. Without a
/// list the set holds the empty password alone.
///
/// Each password is put at its place in the set built so far, which bisection
/// finds.
pub fn normalize_passwords(password_list: Option<Vec<String>>) -> (set: Vec<String>)
    ensures
        is_candidate_set(password_list.deep_view(), set.deep_view()),
        set.deep_view() == candidate_set(password_list.deep_view()),
        set.len() > 0,
        set[0]@ == sentinel(),
        forall|i: int| 0 < i < set.len() ==> set[i]@ != sentinel(),
{
    let ghost list = password_list.deep_view();
    let mut set: Vec<String> = Vec::new();
    set.push(String::new());
    assert(set.deep_view() =~= seq![sentinel()]);
    assert(set.deep_view()[0] == sentinel());
    match password_list {
        None => {},
        Some(passwords) => {
            let ghost given = passwords.deep_view();
            let mut passwords = passwords;
            while passwords.len() > 0
                invariant
                    passwords.len() <= given.len(),
                    passwords.deep_view() == given.take(passwords.len() as int),
                    ascending(set.deep_view()),
                    forall|p: Seq<char>| #[trigger]
                        set.deep_view().contains(p) <==> p == sentinel() || given.skip(
                            passwords.len() as int,
                        ).contains(p),
                decreases passwords.len(),
            {
                let ghost n = passwords.len() as int;
                let ghost held = set.deep_view();
                let ghost left = passwords.deep_view();
                let password = passwords.pop().unwrap();
                assert(password@ == left[n - 1]);
                assert(password@ == given[n - 1]);
                assert(passwords.deep_view() =~= given.take(n - 1));
                insert_candidate(&mut set, password);
                assert forall|p: Seq<char>| #[trigger]
                    set.deep_view().contains(p) <==> p == sentinel() || given.skip(n - 1).contains(
                        p,
                    ) by {
                    let tail = given.skip(n);
                    let longer = given.skip(n - 1);
                    if tail.contains(p) {
                        let k = choose|k: int| 0 <= k < tail.len() && tail[k] == p;
                        assert(longer[k + 1] == p);
                    }
                    if longer.contains(p) {
                        let k = choose|k: int| 0 <= k < longer.len() && longer[k] == p;
                        if k > 0 {
                            assert(tail[k - 1] == p);
                        }
                    }
                    assert(longer[0] == given[n - 1]);
                    assert(held.contains(p) <==> p == sentinel() || tail.contains(p));
                }
            }
            assert(given.skip(0) =~= given);
        },
    }
    proof {
        assert(is_candidate_set(list, set.deep_view()));
        lemma_candidate_set(list);
        lemma_candidate_set_unique(list, set.deep_view(), candidate_set(list));
        lemma_sentinel_first(list, set.deep_view());
        assert forall|i: int| 0 < i < set.len() implies set[i]@ != sentinel() by {
            assert(set.deep_view()[i] == set[i]@);
        }
    }
    set
}

} // verus!
