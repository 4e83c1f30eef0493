use vstd::prelude::*;
use vstd::string::StrSliceExecFns;
use crate::extension::{image_name, is_image_name};
use core::cmp::Ordering;
use vstd::multiset::Multiset;

verus! {

/// What `human_sort::compare` answers for two texts.
pub uninterp spec fn human_order(a: Seq<char>, b: Seq<char>) -> Ordering;

/// Whether `c` is an ASCII digit.
pub open spec fn is_digit(c: char) -> bool {
    '0' <= c && c <= '9'
}

/// How many ASCII digits stand right before position `i`.
pub open spec fn digit_run(s: Seq<char>, i: int) -> nat
    decreases i,
{
    if i <= 0 || i > s.len() || !is_digit(s[i - 1]) {
        0
    } else {
        digit_run(s, i - 1) + 1
    }
}

/// No run of ASCII digits in the text is longer than nine, so every embedded
/// number fits in 32 bits when two names are compared.
pub open spec fn comparable(s: Seq<char>) -> bool {
    forall|i: int| 0 <= i <= s.len() ==> #[trigger] digit_run(s, i) <= 9
}

/// The first position from `k` on where two texts differ, or the end of the
/// shorter one.
pub open spec fn diff_from(a: Seq<char>, b: Seq<char>, k: int) -> int
    decreases a.len() - k,
{
    if k < 0 || k >= a.len() || k >= b.len() || a[k] != b[k] {
        k
    } else {
        diff_from(a, b, k + 1)
    }
}

/// An ASCII character that is not a digit: never numeric.
pub open spec fn plain_ascii(c: char) -> bool {
    (c as u32) < 128 && !is_digit(c)
}

/// Comparing the two names accumulates no number beyond 32 bits: the
/// comparison stops at their first difference unless both characters there
/// may be numeric, and from there on neither name has a run of more than nine
/// ASCII digits.
pub open spec fn pair_safe(a: Seq<char>, b: Seq<char>) -> bool {
    let k = diff_from(a, b, 0);
    ||| k >= a.len() || k >= b.len()
    ||| plain_ascii(a[k]) || plain_ascii(b[k])
    ||| comparable(a.subrange(k, a.len() as int)) && comparable(b.subrange(k, b.len() as int))
}

/// Relies on `human_sort::compare`: the answer depends on the two texts alone,
/// and a strict answer is reversed when they are swapped. It walks both texts
/// to their first difference, returns there unless both characters are
/// numeric, and otherwise accumulates each run of digits from there on in a
/// `u32`, hence the bound on their length.
#[verifier::external_body]
fn human_compare(a: &str, b: &str) -> (r: Ordering)
    requires
        pair_safe(a@, b@),
    ensures
        r == human_order(a@, b@),
        r == Ordering::Greater ==> human_order(b@, a@) == Ordering::Less,
        r == Ordering::Less ==> human_order(b@, a@) == Ordering::Greater,
{
    human_sort::compare(a, b)
}

/// Whether two names may be compared.
pub fn is_pair_comparable(a: &str, b: &str) -> (r: bool)
    ensures
        r == pair_safe(a@, b@),
{
    let n = a.unicode_len();
    let m = b.unicode_len();
    let mut k: usize = 0;
    while k < n && k < m && a.get_char(k) == b.get_char(k)
        invariant
            n == a@.len(),
            m == b@.len(),
            k <= n,
            k <= m,
            diff_from(a@, b@, 0) == diff_from(a@, b@, k as int),
        decreases n - k,
    {
        k = k + 1;
    }
    if k >= n || k >= m {
        return true;
    }
    let c = a.get_char(k);
    let d = b.get_char(k);
    if ((c as u32) < 128 && !('0' <= c && c <= '9')) || ((d as u32) < 128 && !('0' <= d && d <= '9')) {
        return true;
    }
    is_comparable(a.substring_char(k, n)) && is_comparable(b.substring_char(k, m))
}

/// Whether a name may be compared with others.
pub fn is_comparable(s: &str) -> (r: bool)
    ensures
        r == comparable(s@),
{
    let n = s.unicode_len();
    let mut run: usize = 0;
    let mut i: usize = 0;
    while i < n
        invariant
            n == s@.len(),
            i <= n,
            run == digit_run(s@, i as int),
            forall|k: int| 0 <= k <= i ==> #[trigger] digit_run(s@, k) <= 9,
        decreases n - i,
    {
        let c = s.get_char(i);
        if '0' <= c && c <= '9' {
            if run == 9 {
                assert(digit_run(s@, i + 1) == 10);
                return false;
            }
            run = run + 1;
        } else {
            run = 0;
        }
        i = i + 1;
    }
    true
}

/// Every two neighbours stand in natural order.
pub open spec fn naturally_sorted(s: Seq<String>) -> bool {
    forall|i: int| 0 <= i < s.len() - 1 ==> human_order(#[trigger] s[i]@, s[i + 1]@) != Ordering::Greater
}

/// Every two names of the pool, in either order, may be compared.
pub open spec fn pairwise_safe(pool: Seq<String>) -> bool {
    forall|a: String, b: String| pool.contains(a) && pool.contains(b) ==> #[trigger] pair_safe(a@, b@)
}

/// Every name of `s` is in the pool.
pub open spec fn drawn_from(s: Seq<String>, pool: Seq<String>) -> bool {
    forall|i: int| 0 <= i < s.len() ==> pool.contains(#[trigger] s[i])
}

/// Puts `x` into a naturally sorted list, right after the last name that
/// does not come after it.
fn insert_natural(out: &mut Vec<String>, x: String, Ghost(pool): Ghost<Seq<String>>)
    requires
        naturally_sorted(old(out)@),
        pairwise_safe(pool),
        drawn_from(old(out)@, pool),
        pool.contains(x),
    ensures
        final(out)@.to_multiset() == old(out)@.to_multiset().insert(x),
        naturally_sorted(final(out)@),
        drawn_from(final(out)@, pool),
{
    let mut j: usize = out.len();
    let mut done = false;
    while j > 0 && !done
        invariant
            j <= out@.len(),
            pairwise_safe(pool),
            drawn_from(out@, pool),
            pool.contains(x),
            done ==> j > 0 && human_order(out@[j - 1]@, x@) != Ordering::Greater,
            j < out@.len() ==> human_order(x@, out@[j as int]@) == Ordering::Less,
        decreases j + (if done { 0int } else { 1int }),
    {
        proof {
            assert(pool.contains(out@[j - 1]));
            assert(pair_safe(out@[j - 1]@, x@));
        }
        match human_compare(out[j - 1].as_str(), x.as_str()) {
            Ordering::Greater => {
                j = j - 1;
            },
            _ => {
                done = true;
            },
        }
    }
    let ghost old_out = out@;
    out.insert(j, x);
    proof {
        broadcast use vstd::seq_lib::group_to_multiset_ensures;

        lemma_insert_multiset(old_out, j as int, x);
        lemma_insert_sorted(old_out, j as int, x);
        lemma_insert_drawn(old_out, j as int, x, pool);
    }
}

proof fn lemma_insert_multiset(s: Seq<String>, j: int, x: String)
    requires
        0 <= j <= s.len(),
    ensures
        s.insert(j, x).to_multiset() == s.to_multiset().insert(x),
{
    broadcast use vstd::seq_lib::group_to_multiset_ensures;

    let front = s.subrange(0, j);
    let back = s.subrange(j, s.len() as int);
    assert(s =~= front + back);
    assert(s.insert(j, x) =~= front.push(x) + back);
    vstd::seq_lib::lemma_multiset_commutative(front, back);
    vstd::seq_lib::lemma_multiset_commutative(front.push(x), back);
}

proof fn lemma_insert_sorted(s: Seq<String>, j: int, x: String)
    requires
        0 <= j <= s.len(),
        naturally_sorted(s),
        j > 0 ==> human_order(s[j - 1]@, x@) != Ordering::Greater,
        j < s.len() ==> human_order(x@, s[j]@) == Ordering::Less,
    ensures
        naturally_sorted(s.insert(j, x)),
{
    let t = s.insert(j, x);
    s.insert_ensures(j, x);
    assert forall|i: int| 0 <= i < t.len() - 1 implies human_order(
        #[trigger] t[i]@,
        t[i + 1]@,
    ) != Ordering::Greater by {
        if i < j - 1 {
            assert(t[i] == s[i] && t[i + 1] == s[i + 1]);
            assert(human_order(s[i]@, s[i + 1]@) != Ordering::Greater);
        } else if i == j - 1 {
            assert(t[i] == s[j - 1] && t[i + 1] == x);
        } else if i == j {
            assert(t[i] == x && t[i + 1] == s[j]);
        } else {
            assert(t[i] == s[i - 1] && t[i + 1] == s[i]);
            assert(human_order(s[i - 1]@, s[i - 1 + 1]@) != Ordering::Greater);
        }
    }
}

proof fn lemma_insert_drawn(s: Seq<String>, j: int, x: String, pool: Seq<String>)
    requires
        0 <= j <= s.len(),
        drawn_from(s, pool),
        pool.contains(x),
    ensures
        drawn_from(s.insert(j, x), pool),
{
    let t = s.insert(j, x);
    s.insert_ensures(j, x);
    assert forall|i: int| 0 <= i < t.len() implies pool.contains(#[trigger] t[i]) by {
        if i < j {
            assert(t[i] == s[i]);
        } else if i > j {
            assert(t[i] == s[i - 1]);
        }
    }
}

/// Orders names naturally: numbers embedded in them compare by value.
pub fn sort_natural(names: Vec<String>) -> (r: Vec<String>)
    requires
        pairwise_safe(names@),
    ensures
        r@.to_multiset() == names@.to_multiset(),
        naturally_sorted(r@),
{
    broadcast use vstd::seq_lib::group_to_multiset_ensures;

    let mut rest = names;
    let mut out: Vec<String> = Vec::new();
    while rest.len() > 0
        invariant
            out@.to_multiset().add(rest@.to_multiset()) == names@.to_multiset(),
            naturally_sorted(out@),
            pairwise_safe(names@),
            drawn_from(out@, names@),
            drawn_from(rest@, names@),
        decreases rest@.len(),
    {
        let ghost before = rest@;
        let x = rest.pop().unwrap();
        proof {
            assert(before =~= rest@.push(x));
            rest@.to_multiset_ensures();
            assert(before.to_multiset() == rest@.to_multiset().insert(x));
            assert(names@.contains(before[before.len() - 1]));
            assert forall|i: int| 0 <= i < rest@.len() implies names@.contains(#[trigger] rest@[i]) by {
                assert(rest@[i] == before[i]);
            }
        }
        insert_natural(&mut out, x, Ghost(names@));
    }
    proof {
        assert(rest@.to_multiset() =~= Multiset::empty());
    }
    out
}

/// The names that are listed, in their order of arrival.
pub open spec fn image_names(names: Seq<String>) -> Seq<String> {
    names.filter(|n: String| image_name(n@))
}

/// Keeps the names of images, in their order.
pub fn filter_images(names: &Vec<String>) -> (r: Vec<String>)
    ensures
        r@ == image_names(names@),
{
    let mut out: Vec<String> = Vec::new();
    let mut i: usize = 0;
    while i < names.len()
        invariant
            i <= names@.len(),
            out@ == image_names(names@.subrange(0, i as int)),
        decreases names@.len() - i,
    {
        let keep = is_image_name(names[i].as_str());
        proof {
            let pre = names@.subrange(0, i + 1);
            assert(pre.drop_last() =~= names@.subrange(0, i as int));
            reveal_with_fuel(Seq::filter, 1);
        }
        if keep {
            out.push(names[i].clone());
        }
        i = i + 1;
    }
    proof {
        assert(names@.subrange(0, names@.len() as int) =~= names@);
    }
    out
}

/// Whether every two names in the list, in either order, may be compared.
pub fn all_pairs_comparable(names: &Vec<String>) -> (r: bool)
    ensures
        r == pairwise_safe(names@),
{
    let n = names.len();
    let mut i: usize = 0;
    while i < n
        invariant
            n == names@.len(),
            i <= n,
            forall|p: int, q: int| 0 <= p < i && 0 <= q < n ==> pair_safe(#[trigger] names@[p]@, #[trigger] names@[q]@),
        decreases n - i,
    {
        let mut j: usize = 0;
        while j < n
            invariant
                n == names@.len(),
                i < n,
                j <= n,
                forall|p: int, q: int| 0 <= p < i && 0 <= q < n ==> pair_safe(#[trigger] names@[p]@, #[trigger] names@[q]@),
                forall|q: int| 0 <= q < j ==> pair_safe(names@[i as int]@, #[trigger] names@[q]@),
            decreases n - j,
        {
            if !is_pair_comparable(names[i].as_str(), names[j].as_str()) {
                proof {
                    assert(names@.contains(names@[i as int]) && names@.contains(names@[j as int]));
                }
                return false;
            }
            j = j + 1;
        }
        i = i + 1;
    }
    proof {
        assert forall|a: String, b: String| names@.contains(a) && names@.contains(b) implies #[trigger] pair_safe(a@, b@) by {
            let p = choose|p: int| 0 <= p < names@.len() && names@[p] == a;
            let q = choose|q: int| 0 <= q < names@.len() && names@[q] == b;
            assert(pair_safe(names@[p]@, names@[q]@));
        }
    }
    true
}

/// The listing of a directory whose entries have the given names: the names
/// of images, in natural order. `None` where two of them cannot be compared
/// (a run of more than nine digits where they first differ by numerals).
pub fn image_listing(names: Vec<String>) -> (r: Option<Vec<String>>)
    ensures
        r is Some <==> pairwise_safe(image_names(names@)),
        r matches Some(v) ==> v@.to_multiset() == image_names(names@).to_multiset(),
        r matches Some(v) ==> naturally_sorted(v@),
{
    let images = filter_images(&names);
    if all_pairs_comparable(&images) {
        Some(sort_natural(images))
    } else {
        None
    }
}

} // verus!
