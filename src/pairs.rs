use vstd::prelude::*;

verus! {

/// The bodies that act on body `i` among `n`: every index but `i`, ascending.
pub open spec fn partners_of(n: nat, i: nat) -> Seq<usize> {
    Seq::new((n - 1) as nat, |k: int| if k < i { k as usize } else { (k + 1) as usize })
}

/// The pairs `(i, j)` with `i < j < n` for one fixed `i`, by ascending `j`.
pub open spec fn row_of(n: nat, i: nat) -> Seq<(usize, usize)> {
    Seq::new((n - i - 1) as nat, |k: int| (i as usize, (i + 1 + k) as usize))
}

/// The pairs `(i, j)` with `i < m` and `i < j < n`, ordered by `i`, then `j`.
pub open spec fn pairs_below(n: nat, m: nat) -> Seq<(usize, usize)>
    decreases m,
{
    if m == 0 {
        Seq::empty()
    } else {
        pairs_below(n, (m - 1) as nat) + row_of(n, (m - 1) as nat)
    }
}

/// Every unordered pair of `n` bodies, each once, as `(i, j)` with `i < j`.
pub open spec fn pairs_of(n: nat) -> Seq<(usize, usize)> {
    pairs_below(n, n)
}

/// Strict lexicographic order on index pairs.
pub open spec fn pair_lt(a: (usize, usize), b: (usize, usize)) -> bool {
    a.0 < b.0 || (a.0 == b.0 && a.1 < b.1)
}

/// The indices of the bodies whose pull is summed into body `i`'s net force.
pub fn partners(n: usize, i: usize) -> (r: Vec<usize>)
    requires
        i < n,
    ensures
        r@ == partners_of(n as nat, i as nat),
{
    let mut r: Vec<usize> = Vec::new();
    let mut j: usize = 0;
    while j < n
        invariant
            i < n,
            j <= n,
            r@.len() == if j <= i { j as int } else { j - 1 },
            forall|k: int| 0 <= k < r@.len() ==> r@[k] == partners_of(n as nat, i as nat)[k],
        decreases n - j,
    {
        if j != i {
            r.push(j);
        }
        j = j + 1;
    }
    assert(r@ =~= partners_of(n as nat, i as nat));
    r
}

/// The unordered pairs whose potential energy is summed, each once.
pub fn unordered_pairs(n: usize) -> (r: Vec<(usize, usize)>)
    ensures
        r@ == pairs_of(n as nat),
{
    let mut r: Vec<(usize, usize)> = Vec::new();
    let mut i: usize = 0;
    while i < n
        invariant
            i <= n,
            r@ == pairs_below(n as nat, i as nat),
        decreases n - i,
    {
        let ghost start = r@;
        let mut j: usize = i + 1;
        while j < n
            invariant
                i < n,
                i < j <= n,
                start == pairs_below(n as nat, i as nat),
                r@ == start + row_of(n as nat, i as nat).take(j - i - 1),
            decreases n - j,
        {
            r.push((i, j));
            j = j + 1;
            assert(r@ =~= start + row_of(n as nat, i as nat).take(j - i - 1));
        }
        assert(row_of(n as nat, i as nat).take(j - i - 1) =~= row_of(n as nat, i as nat));
        i = i + 1;
    }
    r
}

proof fn lemma_pairs_below(n: nat, m: nat)
    requires
        m <= n,
        n <= usize::MAX,
    ensures
        forall|k: int|
            0 <= k < pairs_below(n, m).len() ==> {
                let p = #[trigger] pairs_below(n, m)[k];
                p.0 < p.1 < n && p.0 < m
            },
        forall|k1: int, k2: int|
            0 <= k1 < k2 < pairs_below(n, m).len() ==> pair_lt(
                #[trigger] pairs_below(n, m)[k1],
                #[trigger] pairs_below(n, m)[k2],
            ),
        forall|i: usize, j: usize|
            i < j < n && i < m ==> #[trigger] pairs_below(n, m).contains((i, j)),
    decreases m,
{
    if m > 0 {
        let m1 = (m - 1) as nat;
        lemma_pairs_below(n, m1);
        let a = pairs_below(n, m1);
        let row = row_of(n, m1);
        let s = pairs_below(n, m);
        assert(s == a + row);
        assert forall|k: int| 0 <= k < s.len() implies {
            let p = #[trigger] s[k];
            p.0 < p.1 < n && p.0 < m
        } by {
            if k >= a.len() {
                assert(s[k] == row[k - a.len()]);
            } else {
                assert(s[k] == a[k]);
            }
        }
        assert forall|k1: int, k2: int| 0 <= k1 < k2 < s.len() implies pair_lt(
            #[trigger] s[k1],
            #[trigger] s[k2],
        ) by {
            if k2 < a.len() {
                assert(s[k1] == a[k1] && s[k2] == a[k2]);
            } else if k1 < a.len() {
                assert(s[k1] == a[k1] && s[k2] == row[k2 - a.len()]);
            } else {
                assert(s[k1] == row[k1 - a.len()] && s[k2] == row[k2 - a.len()]);
            }
        }
        assert forall|i: usize, j: usize| i < j < n && i < m implies #[trigger] s.contains(
            (i, j),
        ) by {
            if i < m1 {
                assert(a.contains((i, j)));
                let k = choose|k: int| 0 <= k < a.len() && a[k] == (i, j);
                assert(s[k] == (i, j));
            } else {
                let k = j - i - 1;
                assert(row[k] == (i, j));
                assert(s[a.len() + k] == (i, j));
            }
        }
    }
}

/// The pairs whose potential energy is summed are exactly the unordered pairs
/// of distinct bodies, each counted once: every entry is `(i, j)` with
/// `i < j < n`, entries strictly increase (so none repeats), and every such
/// pair is present. With one body or none there is no pair at all.
pub proof fn lemma_each_pair_once(n: nat)
    requires
        n <= usize::MAX,
    ensures
        forall|k: int|
            0 <= k < pairs_of(n).len() ==> {
                let p = #[trigger] pairs_of(n)[k];
                p.0 < p.1 < n
            },
        forall|k1: int, k2: int|
            0 <= k1 < k2 < pairs_of(n).len() ==> pair_lt(
                #[trigger] pairs_of(n)[k1],
                #[trigger] pairs_of(n)[k2],
            ),
        forall|i: usize, j: usize| i < j < n ==> #[trigger] pairs_of(n).contains((i, j)),
        n <= 1 ==> pairs_of(n).len() == 0,
{
    lemma_pairs_below(n, n);
    if n <= 1 && pairs_of(n).len() > 0 {
        let p = pairs_of(n)[0];
        assert(p.0 < p.1 < n);
    }
}

/// Body `i` never acts on itself, and every other body acts on it exactly
/// once.
pub proof fn lemma_partners_exclude_self(n: nat, i: nat)
    requires
        i < n,
        n <= usize::MAX,
    ensures
        !partners_of(n, i).contains(i as usize),
        forall|j: usize| j < n && j != i ==> #[trigger] partners_of(n, i).contains(j),
        forall|k1: int, k2: int|
            0 <= k1 < k2 < partners_of(n, i).len() ==> #[trigger] partners_of(n, i)[k1]
                < #[trigger] partners_of(n, i)[k2],
{
    let s = partners_of(n, i);
    assert forall|j: usize| j < n && j != i implies #[trigger] s.contains(j) by {
        if j < i {
            assert(s[j as int] == j);
        } else {
            assert(s[j - 1] == j);
        }
    }
}

} // verus!
