//! Nesting-aware bracket matching over a program's bytes.
use vstd::prelude::*;

verus! {

/// The byte that opens a loop.
pub const OPEN: u8 = 91;

/// The byte that closes a loop.
pub const CLOSE: u8 = 93;

/// The contribution of one byte to a running count: +1 for `up`, -1 for
/// `down`, 0 otherwise.
pub open spec fn weight(c: u8, up: u8, down: u8) -> int {
    if c == up {
        1
    } else if c == down {
        -1
    } else {
        0
    }
}

/// Occurrences of `up` minus occurrences of `down` in `p[lo..hi]`.
pub open spec fn tally(p: Seq<u8>, lo: int, hi: int, up: u8, down: u8) -> int
    decreases hi - lo,
{
    if hi <= lo {
        0
    } else {
        tally(p, lo, hi - 1, up, down) + weight(p[hi - 1], up, down)
    }
}

/// Nesting depth gained over `p[lo..hi]`: opening brackets minus closing ones.
pub open spec fn depth(p: Seq<u8>, lo: int, hi: int) -> int {
    tally(p, lo, hi, OPEN, CLOSE)
}

/// `j` holds the `]` that closes the `[` at `i`: the depth counted from `i`
/// stays positive up to `j` and returns to zero just after it.
pub open spec fn is_close_partner(p: Seq<u8>, i: int, j: int) -> bool {
    &&& 0 <= i < j < p.len()
    &&& p[i] == OPEN
    &&& p[j] == CLOSE
    &&& depth(p, i, j + 1) == 0
    &&& forall|k: int| i < k <= j ==> #[trigger] depth(p, i, k) > 0
}

/// `i` holds the `[` that opens the `]` at `j`: counted backwards from `j`,
/// closing brackets stay in excess down to `i + 1` and balance at `i`.
pub open spec fn is_open_partner(p: Seq<u8>, j: int, i: int) -> bool {
    &&& 0 <= i < j < p.len()
    &&& p[i] == OPEN
    &&& p[j] == CLOSE
    &&& depth(p, i, j + 1) == 0
    &&& forall|k: int| i < k <= j ==> #[trigger] depth(p, k, j + 1) < 0
}

/// The position of the `]` matching the `[` at `i`, if there is one.
pub open spec fn close_partner(p: Seq<u8>, i: int) -> Option<int> {
    if exists|j: int| is_close_partner(p, i, j) {
        Some(choose|j: int| is_close_partner(p, i, j))
    } else {
        None
    }
}

/// The position of the `[` matching the `]` at `j`, if there is one.
pub open spec fn open_partner(p: Seq<u8>, j: int) -> Option<int> {
    if exists|i: int| is_open_partner(p, j, i) {
        Some(choose|i: int| is_open_partner(p, j, i))
    } else {
        None
    }
}

/// A program whose brackets are balanced and correctly nested: no prefix
/// closes more loops than it opened, and the whole opens as many as it closes.
pub open spec fn balanced(p: Seq<u8>) -> bool {
    &&& depth(p, 0, p.len() as int) == 0
    &&& forall|k: int| 0 <= k <= p.len() ==> depth(p, 0, k) >= 0
}

/// A count over a range is the count over its first byte plus the count over the rest.
pub proof fn lemma_tally_first(p: Seq<u8>, lo: int, hi: int, up: u8, down: u8)
    requires
        lo < hi,
    ensures
        tally(p, lo, hi, up, down) == weight(p[lo], up, down) + tally(p, lo + 1, hi, up, down),
    decreases hi - lo,
{
    if lo + 1 < hi {
        lemma_tally_first(p, lo, hi - 1, up, down);
    } else {
        assert(tally(p, lo, lo, up, down) == 0);
        assert(tally(p, hi, hi, up, down) == 0);
    }
}

/// A count over a range splits at any point inside it.
pub proof fn lemma_tally_split(p: Seq<u8>, lo: int, mid: int, hi: int, up: u8, down: u8)
    requires
        lo <= mid <= hi,
    ensures
        tally(p, lo, hi, up, down) == tally(p, lo, mid, up, down) + tally(p, mid, hi, up, down),
    decreases hi - mid,
{
    if mid < hi {
        lemma_tally_split(p, lo, mid, hi - 1, up, down);
    }
}

/// A `[` has at most one closing partner.
pub proof fn lemma_close_partner_unique(p: Seq<u8>, i: int, j1: int, j2: int)
    requires
        is_close_partner(p, i, j1),
        is_close_partner(p, i, j2),
    ensures
        j1 == j2,
{
    if j1 < j2 {
        assert(depth(p, i, j1 + 1) > 0);
    } else if j2 < j1 {
        assert(depth(p, i, j2 + 1) > 0);
    }
}

/// A `]` has at most one opening partner.
pub proof fn lemma_open_partner_unique(p: Seq<u8>, j: int, i1: int, i2: int)
    requires
        is_open_partner(p, j, i1),
        is_open_partner(p, j, i2),
    ensures
        i1 == i2,
{
    if i1 < i2 {
        assert(depth(p, i2, j + 1) < 0);
    } else if i2 < i1 {
        assert(depth(p, i1, j + 1) < 0);
    }
}

/// The closing and opening conditions describe the same pairs: `j` closes
/// the `[` at `i` exactly when `i` opens the `]` at `j`.
pub proof fn lemma_partner_symmetric(p: Seq<u8>, i: int, j: int)
    ensures
        is_close_partner(p, i, j) <==> is_open_partner(p, j, i),
{
    if 0 <= i < j < p.len() {
        if is_close_partner(p, i, j) {
            assert forall|k: int| i < k <= j implies #[trigger] depth(p, k, j + 1) < 0 by {
                lemma_tally_split(p, i, k, j + 1, OPEN, CLOSE);
                assert(depth(p, i, k) > 0);
            }
        }
        if is_open_partner(p, j, i) {
            assert forall|k: int| i < k <= j implies #[trigger] depth(p, i, k) > 0 by {
                lemma_tally_split(p, i, k, j + 1, OPEN, CLOSE);
                assert(depth(p, k, j + 1) < 0);
            }
        }
    }
}

/// Jumps pair up: the `]` that a `[` at `i` resolves to is `j` exactly when
/// the `[` that the `]` at `j` resolves to is `i`, so a loop's two brackets
/// always jump to each other and never to an inner bracket.
pub proof fn lemma_partners_agree(p: Seq<u8>, i: int, j: int)
    ensures
        close_partner(p, i) == Some(j) <==> open_partner(p, j) == Some(i),
{
    lemma_partner_symmetric(p, i, j);
    if close_partner(p, i) == Some(j) {
        assert(is_close_partner(p, i, j));
        assert(is_open_partner(p, j, i));
        let i2 = choose|i2: int| is_open_partner(p, j, i2);
        lemma_open_partner_unique(p, j, i, i2);
    }
    if open_partner(p, j) == Some(i) {
        assert(is_open_partner(p, j, i));
        assert(is_close_partner(p, i, j));
        let j2 = choose|j2: int| is_close_partner(p, i, j2);
        lemma_close_partner_unique(p, i, j, j2);
    }
}

proof fn lemma_close_found_from(p: Seq<u8>, i: int, k: int)
    requires
        0 <= i < k <= p.len(),
        p[i] == OPEN,
        depth(p, i, p.len() as int) <= 0,
        forall|m: int| i < m <= k ==> #[trigger] depth(p, i, m) > 0,
    ensures
        exists|j: int| is_close_partner(p, i, j),
    decreases p.len() - k,
{
    assert(k < p.len());
    assert(depth(p, i, k + 1) == depth(p, i, k) + weight(p[k], OPEN, CLOSE));
    if depth(p, i, k + 1) == 0 {
        assert(is_close_partner(p, i, k));
    } else {
        lemma_close_found_from(p, i, k + 1);
    }
}

proof fn lemma_open_found_from(p: Seq<u8>, j: int, k: int)
    requires
        0 <= k <= j < p.len(),
        p[j] == CLOSE,
        depth(p, 0, j + 1) >= 0,
        forall|m: int| k <= m <= j ==> #[trigger] depth(p, m, j + 1) < 0,
    ensures
        exists|i: int| is_open_partner(p, j, i),
    decreases k,
{
    assert(depth(p, k, j + 1) < 0);
    assert(k > 0);
    lemma_tally_first(p, k - 1, j + 1, OPEN, CLOSE);
    if depth(p, k - 1, j + 1) == 0 {
        assert(is_open_partner(p, j, k - 1));
    } else {
        lemma_open_found_from(p, j, k - 1);
    }
}

/// In a balanced program every `[` has a closing partner: the forward scan
/// with depth tracking always finds one.
pub proof fn lemma_balanced_close_exists(p: Seq<u8>, i: int)
    requires
        balanced(p),
        0 <= i < p.len(),
        p[i] == OPEN,
    ensures
        close_partner(p, i) is Some,
{
    lemma_tally_split(p, 0, i, p.len() as int, OPEN, CLOSE);
    assert(depth(p, 0, i) >= 0);
    assert(tally(p, i, i, OPEN, CLOSE) == 0);
    assert(depth(p, i, i + 1) == 1);
    lemma_close_found_from(p, i, i + 1);
}

/// In a balanced program every `]` has an opening partner: the backward
/// scan with depth tracking always finds one.
pub proof fn lemma_balanced_open_exists(p: Seq<u8>, j: int)
    requires
        balanced(p),
        0 <= j < p.len(),
        p[j] == CLOSE,
    ensures
        open_partner(p, j) is Some,
{
    assert(depth(p, 0, j + 1) >= 0);
    assert(tally(p, j, j, OPEN, CLOSE) == 0);
    assert(depth(p, j, j + 1) == -1);
    lemma_open_found_from(p, j, j);
}

/// Scans forward from the `[` at `open`, tracking nesting depth, and returns
/// the position of its own `]`, or `None` when the loop is never closed.
pub fn find_close(p: &[u8], open: usize) -> (r: Option<usize>)
    requires
        open < p@.len(),
        p@[open as int] == OPEN,
    ensures
        r matches Some(j) ==> close_partner(p@, open as int) == Some(j as int),
        r is None ==> close_partner(p@, open as int) is None,
{
    let n = p.len();
    let mut k: usize = open + 1;
    let mut d: usize = 1;
    assert(tally(p@, open as int, open as int, OPEN, CLOSE) == 0);
    assert(depth(p@, open as int, k as int) == 1);
    while k < n
        invariant
            n == p@.len(),
            open < k <= n,
            p@[open as int] == OPEN,
            1 <= d <= k - open,
            d as int == depth(p@, open as int, k as int),
            forall|m: int| open < m <= k ==> depth(p@, open as int, m) > 0,
        decreases n - k,
    {
        let c = p[k];
        if c == OPEN {
            d = d + 1;
        } else if c == CLOSE {
            d = d - 1;
            if d == 0 {
                proof {
                    assert(is_close_partner(p@, open as int, k as int));
                    assert forall|j: int| is_close_partner(p@, open as int, j) implies j == k by {
                        lemma_close_partner_unique(p@, open as int, j, k as int);
                    }
                }
                return Some(k);
            }
        }
        k = k + 1;
    }
    proof {
        assert forall|j: int| !is_close_partner(p@, open as int, j) by {
            if is_close_partner(p@, open as int, j) {
                assert(depth(p@, open as int, j + 1) > 0);
            }
        }
    }
    None
}

/// Scans backward from the `]` at `close`, tracking nesting depth, and
/// returns the position of its own `[`, or `None` when no loop opens it.
pub fn find_open(p: &[u8], close: usize) -> (r: Option<usize>)
    requires
        close < p@.len(),
        p@[close as int] == CLOSE,
    ensures
        r matches Some(i) ==> open_partner(p@, close as int) == Some(i as int),
        r is None ==> open_partner(p@, close as int) is None,
{
    let mut k: usize = close;
    let mut d: usize = 1;
    assert(tally(p@, close as int, close as int, OPEN, CLOSE) == 0);
    assert(depth(p@, close as int, close + 1) == -1);
    while k > 0
        invariant
            close < p@.len(),
            p@[close as int] == CLOSE,
            k <= close,
            1 <= d <= close + 1 - k,
            d as int == -depth(p@, k as int, close + 1),
            forall|m: int| k <= m <= close ==> #[trigger] depth(p@, m, close + 1) < 0,
        decreases k,
    {
        k = k - 1;
        proof {
            lemma_tally_first(p@, k as int, close + 1, OPEN, CLOSE);
        }
        let c = p[k];
        if c == CLOSE {
            d = d + 1;
        } else if c == OPEN {
            d = d - 1;
            if d == 0 {
                proof {
                    assert(is_open_partner(p@, close as int, k as int));
                    assert forall|i: int| is_open_partner(p@, close as int, i) implies i == k by {
                        lemma_open_partner_unique(p@, close as int, i, k as int);
                    }
                }
                return Some(k);
            }
        }
    }
    proof {
        assert forall|i: int| !is_open_partner(p@, close as int, i) by {
            if is_open_partner(p@, close as int, i) {
                assert(depth(p@, i, close + 1) < 0);
            }
        }
    }
    None
}

} // verus!
