use vstd::prelude::*;

verus! {

/// Path separator.
pub const SEPARATOR: char = '/';

/// State of a left-to-right scan of a path after its first `n` characters:
/// the non-empty segments completed so far and the segment being read.
pub open spec fn scan(p: Seq<char>, n: nat) -> (Seq<Seq<char>>, Seq<char>)
    recommends
        n <= p.len(),
    decreases n,
{
    if n == 0 {
        (Seq::empty(), Seq::empty())
    } else {
        let (done, cur) = scan(p, (n - 1) as nat);
        let c = p[n - 1];
        if c == SEPARATOR {
            if cur.len() > 0 {
                (done.push(cur), Seq::empty())
            } else {
                (done, Seq::empty())
            }
        } else {
            (done, cur.push(c))
        }
    }
}

/// The segments of a path: the `/`-separated parts with empty ones dropped.
pub open spec fn segments(p: Seq<char>) -> Seq<Seq<char>> {
    let (done, cur) = scan(p, p.len());
    if cur.len() > 0 {
        done.push(cur)
    } else {
        done
    }
}

/// A segment can name a directory entry: non-empty, without a separator.
pub open spec fn is_name(s: Seq<char>) -> bool {
    s.len() > 0 && !s.contains(SEPARATOR)
}

proof fn lemma_scan_names(p: Seq<char>, n: nat)
    requires
        n <= p.len(),
    ensures
        forall|i: int| 0 <= i < scan(p, n).0.len() ==> is_name(#[trigger] scan(p, n).0[i]),
        !scan(p, n).1.contains(SEPARATOR),
    decreases n,
{
    if n > 0 {
        lemma_scan_names(p, (n - 1) as nat);
        let (done, cur) = scan(p, (n - 1) as nat);
        let c = p[n - 1];
        if c != SEPARATOR {
            assert forall|k: int| 0 <= k < cur.push(c).len() implies cur.push(c)[k] != SEPARATOR by {
                if k < cur.len() {
                    assert(cur[k] != SEPARATOR);
                }
            }
        }
    }
}

/// Every segment of a path is a valid entry name.
pub proof fn lemma_segments_are_names(p: Seq<char>)
    ensures
        forall|i: int| 0 <= i < segments(p).len() ==> is_name(#[trigger] segments(p)[i]),
{
    lemma_scan_names(p, p.len());
}

proof fn lemma_scan_rooted_name(p: Seq<char>, n: nat)
    requires
        1 <= n <= p.len(),
        p[0] == SEPARATOR,
        forall|i: int| 1 <= i < p.len() ==> p[i] != SEPARATOR,
    ensures
        scan(p, n) == (Seq::<Seq<char>>::empty(), p.subrange(1, n as int)),
    decreases n,
{
    if n > 1 {
        lemma_scan_rooted_name(p, (n - 1) as nat);
        assert(p[n - 1] != SEPARATOR);
        assert(p.subrange(1, n as int) == p.subrange(1, n - 1).push(p[n - 1]));
    } else {
        reveal_with_fuel(scan, 2);
        assert(p.subrange(1, 1) == Seq::<char>::empty());
    }
}

/// A path of a separator and then one name has that name as its one
/// segment.
pub proof fn lemma_rooted_name(p: Seq<char>)
    requires
        p.len() >= 2,
        p[0] == SEPARATOR,
        forall|i: int| 1 <= i < p.len() ==> p[i] != SEPARATOR,
    ensures
        segments(p) == seq![p.subrange(1, p.len() as int)],
{
    lemma_scan_rooted_name(p, p.len());
}

/// Splits a path into its segments.
pub fn split_path(path: &str) -> (parts: Vec<String>)
    ensures
        parts@.len() == segments(path@).len(),
        forall|i: int| 0 <= i < parts@.len() ==> #[trigger] parts@[i]@ == segments(path@)[i],
{
    let n = path.unicode_len();
    let mut parts: Vec<String> = Vec::new();
    let mut start: usize = 0;
    let mut i: usize = 0;
    while i < n
        invariant
            n == path@.len(),
            start <= i <= n,
            parts@.len() == scan(path@, i as nat).0.len(),
            forall|k: int| 0 <= k < parts@.len() ==> #[trigger] parts@[k]@ == scan(path@, i as nat).0[k],
            scan(path@, i as nat).1 == path@.subrange(start as int, i as int),
        decreases n - i,
    {
        let c = path.get_char(i);
        proof {
            assert(path@.subrange(start as int, i + 1) == path@.subrange(start as int, i as int).push(c));
        }
        if c == SEPARATOR {
            if start < i {
                let seg = path.substring_char(start, i);
                parts.push(String::from_str(seg));
            }
            start = i + 1;
        }
        i = i + 1;
    }
    if start < n {
        let seg = path.substring_char(start, n);
        parts.push(String::from_str(seg));
    }
    parts
}

} // verus!

verus! {

/// Lexicographic order on names from position `k` on: the first differing
/// character decides, and a proper prefix comes first.
pub open spec fn lt_from(a: Seq<char>, b: Seq<char>, k: int) -> bool
    decreases a.len() - k,
{
    if k < 0 || k >= a.len() {
        k >= 0 && k < b.len()
    } else if k >= b.len() {
        false
    } else if a[k] != b[k] {
        (a[k] as u32) < (b[k] as u32)
    } else {
        lt_from(a, b, k + 1)
    }
}

/// Strict order on names; it is the order of `String`'s `Ord`.
pub open spec fn name_lt(a: Seq<char>, b: Seq<char>) -> bool {
    lt_from(a, b, 0)
}

pub proof fn lemma_lt_irreflexive(a: Seq<char>, k: int)
    requires
        0 <= k,
    ensures
        !lt_from(a, a, k),
    decreases a.len() - k,
{
    if k < a.len() {
        lemma_lt_irreflexive(a, k + 1);
    }
}

pub proof fn lemma_lt_transitive(a: Seq<char>, b: Seq<char>, c: Seq<char>, k: int)
    requires
        0 <= k,
        lt_from(a, b, k),
        lt_from(b, c, k),
    ensures
        lt_from(a, c, k),
    decreases a.len() - k,
{
    if k < a.len() && a[k] == b[k] && b[k] == c[k] {
        lemma_lt_transitive(a, b, c, k + 1);
    }
}

/// Result of comparing two names.
pub enum NameOrder {
    Less,
    Equal,
    Greater,
}

/// Compares two names character by character.
pub fn compare_names(a: &str, b: &str) -> (r: NameOrder)
    ensures
        r is Less <==> name_lt(a@, b@),
        r is Equal <==> a@ == b@,
        r is Greater <==> name_lt(b@, a@),
{
    let na = a.unicode_len();
    let nb = b.unicode_len();
    let mut i: usize = 0;
    while i < na && i < nb && a.get_char(i) == b.get_char(i)
        invariant
            na == a@.len(),
            nb == b@.len(),
            i <= na,
            i <= nb,
            a@.subrange(0, i as int) == b@.subrange(0, i as int),
            lt_from(a@, b@, 0) == lt_from(a@, b@, i as int),
            lt_from(b@, a@, 0) == lt_from(b@, a@, i as int),
        decreases na - i,
    {
        assert(a@.subrange(0, i + 1) == a@.subrange(0, i as int).push(a@[i as int]));
        assert(b@.subrange(0, i + 1) == b@.subrange(0, i as int).push(b@[i as int]));
        i = i + 1;
    }
    if i == na && i == nb {
        assert(a@ == a@.subrange(0, i as int));
        assert(b@ == b@.subrange(0, i as int));
        proof {
            lemma_lt_irreflexive(a@, i as int);
        }
        NameOrder::Equal
    } else if i == na {
        NameOrder::Less
    } else if i == nb {
        assert(a@ != b@) by {
            assert(a@.len() != b@.len());
        }
        NameOrder::Greater
    } else {
        let ca = a.get_char(i);
        let cb = b.get_char(i);
        assert(a@ != b@) by {
            assert(a@[i as int] != b@[i as int]);
        }
        if (ca as u32) < (cb as u32) {
            NameOrder::Less
        } else {
            NameOrder::Greater
        }
    }
}

} // verus!
