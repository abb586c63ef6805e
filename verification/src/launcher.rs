//! Launcher matching: a query matches an entry when its characters occur in
//! order, case-folded; the score sums the byte offsets of the matches, so
//! earlier matches rank first.
use crate::text::{chars_of, lowercase, to_lowercase};
use vstd::prelude::*;

verus! {

/// Bytes of the UTF-8 encoding of `c` (`char::len_utf8`).
pub open spec fn utf8_len(c: char) -> int {
    if (c as u32) < 0x80 { 1 } else if (c as u32) < 0x800 { 2 } else if (c as u32) < 0x10000 { 3 } else { 4 }
}

/// Byte offset of character `i` of `s`.
pub open spec fn byte_offset(s: Seq<char>, i: int) -> int
    decreases i,
{
    if i <= 0 { 0 } else { byte_offset(s, i - 1) + utf8_len(s[i - 1]) }
}

/// Matching the first `n` query characters from character `from` of `text`:
/// the summed byte offsets and the position after the last match.
pub open spec fn scan(query: Seq<char>, text: Seq<char>, n: int) -> Option<(int, int)>
    decreases n,
{
    if n <= 0 {
        Some((0, 0))
    } else {
        match scan(query, text, n - 1) {
            None => None,
            Some((total, from)) => {
                let q = query[n - 1];
                if exists|i: int| from <= i < text.len() && text[i] == q {
                    let i = choose|i: int| from <= i < text.len() && text[i] == q && forall|j: int| from <= j < i ==> text[j] != q;
                    Some((total + byte_offset(text, i), i + 1))
                } else {
                    None
                }
            },
        }
    }
}

/// Score of already case-folded texts: `None` when the query is not a
/// subsequence of the text.
pub open spec fn spec_score_folded(query: Seq<char>, text: Seq<char>) -> Option<int> {
    match scan(query, text, query.len() as int) {
        Some((total, _)) => Some(total),
        None => None,
    }
}

proof fn lemma_byte_offset_bounds(s: Seq<char>, i: int)
    requires
        0 <= i <= s.len(),
    ensures
        i <= byte_offset(s, i) <= 4 * i,
    decreases i,
{
    if i > 0 {
        lemma_byte_offset_bounds(s, i - 1);
    }
}

proof fn lemma_first_match(text: Seq<char>, from: int, q: char, i: int)
    requires
        0 <= from <= i < text.len(),
        text[i] == q,
        forall|j: int| from <= j < i ==> text[j] != q,
    ensures
        (choose|k: int| from <= k < text.len() && text[k] == q && forall|j: int| from <= j < k ==> text[j] != q) == i,
{
    let k = choose|k: int| from <= k < text.len() && text[k] == q && forall|j: int| from <= j < k ==> text[j] != q;
    assert(from <= k < text.len() && text[k] == q && forall|j: int| from <= j < k ==> text[j] != q);
    if k < i {
        assert(text[k] != q);
    }
    if k > i {
        assert(text[i] != q);
    }
}

/// Bytes of the UTF-8 encoding of `c`.
fn char_len(c: char) -> (n: usize)
    ensures
        n == utf8_len(c),
{
    if (c as u32) < 0x80 { 1 } else if (c as u32) < 0x800 { 2 } else if (c as u32) < 0x10000 { 3 } else { 4 }
}

/// The first `c` of `t` at or after character `from` (whose byte offset is
/// `offset`): its index and byte offset.
fn find_from(t: &Vec<char>, from: usize, offset: usize, c: char) -> (r: Option<(usize, usize)>)
    requires
        from <= t@.len(),
        offset == byte_offset(t@, from as int),
        4 * t@.len() <= usize::MAX,
    ensures
        r is None <==> !exists|k: int| from <= k < t@.len() && t@[k] == c,
        r matches Some((i, at)) ==> {
            &&& from <= i < t@.len()
            &&& t@[i as int] == c
            &&& forall|j: int| from <= j < i ==> t@[j] != c
            &&& at == byte_offset(t@, i as int)
        },
{
    let mut i = from;
    let mut at = offset;
    while i < t.len() && t[i] != c
        invariant
            from <= i <= t@.len(),
            at == byte_offset(t@, i as int),
            forall|j: int| from <= j < i ==> t@[j] != c,
            4 * t@.len() <= usize::MAX,
        decreases t@.len() - i,
    {
        proof {
            lemma_byte_offset_bounds(t@, i + 1);
        }
        at = at + char_len(t[i]);
        i += 1;
    }
    if i == t.len() {
        None
    } else {
        Some((i, at))
    }
}

/// Score of a case-folded query against a case-folded text.
#[verifier::spinoff_prover]
pub fn score_folded(query: &str, text: &str) -> (r: Option<usize>)
    requires
        4 * text@.len() * query@.len() <= usize::MAX,
    ensures
        r is Some <==> spec_score_folded(query@, text@) is Some,
        r matches Some(s) ==> spec_score_folded(query@, text@) == Some(s as int),
{
    let q = chars_of(query);
    let t = chars_of(text);
    let mut total: usize = 0;
    let mut from: usize = 0;
    let mut offset: usize = 0;
    let mut n: usize = 0;
    while n < q.len()
        invariant
            q@ == query@,
            t@ == text@,
            n <= q@.len(),
            from <= t@.len(),
            offset == byte_offset(t@, from as int),
            scan(q@, t@, n as int) == Some((total as int, from as int)),
            total <= 4 * t@.len() * n,
            4 * t@.len() * q@.len() <= usize::MAX,
        decreases q@.len() - n,
    {
        proof {
            lemma_bound_step(t@.len() as int, n as int, q@.len() as int);
        }
        let c = q[n];
        match find_from(&t, from, offset, c) {
            None => {
                proof {
                    lemma_scan_none(q@, t@, n as int);
                }
                return None;
            },
            Some((i, at)) => {
                proof {
                    lemma_first_match(t@, from as int, c, i as int);
                    lemma_byte_offset_bounds(t@, i as int);
                    lemma_byte_offset_bounds(t@, i + 1);
                    lemma_total_step(total as int, at as int, i as int, t@.len() as int, n as int);
                }
                total = total + at;
                offset = at + char_len(t[i]);
                from = i + 1;
                n += 1;
            },
        }
    }
    Some(total)
}

proof fn lemma_bound_step(len: int, n: int, m: int)
    by (nonlinear_arith)
    requires
        0 <= n < m,
        0 <= len,
        4 * len * m <= usize::MAX,
    ensures
        4 * len <= usize::MAX,
        4 * len * (n + 1) <= usize::MAX,
{
}

proof fn lemma_total_step(total: int, at: int, i: int, len: int, n: int)
    by (nonlinear_arith)
    requires
        0 <= n,
        total <= 4 * len * n,
        at <= 4 * i,
        0 <= i < len,
    ensures
        total + at <= 4 * len * (n + 1),
{
}

proof fn lemma_scan_none(q: Seq<char>, t: Seq<char>, n: int)
    requires
        0 <= n < q.len(),
        scan(q, t, n + 1) is None,
    ensures
        scan(q, t, q.len() as int) is None,
    decreases q.len() - n,
{
    if n + 1 < q.len() {
        lemma_scan_none(q, t, n + 1);
    }
}

/// Score of `query` against `text`, both lower-cased first: `None` when the
/// query's characters do not occur in order in the text (or when the score
/// could not be counted in a `usize`).
pub fn score(query: &str, text: &str) -> (r: Option<usize>)
    ensures
        4 * lowercase(text@).len() * lowercase(query@).len() <= usize::MAX ==> {
            &&& r is Some <==> spec_score_folded(lowercase(query@), lowercase(text@)) is Some
            &&& r matches Some(s) ==> spec_score_folded(lowercase(query@), lowercase(text@)) == Some(s as int)
        },
        4 * lowercase(text@).len() * lowercase(query@).len() > usize::MAX ==> r is None,
{
    let q = to_lowercase(query);
    let t = to_lowercase(text);
    let qn = chars_of(q.as_str()).len();
    let tn = chars_of(t.as_str()).len();
    if qn == 0 {
        assert(4 * tn * qn == 0) by (nonlinear_arith)
            requires
                qn == 0,
        ;
        return score_folded(q.as_str(), t.as_str());
    }
    match tn.checked_mul(4) {
        None => {
            assert(4 * tn * qn > usize::MAX) by (nonlinear_arith)
                requires
                    4 * tn > usize::MAX,
                    qn >= 1,
            ;
            None
        },
        Some(bytes) => match bytes.checked_mul(qn) {
            None => None,
            Some(_) => score_folded(q.as_str(), t.as_str()),
        },
    }
}

proof fn lemma_first_exists(text: Seq<char>, from: int, q: char, w: int)
    requires
        from <= w < text.len(),
        text[w] == q,
    ensures
        exists|i: int| from <= i < text.len() && text[i] == q && forall|j: int| from <= j < i ==> text[j] != q,
    decreases w - from,
{
    if exists|j: int| from <= j < w && text[j] == q {
        let j = choose|j: int| from <= j < w && text[j] == q;
        lemma_first_exists(text, from, q, j);
    }
}

/// Where a successful scan ended.
pub open spec fn end_of(r: Option<(int, int)>) -> int {
    match r {
        Some((_, e)) => e,
        None => 0,
    }
}

/// `idx` places the first `n` query characters in `text`, at increasing
/// positions.
pub open spec fn embeds(idx: Seq<int>, query: Seq<char>, text: Seq<char>, n: int) -> bool {
    &&& idx.len() == n
    &&& forall|k: int| 0 <= k < n ==> 0 <= #[trigger] idx[k] < text.len() && text[idx[k]] == query[k]
    &&& forall|k: int, l: int| 0 <= k < l < n ==> #[trigger] idx[k] < #[trigger] idx[l]
}

/// The characters of `query` occur in `text` in order.
pub open spec fn is_subsequence(query: Seq<char>, text: Seq<char>) -> bool {
    exists|idx: Seq<int>| embeds(idx, query, text, query.len() as int)
}

/// Matching first occurrences finds a placement whenever one exists, and
/// ends no later than any placement does.
#[verifier::spinoff_prover]
proof fn lemma_scan_complete(query: Seq<char>, text: Seq<char>, idx: Seq<int>, n: int)
    requires
        0 <= n <= query.len(),
        embeds(idx, query, text, n),
    ensures
        scan(query, text, n) is Some,
        n > 0 ==> end_of(scan(query, text, n)) <= idx[n - 1] + 1,
    decreases n,
{
    if n > 0 {
        let prefix = idx.take(n - 1);
        assert(embeds(prefix, query, text, n - 1)) by {
            assert forall|k: int| 0 <= k < n - 1 implies 0 <= #[trigger] prefix[k] < text.len() && text[prefix[k]] == query[k] by {
                assert(prefix[k] == idx[k]);
            }
            assert forall|k: int, l: int| 0 <= k < l < n - 1 implies #[trigger] prefix[k] < #[trigger] prefix[l] by {
                assert(prefix[k] == idx[k] && prefix[l] == idx[l]);
            }
        }
        lemma_scan_complete(query, text, prefix, n - 1);
        let (total, from) = scan(query, text, n - 1)->0;
        let q = query[n - 1];
        assert(0 <= idx[n - 1] < text.len() && text[idx[n - 1]] == q);
        if n > 1 {
            assert(prefix[n - 2] == idx[n - 2]);
            assert(idx[n - 2] < idx[n - 1]);
        }
        assert(from <= idx[n - 1]);
        lemma_first_exists(text, from, q, idx[n - 1]);
        let i = choose|i: int| from <= i < text.len() && text[i] == q && forall|j: int| from <= j < i ==> text[j] != q;
        assert(from <= i < text.len() && text[i] == q && forall|j: int| from <= j < i ==> text[j] != q);
        if i > idx[n - 1] {
            assert(text[idx[n - 1]] != q);
        }
        assert(end_of(scan(query, text, n)) == i + 1);
    }
}

/// A placement found by matching first occurrences: the query characters in
/// order, each at its first position after the previous one.
#[verifier::spinoff_prover]
proof fn lemma_scan_sound(query: Seq<char>, text: Seq<char>, n: int) -> (idx: Seq<int>)
    requires
        0 <= n <= query.len(),
        scan(query, text, n) is Some,
    ensures
        embeds(idx, query, text, n),
        n > 0 ==> end_of(scan(query, text, n)) == idx[n - 1] + 1,
        n == 0 ==> end_of(scan(query, text, n)) == 0,
    decreases n,
{
    if n == 0 {
        Seq::empty()
    } else {
        let prefix = lemma_scan_sound(query, text, n - 1);
        let (total, from) = scan(query, text, n - 1)->0;
        let q = query[n - 1];
        assert(exists|i: int| from <= i < text.len() && text[i] == q);
        let i = choose|i: int| from <= i < text.len() && text[i] == q && forall|j: int| from <= j < i ==> text[j] != q;
        let w = choose|i: int| from <= i < text.len() && text[i] == q;
        lemma_first_exists(text, from, q, w);
        assert(from <= i < text.len() && text[i] == q);
        assert(end_of(scan(query, text, n)) == i + 1);
        let idx = prefix.push(i);
        assert forall|k: int| 0 <= k < n implies 0 <= #[trigger] idx[k] < text.len() && text[idx[k]] == query[k] by {
            if k < n - 1 {
                assert(idx[k] == prefix[k]);
            }
        }
        assert forall|k: int, l: int| 0 <= k < l < n implies #[trigger] idx[k] < #[trigger] idx[l] by {
            assert(idx[k] == prefix[k]);
            if l < n - 1 {
                assert(idx[l] == prefix[l]);
            } else if n > 1 {
                assert(prefix[k] <= prefix[n - 2]);
            }
        }
        idx
    }
}

/// A query scores exactly when its characters occur in order in the text.
pub proof fn scores_exactly_subsequences(query: Seq<char>, text: Seq<char>)
    ensures
        spec_score_folded(query, text) is Some <==> is_subsequence(query, text),
{
    let n = query.len() as int;
    if scan(query, text, n) is Some {
        let idx = lemma_scan_sound(query, text, n);
        assert(embeds(idx, query, text, n));
    }
    if is_subsequence(query, text) {
        let idx = choose|idx: Seq<int>| embeds(idx, query, text, n);
        lemma_scan_complete(query, text, idx, n);
    }
}

} // verus!

