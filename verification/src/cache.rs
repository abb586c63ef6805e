//! Byte-bounded least-recently-used caches of prepared pixels.
use std::sync::Arc;
use vstd::std_specs::cmp::PartialEqSpec;
use vstd::prelude::*;

verus! {

/// `Arc::clone`: another pointer to the same value.
#[verifier::external_body]
pub(crate) fn share<V>(value: &Arc<V>) -> (r: Arc<V>)
    ensures
        r == *value,
{
    value.clone()
}

/// Total size of cached rows.
pub open spec fn total<K, V>(rows: Seq<(K, Arc<V>, usize)>) -> int
    decreases rows.len(),
{
    if rows.len() == 0 { 0 } else { total(rows.drop_last()) + rows.last().2 }
}

/// Index of the first row whose key equals `key`, the row count when none does.
pub open spec fn find_row<K: PartialEq, V>(rows: Seq<(K, Arc<V>, usize)>, key: K) -> int
    decreases rows.len(),
{
    if rows.len() == 0 {
        0
    } else if rows[0].0.eq_spec(&key) {
        0
    } else {
        1 + find_row(rows.drop_first(), key)
    }
}

/// The rows left after evicting from the oldest end until `bytes` more fit.
pub open spec fn evict<K, V>(rows: Seq<(K, Arc<V>, usize)>, bytes: int, limit: int) -> Seq<(K, Arc<V>, usize)>
    decreases rows.len(),
{
    if rows.len() > 0 && total(rows) + bytes > limit { evict(rows.drop_first(), bytes, limit) } else { rows }
}

proof fn lemma_total_nonneg<K, V>(rows: Seq<(K, Arc<V>, usize)>)
    ensures
        total(rows) >= 0,
    decreases rows.len(),
{
    if rows.len() > 0 {
        lemma_total_nonneg(rows.drop_last());
    }
}

proof fn lemma_total_drop_first<K, V>(rows: Seq<(K, Arc<V>, usize)>)
    requires
        rows.len() > 0,
    ensures
        total(rows) == rows[0].2 + total(rows.drop_first()),
    decreases rows.len(),
{
    if rows.len() > 1 {
        lemma_total_drop_first(rows.drop_last());
        assert(rows.drop_last().drop_first() =~= rows.drop_first().drop_last());
        assert(rows.drop_first().last() == rows.last());
        assert(rows.drop_last()[0] == rows[0]);
    } else {
        assert(rows.drop_first().len() == 0);
        assert(rows.drop_last().len() == 0);
        assert(total(rows.drop_last()) == 0);
    }
}

proof fn lemma_total_remove<K, V>(rows: Seq<(K, Arc<V>, usize)>, i: int)
    requires
        0 <= i < rows.len(),
    ensures
        total(rows) == rows[i].2 + total(rows.remove(i)),
    decreases rows.len(),
{
    if i == rows.len() - 1 {
        assert(rows.remove(i) =~= rows.drop_last());
    } else {
        lemma_total_remove(rows.drop_last(), i);
        assert(rows.remove(i).drop_last() =~= rows.drop_last().remove(i));
        assert(rows.remove(i).last() == rows.last());
    }
}

proof fn lemma_find_row<K: PartialEq, V>(rows: Seq<(K, Arc<V>, usize)>, key: K, i: int)
    requires
        0 <= i <= rows.len(),
        forall|j: int| 0 <= j < i ==> !rows[j].0.eq_spec(&key),
        i == rows.len() || rows[i].0.eq_spec(&key),
    ensures
        find_row(rows, key) == i,
    decreases i,
{
    if i > 0 {
        assert forall|j: int| 0 <= j < i - 1 implies !rows.drop_first()[j].0.eq_spec(&key) by {
            assert(rows.drop_first()[j] == rows[j + 1]);
        }
        lemma_find_row(rows.drop_first(), key, i - 1);
    }
}

/// Cached values, oldest first, each with its size in bytes.
pub struct Cache<K, V> {
    rows: Vec<(K, Arc<V>, usize)>,
    bytes: usize,
    limit: usize,
}

impl<K, V> Cache<K, V> {
    /// The recorded size is the total of the rows and within the limit.
    pub closed spec fn well_formed(&self) -> bool {
        &&& self.bytes == total(self.rows@)
        &&& self.bytes <= self.limit
    }

    /// Rows from least to most recently used.
    pub closed spec fn rows(&self) -> Seq<(K, Arc<V>, usize)> {
        self.rows@
    }

    pub closed spec fn limit(&self) -> int {
        self.limit as int
    }
}

impl<K: PartialEq, V> Cache<K, V> {
    /// An empty cache holding at most `limit` bytes.
    pub fn new(limit: usize) -> (c: Self)
        ensures
            c.well_formed(),
            c.rows() == Seq::<(K, Arc<V>, usize)>::empty(),
            c.limit() == limit,
    {
        Cache { rows: Vec::new(), bytes: 0, limit }
    }

    /// Bytes held; never more than the limit.
    pub fn bytes(&self) -> (b: usize)
        requires
            self.well_formed(),
        ensures
            b == total(self.rows()),
            b <= self.limit(),
    {
        self.bytes
    }

    /// The value cached for `key`, which becomes the most recently used.
    pub fn get(&mut self, key: &K) -> (r: Option<Arc<V>>)
        requires
            old(self).well_formed(),
            K::obeys_eq_spec(),
        ensures
            final(self).well_formed(),
            final(self).limit() == old(self).limit(),
            ({
                let i = find_row(old(self).rows(), *key);
                if i < old(self).rows().len() {
                    &&& r == Some(old(self).rows()[i].1)
                    &&& final(self).rows() == old(self).rows().remove(i).push(old(self).rows()[i])
                } else {
                    &&& r is None
                    &&& final(self).rows() == old(self).rows()
                }
            }),
    {
        let mut i: usize = 0;
        while i < self.rows.len() && !(self.rows[i].0 == *key)
            invariant
                K::obeys_eq_spec(),
                i <= self.rows@.len(),
                forall|j: int| 0 <= j < i ==> !self.rows@[j].0.eq_spec(key),
            decreases self.rows@.len() - i,
        {
            i += 1;
        }
        proof {
            lemma_find_row(self.rows@, *key, i as int);
        }
        if i == self.rows.len() {
            return None;
        }
        let ghost before = self.rows@;
        let mut rows: Vec<(K, Arc<V>, usize)> = Vec::new();
        std::mem::swap(&mut rows, &mut self.rows);
        let row = rows.remove(i);
        let value = share(&row.1);
        rows.push(row);
        proof {
            lemma_total_remove(before, i as int);
            assert(rows@.drop_last() =~= before.remove(i as int));
        }
        self.rows = rows;
        Some(value)
    }

    /// Caches `value` as the most recently used, evicting the oldest rows
    /// until it fits. A value larger than the whole cache is not kept.
    pub fn insert(&mut self, key: K, value: Arc<V>, bytes: usize)
        requires
            old(self).well_formed(),
        ensures
            final(self).well_formed(),
            final(self).limit() == old(self).limit(),
            bytes > old(self).limit() ==> final(self).rows() == old(self).rows(),
            bytes <= old(self).limit() ==> final(self).rows() == evict(old(self).rows(), bytes as int, old(self).limit()).push((key, value, bytes)),
    {
        if bytes > self.limit {
            return;
        }
        let mut rows: Vec<(K, Arc<V>, usize)> = Vec::new();
        std::mem::swap(&mut rows, &mut self.rows);
        let mut held = self.bytes;
        let ghost start = rows@;
        while rows.len() > 0 && held > self.limit - bytes
            invariant
                held == total(rows@),
                held <= self.limit,
                bytes <= self.limit,
                evict(start, bytes as int, self.limit as int) == evict(rows@, bytes as int, self.limit as int),
            decreases rows@.len(),
        {
            let ghost before = rows@;
            let row = rows.remove(0);
            proof {
                lemma_total_drop_first(before);
                lemma_total_nonneg(rows@);
                assert(rows@ =~= before.drop_first());
            }
            held = held - row.2;
        }
        proof {
            lemma_total_nonneg(rows@);
        }
        rows.push((key, value, bytes));
        proof {
            assert(rows@.drop_last() =~= evict(start, bytes as int, self.limit as int));
        }
        self.bytes = held + bytes;
        self.rows = rows;
    }
}

proof fn lemma_find_row_absent<K: PartialEq, V>(rows: Seq<(K, Arc<V>, usize)>, key: K)
    requires
        find_row(rows, key) == rows.len(),
    ensures
        forall|j: int| 0 <= j < rows.len() ==> !(#[trigger] rows[j]).0.eq_spec(&key),
    decreases rows.len(),
{
    if rows.len() > 0 {
        lemma_find_row_absent(rows.drop_first(), key);
        assert forall|j: int| 0 <= j < rows.len() implies !(#[trigger] rows[j]).0.eq_spec(&key) by {
            if j > 0 {
                assert(rows[j] == rows.drop_first()[j - 1]);
            }
        }
    }
}

proof fn lemma_evict_absent<K: PartialEq, V>(rows: Seq<(K, Arc<V>, usize)>, bytes: int, limit: int, key: K)
    requires
        forall|j: int| 0 <= j < rows.len() ==> !(#[trigger] rows[j]).0.eq_spec(&key),
    ensures
        forall|j: int| 0 <= j < evict(rows, bytes, limit).len() ==> !(#[trigger] evict(rows, bytes, limit)[j]).0.eq_spec(&key),
    decreases rows.len(),
{
    if rows.len() > 0 && total(rows) + bytes > limit {
        assert forall|j: int| 0 <= j < rows.drop_first().len() implies !(#[trigger] rows.drop_first()[j]).0.eq_spec(&key) by {
            assert(rows.drop_first()[j] == rows[j + 1]);
        }
        lemma_evict_absent(rows.drop_first(), bytes, limit, key);
        assert(evict(rows, bytes, limit) == evict(rows.drop_first(), bytes, limit));
    } else {
        assert(evict(rows, bytes, limit) == rows);
    }
}

/// What a read gives back of a write: right after `insert` of a value that
/// fits, under a key that was not cached and that equals itself, `get` with
/// that key finds exactly that value.
pub proof fn inserted_value_is_found<K: PartialEq, V>(
    rows: Seq<(K, Arc<V>, usize)>,
    key: K,
    value: Arc<V>,
    bytes: usize,
    limit: int,
)
    requires
        find_row(rows, key) == rows.len(),
        key.eq_spec(&key),
    ensures
        ({
            let after = evict(rows, bytes as int, limit).push((key, value, bytes));
            &&& find_row(after, key) == after.len() - 1
            &&& after[find_row(after, key)].1 == value
        }),
{
    let kept = evict(rows, bytes as int, limit);
    let after = kept.push((key, value, bytes));
    lemma_find_row_absent(rows, key);
    lemma_evict_absent(rows, bytes as int, limit, key);
    assert forall|j: int| 0 <= j < kept.len() implies !after[j].0.eq_spec(&key) by {
        assert(after[j] == kept[j]);
    }
    lemma_find_row(after, key, kept.len() as int);
}

} // verus!

