//! Tables of rows with a natural key, inserted with conflict-ignore semantics.

use std::collections::HashMap;
use vstd::prelude::*;
use crate::text::{hash_fold, hash_step, hash_text};

verus! {

broadcast use vstd::std_specs::hash::group_hash_axioms;

/// The last component of a row's natural key.
pub enum RowId {
    Sha(Seq<char>),
    Number(i64),
}

/// Natural key of a row: owner, repository and the per-repository id.
pub struct RowKey {
    pub owner: Seq<char>,
    pub repository: Seq<char>,
    pub id: RowId,
}

/// The bucket of a key in a table's index: a hash of its owner, repository
/// and id.
pub open spec fn key_bucket(k: RowKey) -> u64 {
    let h = hash_fold(hash_fold(0, k.owner), k.repository);
    match k.id {
        RowId::Sha(s) => hash_fold(h, s),
        RowId::Number(n) => hash_step(h, n as u64),
    }
}

/// A row that can be stored in a [`Table`].
pub trait Row: View + Sized {
    /// The natural key of a row, given its view.
    spec fn key(v: Self::V) -> RowKey;

    /// Whether two rows share their natural key.
    fn key_matches(&self, other: &Self) -> (r: bool)
        ensures
            r == (Self::key(self@) == Self::key(other@)),
    ;

    /// The index bucket of the row's key.
    fn bucket(&self) -> (b: u64)
        ensures
            b == key_bucket(Self::key(self@)),
    ;

    /// The repository bucket of the row's key.
    fn repo_bucket(&self) -> (b: u64)
        ensures
            b == repo_bucket(Self::key(self@)),
    ;

    /// The instant the row records, in seconds since the epoch.
    spec fn timestamp(v: Self::V) -> i64;

    /// The row's timestamp.
    fn ts(&self) -> (r: i64)
        ensures
            r == Self::timestamp(self@),
    ;

    /// Whether the row belongs to repository `owner/repo`.
    fn in_repository(&self, owner: &str, repo: &str) -> (r: bool)
        ensures
            r == (Self::key(self@).owner == owner@ && Self::key(self@).repository == repo@),
    ;

    /// A copy of the row.
    fn duplicate(&self) -> (r: Self)
        ensures
            r@ == self@,
    ;
}

/// Whether some row of `rows` has key `k`.
pub open spec fn has_key<R: Row>(rows: Seq<R::V>, k: RowKey) -> bool {
    exists|i: int| 0 <= i < rows.len() && R::key(#[trigger] rows[i]) == k
}

/// No two rows of `rows` share a key.
pub open spec fn keys_unique<R: Row>(rows: Seq<R::V>) -> bool {
    forall|i: int, j: int|
        0 <= i < rows.len() && 0 <= j < rows.len() && i != j ==> R::key(#[trigger] rows[i]) != R::key(
            #[trigger] rows[j],
        )
}

/// Inserting one row: a no-op when its key is already present.
pub open spec fn insert_one<R: Row>(rows: Seq<R::V>, v: R::V) -> Seq<R::V> {
    if has_key::<R>(rows, R::key(v)) {
        rows
    } else {
        rows.push(v)
    }
}

/// Inserting the rows of `new`, in order, each with conflict-ignore semantics.
pub open spec fn insert_all<R: Row>(rows: Seq<R::V>, new: Seq<R::V>) -> Seq<R::V>
    decreases new.len(),
{
    if new.len() == 0 {
        rows
    } else {
        insert_one::<R>(insert_all::<R>(rows, new.drop_last()), new.last())
    }
}

/// The row `s[i]` is the first of `s` with its key, and that key is not in `rows`.
pub open spec fn first_new<R: Row>(rows: Seq<R::V>, s: Seq<R::V>, i: int) -> bool {
    !has_key::<R>(rows, R::key(s[i])) && !has_key::<R>(s.take(i), R::key(s[i]))
}

/// After inserting `new`, the keys present are those of `rows` and of `new`.
pub proof fn lemma_insert_all_keys<R: Row>(rows: Seq<R::V>, new: Seq<R::V>, k: RowKey)
    ensures
        has_key::<R>(insert_all::<R>(rows, new), k) <==> (has_key::<R>(rows, k) || has_key::<R>(
            new,
            k,
        )),
    decreases new.len(),
{
    if new.len() > 0 {
        let prev = insert_all::<R>(rows, new.drop_last());
        lemma_insert_all_keys::<R>(rows, new.drop_last(), k);
        if has_key::<R>(new, k) {
            let i = choose|i: int| 0 <= i < new.len() && R::key(#[trigger] new[i]) == k;
            if i < new.len() - 1 {
                assert(new.drop_last()[i] == new[i]);
            }
        }
        if has_key::<R>(new.drop_last(), k) {
            let i = choose|i: int|
                0 <= i < new.drop_last().len() && R::key(#[trigger] new.drop_last()[i]) == k;
            assert(new[i] == new.drop_last()[i]);
        }
        if !has_key::<R>(prev, R::key(new.last())) {
            let res = prev.push(new.last());
            if has_key::<R>(prev, k) {
                let i = choose|i: int| 0 <= i < prev.len() && R::key(#[trigger] prev[i]) == k;
                assert(res[i] == prev[i]);
            }
            if has_key::<R>(res, k) {
                let i = choose|i: int| 0 <= i < res.len() && R::key(#[trigger] res[i]) == k;
                if i < prev.len() {
                    assert(res[i] == prev[i]);
                }
            }
            assert(R::key(res[res.len() - 1]) == R::key(new.last()));
            assert(R::key(new[new.len() - 1]) == R::key(new.last()));
        } else {
            assert(R::key(new[new.len() - 1]) == R::key(new.last()));
        }
    }
}

/// Inserting rows whose keys are all present already changes nothing.
pub proof fn lemma_insert_all_present<R: Row>(rows: Seq<R::V>, new: Seq<R::V>)
    requires
        forall|j: int| 0 <= j < new.len() ==> has_key::<R>(rows, R::key(#[trigger] new[j])),
    ensures
        insert_all::<R>(rows, new) == rows,
    decreases new.len(),
{
    if new.len() > 0 {
        assert forall|j: int| 0 <= j < new.drop_last().len() implies has_key::<R>(
            rows,
            R::key(#[trigger] new.drop_last()[j]),
        ) by {
            assert(new.drop_last()[j] == new[j]);
        }
        lemma_insert_all_present::<R>(rows, new.drop_last());
        assert(has_key::<R>(rows, R::key(new[new.len() - 1])));
    }
}

/// Inserting keeps keys unique.
pub proof fn lemma_insert_all_unique<R: Row>(rows: Seq<R::V>, new: Seq<R::V>)
    requires
        keys_unique::<R>(rows),
    ensures
        keys_unique::<R>(insert_all::<R>(rows, new)),
    decreases new.len(),
{
    if new.len() > 0 {
        lemma_insert_all_unique::<R>(rows, new.drop_last());
        let prev = insert_all::<R>(rows, new.drop_last());
        let v = new.last();
        if !has_key::<R>(prev, R::key(v)) {
            let res = prev.push(v);
            assert forall|i: int, j: int|
                0 <= i < res.len() && 0 <= j < res.len() && i != j implies R::key(
                #[trigger] res[i],
            ) != R::key(#[trigger] res[j]) by {
                if i < prev.len() && j < prev.len() {
                    assert(res[i] == prev[i] && res[j] == prev[j]);
                } else if i < prev.len() {
                    assert(res[i] == prev[i]);
                } else {
                    assert(res[j] == prev[j]);
                }
            }
        }
    }
}

/// A row is present after inserting `s` exactly when it was present before,
/// or it is the first row of `s` with a key that was not present.
pub proof fn lemma_insert_all_contains<R: Row>(rows: Seq<R::V>, s: Seq<R::V>, v: R::V)
    ensures
        insert_all::<R>(rows, s).contains(v) <==> (rows.contains(v) || exists|i: int|
            0 <= i < s.len() && s[i] == v && #[trigger] first_new::<R>(rows, s, i)),
    decreases s.len(),
{
    if s.len() > 0 {
        let s0 = s.drop_last();
        let n = s.len() - 1;
        let prev = insert_all::<R>(rows, s0);
        lemma_insert_all_contains::<R>(rows, s0, v);
        lemma_insert_all_keys::<R>(rows, s0, R::key(s.last()));
        assert(s.take(n) =~= s0);
        assert forall|i: int| 0 <= i < n implies first_new::<R>(rows, s, i) == first_new::<R>(
            rows,
            s0,
            i,
        ) by {
            assert(s0[i] == s[i]);
            assert(s.take(i) =~= s0.take(i));
        }
        let res = insert_all::<R>(rows, s);
        if res.contains(v) {
            if !prev.contains(v) {
                assert(res != prev);
                assert(res == prev.push(s.last()));
                let k = choose|k: int| 0 <= k < res.len() && res[k] == v;
                if k < prev.len() {
                    assert(res[k] == prev[k]);
                    assert(false);
                }
                assert(s[n] == v && first_new::<R>(rows, s, n));
            } else if rows.contains(v) {
            } else {
                let i = choose|i: int| 0 <= i < s0.len() && s0[i] == v && #[trigger] first_new::<R>(rows, s0, i);
                assert(s[i] == v && first_new::<R>(rows, s, i));
            }
        }
        if rows.contains(v) || exists|i: int| 0 <= i < s.len() && s[i] == v && #[trigger] first_new::<R>(rows, s, i) {
            if prev.contains(v) {
                let k = choose|k: int| 0 <= k < prev.len() && prev[k] == v;
                if res != prev {
                    assert(res[k] == prev[k]);
                }
            } else if rows.contains(v) {
            } else {
                let i = choose|i: int| 0 <= i < s.len() && s[i] == v && #[trigger] first_new::<R>(rows, s, i);
                if i < n {
                    assert(s0[i] == v);
                    assert(first_new::<R>(rows, s0, i));
                }
                assert(i == n);
                assert(res == prev.push(s.last()));
                assert(res[prev.len() as int] == v);
            }
        }
    }
}

/// Merging the same rows twice leaves what merging them once left.
pub proof fn lemma_insert_all_idempotent<R: Row>(rows: Seq<R::V>, s: Seq<R::V>)
    ensures
        insert_all::<R>(insert_all::<R>(rows, s), s) == insert_all::<R>(rows, s),
{
    let once = insert_all::<R>(rows, s);
    assert forall|j: int| 0 <= j < s.len() implies has_key::<R>(once, R::key(#[trigger] s[j])) by {
        lemma_insert_all_keys::<R>(rows, s, R::key(s[j]));
    }
    lemma_insert_all_present::<R>(once, s);
}

/// No row of `a` shares its key with a row of `b`.
pub open spec fn keys_disjoint<R: Row>(a: Seq<R::V>, b: Seq<R::V>) -> bool {
    forall|i: int, j: int|
        0 <= i < a.len() && 0 <= j < b.len() ==> R::key(#[trigger] a[i]) != R::key(#[trigger] b[j])
}

/// Inserting each batch of `batches` in turn.
pub open spec fn insert_batches<R: Row>(rows: Seq<R::V>, batches: Seq<Seq<R::V>>) -> Seq<R::V>
    decreases batches.len(),
{
    if batches.len() == 0 {
        rows
    } else {
        insert_all::<R>(insert_batches::<R>(rows, batches.drop_last()), batches.last())
    }
}

/// No two batches share a key.
pub open spec fn batches_disjoint<R: Row>(batches: Seq<Seq<R::V>>) -> bool {
    forall|j: int, k: int|
        0 <= j < batches.len() && 0 <= k < batches.len() && j != k ==> keys_disjoint::<R>(
            #[trigger] batches[j],
            #[trigger] batches[k],
        )
}

/// `v` is, in some batch, the first row of its key, a key that `rows` lacks.
pub open spec fn new_in_batches<R: Row>(rows: Seq<R::V>, batches: Seq<Seq<R::V>>, v: R::V) -> bool {
    exists|k: int, i: int|
        0 <= k < batches.len() && 0 <= i < batches[k].len() && batches[k][i] == v
            && #[trigger] first_new::<R>(rows, batches[k], i)
}

proof fn lemma_insert_batches_keys<R: Row>(rows: Seq<R::V>, batches: Seq<Seq<R::V>>, key: RowKey)
    ensures
        has_key::<R>(insert_batches::<R>(rows, batches), key) <==> (has_key::<R>(rows, key)
            || exists|k: int| 0 <= k < batches.len() && has_key::<R>(#[trigger] batches[k], key)),
    decreases batches.len(),
{
    if batches.len() > 0 {
        let init = batches.drop_last();
        lemma_insert_batches_keys::<R>(rows, init, key);
        lemma_insert_all_keys::<R>(insert_batches::<R>(rows, init), batches.last(), key);
        if exists|k: int| 0 <= k < batches.len() && has_key::<R>(#[trigger] batches[k], key) {
            let k = choose|k: int| 0 <= k < batches.len() && has_key::<R>(#[trigger] batches[k], key);
            if k < init.len() {
                assert(init[k] == batches[k]);
            }
        }
        if exists|k: int| 0 <= k < init.len() && has_key::<R>(#[trigger] init[k], key) {
            let k = choose|k: int| 0 <= k < init.len() && has_key::<R>(#[trigger] init[k], key);
            assert(init[k] == batches[k]);
        }
    }
}

/// With batches that share no key, a row is present after inserting them
/// all exactly when it was present before or is new in some batch, whatever
/// their order.
pub proof fn lemma_insert_batches_contains<R: Row>(rows: Seq<R::V>, batches: Seq<Seq<R::V>>, v: R::V)
    requires
        batches_disjoint::<R>(batches),
    ensures
        insert_batches::<R>(rows, batches).contains(v) <==> (rows.contains(v) || new_in_batches::<
            R,
        >(rows, batches, v)),
    decreases batches.len(),
{
    if batches.len() > 0 {
        let n = batches.len() - 1;
        let init = batches.drop_last();
        let last = batches.last();
        assert forall|j: int, k: int|
            0 <= j < init.len() && 0 <= k < init.len() && j != k implies keys_disjoint::<R>(
            #[trigger] init[j],
            #[trigger] init[k],
        ) by {
            assert(init[j] == batches[j] && init[k] == batches[k]);
        }
        lemma_insert_batches_contains::<R>(rows, init, v);
        let prev = insert_batches::<R>(rows, init);
        lemma_insert_all_contains::<R>(prev, last, v);
        assert forall|i: int| 0 <= i < last.len() implies first_new::<R>(prev, last, i)
            == first_new::<R>(rows, last, i) by {
            lemma_insert_batches_keys::<R>(rows, init, R::key(last[i]));
            if exists|k: int| 0 <= k < init.len() && has_key::<R>(#[trigger] init[k], R::key(last[i])) {
                let k = choose|k: int|
                    0 <= k < init.len() && has_key::<R>(#[trigger] init[k], R::key(last[i]));
                let j = choose|j: int| 0 <= j < init[k].len() && R::key(#[trigger] init[k][j]) == R::key(last[i]);
                assert(init[k] == batches[k]);
                assert(keys_disjoint::<R>(batches[k], batches[n]));
                assert(R::key(batches[k][j]) != R::key(batches[n][i]));
            }
        }
        if new_in_batches::<R>(rows, batches, v) {
            let (k, i) = choose|k: int, i: int|
                0 <= k < batches.len() && 0 <= i < batches[k].len() && batches[k][i] == v
                    && #[trigger] first_new::<R>(rows, batches[k], i);
            if k < n {
                assert(init[k] == batches[k]);
                assert(new_in_batches::<R>(rows, init, v));
            } else {
                assert(last[i] == v && first_new::<R>(prev, last, i));
            }
        }
        if new_in_batches::<R>(rows, init, v) {
            let (k, i) = choose|k: int, i: int|
                0 <= k < init.len() && 0 <= i < init[k].len() && init[k][i] == v
                    && #[trigger] first_new::<R>(rows, init[k], i);
            assert(init[k] == batches[k]);
            assert(new_in_batches::<R>(rows, batches, v));
        }
        if exists|i: int| 0 <= i < last.len() && last[i] == v && #[trigger] first_new::<R>(prev, last, i) {
            let i = choose|i: int| 0 <= i < last.len() && last[i] == v && #[trigger] first_new::<R>(prev, last, i);
            assert(batches[n] == last);
            assert(new_in_batches::<R>(rows, batches, v));
        }
    }
}

/// Inserting the same batches, which share no key, in two orders leaves the
/// same rows.
pub proof fn lemma_insert_batches_order<R: Row>(
    rows: Seq<R::V>,
    a: Seq<Seq<R::V>>,
    b: Seq<Seq<R::V>>,
)
    requires
        batches_disjoint::<R>(a),
        batches_disjoint::<R>(b),
        a.to_set() == b.to_set(),
    ensures
        insert_batches::<R>(rows, a).to_set() == insert_batches::<R>(rows, b).to_set(),
{
    assert forall|v: R::V| #[trigger] insert_batches::<R>(rows, a).contains(v) <==> insert_batches::<
        R,
    >(rows, b).contains(v) by {
        lemma_insert_batches_contains::<R>(rows, a, v);
        lemma_insert_batches_contains::<R>(rows, b, v);
        if new_in_batches::<R>(rows, a, v) {
            let (k, i) = choose|k: int, i: int|
                0 <= k < a.len() && 0 <= i < a[k].len() && a[k][i] == v
                    && #[trigger] first_new::<R>(rows, a[k], i);
            assert(a.to_set().contains(a[k]));
            assert(b.to_set().contains(a[k]));
            let j = choose|j: int| 0 <= j < b.len() && b[j] == a[k];
            assert(first_new::<R>(rows, b[j], i));
        }
        if new_in_batches::<R>(rows, b, v) {
            let (k, i) = choose|k: int, i: int|
                0 <= k < b.len() && 0 <= i < b[k].len() && b[k][i] == v
                    && #[trigger] first_new::<R>(rows, b[k], i);
            assert(b.to_set().contains(b[k]));
            assert(a.to_set().contains(b[k]));
            let j = choose|j: int| 0 <= j < a.len() && a[j] == b[k];
            assert(first_new::<R>(rows, a[j], i));
        }
    }
    assert(insert_batches::<R>(rows, a).to_set() =~= insert_batches::<R>(rows, b).to_set());
}

/// Row `i` is listed under bucket `b` of `index`.
pub open spec fn listed(index: Map<u64, Vec<usize>>, b: u64, i: int) -> bool {
    index.contains_key(b) && exists|k: int| 0 <= k < index[b]@.len() && index[b]@[k] as int == i
}

/// Every position listed in `index` is below `n`.
pub open spec fn bounded(index: Map<u64, Vec<usize>>, n: int) -> bool {
    forall|b: u64|
        #[trigger] index.contains_key(b) ==> forall|j: int|
            0 <= j < index[b]@.len() ==> index[b]@[j] < n
}

/// Appending position `n` under bucket `b` keeps every listing, lists `n`,
/// and keeps positions below `n + 1`.
proof fn lemma_index_push(
    old_index: Map<u64, Vec<usize>>,
    index: Map<u64, Vec<usize>>,
    b: u64,
    old_positions: Seq<usize>,
    n: usize,
)
    requires
        old_index.contains_key(b) ==> old_positions == old_index[b]@,
        !old_index.contains_key(b) ==> old_positions.len() == 0,
        index.contains_key(b),
        index[b]@ == old_positions.push(n),
        forall|c: u64| c != b ==> (#[trigger] index.contains_key(c) == old_index.contains_key(c)),
        forall|c: u64| c != b && old_index.contains_key(c) ==> #[trigger] index[c] == old_index[c],
        bounded(old_index, n as int),
    ensures
        bounded(index, n + 1),
        listed(index, b, n as int),
        forall|c: u64, i: int| listed(old_index, c, i) ==> #[trigger] listed(index, c, i),
{
    assert(index[b]@[old_positions.len() as int] == n);
    assert forall|c: u64| #[trigger] index.contains_key(c) implies forall|j: int|
        0 <= j < index[c]@.len() ==> index[c]@[j] < n + 1 by {
        if c == b {
            assert forall|j: int| 0 <= j < index[c]@.len() implies index[c]@[j] < n + 1 by {
                if j < old_positions.len() {
                    assert(index[c]@[j] == old_positions[j]);
                }
            }
        } else {
            assert(old_index.contains_key(c));
        }
    }
    assert forall|c: u64, i: int| listed(old_index, c, i) implies #[trigger] listed(index, c, i) by {
        let k = choose|k: int| 0 <= k < old_index[c]@.len() && old_index[c]@[k] as int == i;
        if c == b {
            assert(index[c]@[k] == old_positions[k]);
        } else {
            assert(index[c] == old_index[c]);
        }
    }
}

/// The bucket of a repository in a table's second index.
pub open spec fn repo_bucket(k: RowKey) -> u64 {
    hash_fold(hash_fold(0, k.owner), k.repository)
}

/// A table: rows kept in insertion order, at most one per natural key, with
/// two indexes from buckets to row positions: by key, and by repository.
pub struct Table<R: Row> {
    rows: Vec<R>,
    by_key: HashMap<u64, Vec<usize>>,
    by_repo: HashMap<u64, Vec<usize>>,
}

impl<R: Row> View for Table<R> {
    type V = Seq<R::V>;

    closed spec fn view(&self) -> Seq<R::V> {
        self.rows@.map_values(|r: R| r@)
    }
}

impl<R: Row> Table<R> {
    /// Well-formedness: keys are unique.
    pub open spec fn wf(&self) -> bool {
        keys_unique::<R>(self@)
    }

    /// Every row is listed under its buckets, and every listed position is a
    /// row's.
    closed spec fn indexes_ok(&self) -> bool {
        &&& forall|i: int|
            0 <= i < self.rows@.len() ==> listed(
                self.by_key@,
                key_bucket(R::key(#[trigger] self.rows@[i]@)),
                i,
            ) && listed(self.by_repo@, repo_bucket(R::key(self.rows@[i]@)), i)
        &&& bounded(self.by_key@, self.rows@.len() as int)
        &&& bounded(self.by_repo@, self.rows@.len() as int)
    }

    #[verifier::type_invariant]
    closed spec fn inv(self) -> bool {
        self.wf() && self.indexes_ok()
    }

    /// States that keys are unique, which holds of every table.
    pub fn wf_holds(&self)
        ensures
            self.wf(),
    {
        proof {
            use_type_invariant(self);
        }
    }

    /// An empty table.
    pub fn new() -> (t: Self)
        ensures
            t.wf(),
            t@ == Seq::<R::V>::empty(),
    {
        let t = Table { rows: Vec::new(), by_key: HashMap::new(), by_repo: HashMap::new() };
        assert(t@ =~= Seq::<R::V>::empty());
        t
    }

    /// Number of rows.
    pub fn len(&self) -> (n: usize)
        ensures
            n == self@.len(),
    {
        self.rows.len()
    }

    /// The row at position `i`.
    pub fn get(&self, i: usize) -> (r: &R)
        requires
            i < self@.len(),
        ensures
            r@ == self@[i as int],
    {
        &self.rows[i]
    }

    /// Whether a row with the key of `row` is present.
    pub fn contains_key_of(&self, row: &R) -> (found: bool)
        ensures
            found == has_key::<R>(self@, R::key(row@)),
    {
        proof {
            use_type_invariant(self);
        }
        let b = row.bucket();
        match self.by_key.get(&b) {
            None => {
                proof {
                    if has_key::<R>(self@, R::key(row@)) {
                        let i = choose|i: int| 0 <= i < self@.len() && R::key(#[trigger] self@[i]) == R::key(row@);
                        assert(self.rows@[i]@ == self@[i]);
                        assert(listed(self.by_key@, b, i));
                    }
                }
                false
            },
            Some(positions) => {
                let mut j: usize = 0;
                while j < positions.len()
                    invariant
                        self.by_key@.contains_key(b),
                        self.by_key@[b] == *positions,
                        j <= positions@.len(),
                        forall|k: int| 0 <= k < j ==> R::key(self@[positions@[k] as int]) != R::key(row@),
                        forall|k: int| 0 <= k < positions@.len() ==> positions@[k] < self.rows@.len(),
                    decreases positions@.len() - j,
                {
                    let p = positions[j];
                    assert(self.rows@[p as int]@ == self@[p as int]);
                    if self.rows[p].key_matches(row) {
                        return true;
                    }
                    j = j + 1;
                }
                proof {
                    if has_key::<R>(self@, R::key(row@)) {
                        let i = choose|i: int| 0 <= i < self@.len() && R::key(#[trigger] self@[i]) == R::key(row@);
                        assert(self.rows@[i]@ == self@[i]);
                        assert(listed(self.by_key@, b, i));
                        let k = choose|k: int| 0 <= k < positions@.len() && positions@[k] as int == i;
                        assert(R::key(self@[positions@[k] as int]) != R::key(row@));
                    }
                }
                false
            },
        }
    }

    /// Inserts `row` unless its key is present; returns whether it was added.
    pub fn insert(&mut self, row: R) -> (added: bool)
        ensures
            final(self).wf(),
            final(self)@ == insert_one::<R>(old(self)@, row@),
            added == !has_key::<R>(old(self)@, R::key(row@)),
    {
        proof {
            use_type_invariant(&*self);
        }
        if self.contains_key_of(&row) {
            return false;
        }
        let ghost v = row@;
        let kb = row.bucket();
        let rb = row.repo_bucket();
        let mut t = Table::new();
        std::mem::swap(self, &mut t);
        proof {
            use_type_invariant(&t);
        }
        let Table { mut rows, mut by_key, mut by_repo } = t;
        let ghost old_rows = rows@;
        let ghost old_by_key = by_key@;
        let ghost old_by_repo = by_repo@;
        let n = rows.len();
        rows.push(row);
        let mut positions = match by_key.remove(&kb) {
            Some(p) => p,
            None => Vec::new(),
        };
        let ghost old_key_positions = positions@;
        positions.push(n);
        by_key.insert(kb, positions);
        let mut positions = match by_repo.remove(&rb) {
            Some(p) => p,
            None => Vec::new(),
        };
        let ghost old_repo_positions = positions@;
        positions.push(n);
        by_repo.insert(rb, positions);
        proof {
            lemma_index_push(old_by_key, by_key@, kb, old_key_positions, n);
            lemma_index_push(old_by_repo, by_repo@, rb, old_repo_positions, n);
        }
        assert(rows@.map_values(|r: R| r@) =~= old(self)@.push(v));
        assert(keys_unique::<R>(old(self)@.push(v))) by {
            let s = old(self)@.push(v);
            assert forall|i: int, j: int|
                0 <= i < s.len() && 0 <= j < s.len() && i != j implies R::key(#[trigger] s[i])
                != R::key(#[trigger] s[j]) by {
                if i < old(self)@.len() && j < old(self)@.len() {
                    assert(s[i] == old(self)@[i] && s[j] == old(self)@[j]);
                } else if i < old(self)@.len() {
                    assert(s[i] == old(self)@[i]);
                } else {
                    assert(s[j] == old(self)@[j]);
                }
            }
        }
        assert forall|i: int| 0 <= i < rows@.len() implies listed(
            by_key@,
            key_bucket(R::key(#[trigger] rows@[i]@)),
            i,
        ) && listed(by_repo@, repo_bucket(R::key(rows@[i]@)), i) by {
            if i < n {
                assert(rows@[i] == old_rows[i]);
                assert(listed(old_by_key, key_bucket(R::key(old_rows[i]@)), i));
                assert(listed(old_by_repo, repo_bucket(R::key(old_rows[i]@)), i));
            }
        }
        *self = Table { rows, by_key, by_repo };
        true
    }

    /// Inserts a copy of each of `rows`, in order, with conflict-ignore
    /// semantics; returns how many rows were added.
    pub fn insert_all_from(&mut self, rows: &Vec<R>) -> (added: usize)
        ensures
            final(self).wf(),
            final(self)@ == insert_all::<R>(old(self)@, rows@.map_values(|r: R| r@)),
            added == final(self)@.len() - old(self)@.len(),
    {
        proof {
            use_type_invariant(&*self);
        }
        let ghost new = rows@.map_values(|r: R| r@);
        let start = self.rows.len();
        let mut i: usize = 0;
        while i < rows.len()
            invariant
                i <= rows@.len(),
                new == rows@.map_values(|r: R| r@),
                start == old(self)@.len(),
                self.wf(),
                self@ == insert_all::<R>(old(self)@, new.take(i as int)),
                self@.len() >= start,
            decreases rows@.len() - i,
        {
            let row = rows[i].duplicate();
            self.insert(row);
            assert(new.take(i + 1).drop_last() =~= new.take(i as int));
            i = i + 1;
        }
        assert(new.take(i as int) =~= new);
        self.rows.len() - start
    }

    /// Inserts a copy of each row of `other`, in order, with conflict-ignore
    /// semantics; returns how many rows were added.
    pub fn insert_from(&mut self, other: &Table<R>) -> (added: usize)
        ensures
            final(self).wf(),
            final(self)@ == insert_all::<R>(old(self)@, other@),
            added == final(self)@.len() - old(self)@.len(),
    {
        self.insert_all_from(&other.rows)
    }

    /// The latest timestamp among the rows of repository `owner/repo`.
    pub fn latest_ts(&self, owner: &str, repo: &str) -> (r: Option<i64>)
        ensures
            r == latest_ts::<R>(self@, owner@, repo@),
    {
        proof {
            use_type_invariant(self);
            lemma_latest_ts_is_max::<R>(self@, owner@, repo@);
        }
        let ghost in_repo = |v: R::V| R::key(v).owner == owner@ && R::key(v).repository == repo@;
        let rb = hash_text(hash_text(0, owner), repo);
        let mut best: Option<i64> = None;
        match self.by_repo.get(&rb) {
            None => {},
            Some(positions) => {
                let mut j: usize = 0;
                while j < positions.len()
                    invariant
                        self.by_repo@.contains_key(rb),
                        self.by_repo@[rb] == *positions,
                        j <= positions@.len(),
                        forall|k: int| 0 <= k < positions@.len() ==> positions@[k] < self.rows@.len(),
                        in_repo == (|v: R::V| R::key(v).owner == owner@ && R::key(v).repository == repo@),
                        best is None ==> forall|k: int|
                            0 <= k < j ==> !in_repo(self@[positions@[k] as int]),
                        best matches Some(t) ==> (exists|i: int|
                            0 <= i < self@.len() && in_repo(self@[i]) && R::timestamp(self@[i]) == t)
                            && forall|k: int|
                            0 <= k < j && in_repo(self@[positions@[k] as int]) ==> R::timestamp(
                                self@[positions@[k] as int],
                            ) <= t,
                    decreases positions@.len() - j,
                {
                    let p = positions[j];
                    let row = &self.rows[p];
                    assert(self.rows@[p as int]@ == self@[p as int]);
                    if row.in_repository(owner, repo) {
                        let t = row.ts();
                        best = match best {
                            None => Some(t),
                            Some(b) => Some(if t > b { t } else { b }),
                        };
                    }
                    j = j + 1;
                }
            },
        }
        proof {
            assert forall|i: int| 0 <= i < self@.len() && #[trigger] in_repo(self@[i]) implies (
            best matches Some(t) && R::timestamp(self@[i]) <= t) by {
                assert(self.rows@[i]@ == self@[i]);
                assert(repo_bucket(R::key(self@[i])) == rb);
                assert(listed(self.by_repo@, rb, i));
                let positions = self.by_repo@[rb]@;
                let k = choose|k: int| 0 <= k < positions.len() && positions[k] as int == i;
            }
            if best is None {
                if exists|i: int| 0 <= i < self@.len() && #[trigger] in_repo(self@[i]) {
                    let i = choose|i: int| 0 <= i < self@.len() && #[trigger] in_repo(self@[i]);
                    assert(best matches Some(t) && R::timestamp(self@[i]) <= t);
                }
            }
        }
        best
    }
}

/// The latest timestamp of a repository is the greatest timestamp of its
/// rows, `None` when it has none.
proof fn lemma_latest_ts_is_max<R: Row>(rows: Seq<R::V>, owner: Seq<char>, repo: Seq<char>)
    ensures
        latest_ts::<R>(rows, owner, repo) is None <==> forall|i: int|
            0 <= i < rows.len() ==> !(R::key(#[trigger] rows[i]).owner == owner && R::key(
                rows[i],
            ).repository == repo),
        latest_ts::<R>(rows, owner, repo) matches Some(t) ==> (exists|i: int|
            0 <= i < rows.len() && R::key(rows[i]).owner == owner && R::key(rows[i]).repository
                == repo && R::timestamp(rows[i]) == t) && forall|i: int|
            0 <= i < rows.len() && R::key(#[trigger] rows[i]).owner == owner && R::key(
                rows[i],
            ).repository == repo ==> R::timestamp(rows[i]) <= t,
    decreases rows.len(),
{
    if rows.len() > 0 {
        let init = rows.drop_last();
        lemma_latest_ts_is_max::<R>(init, owner, repo);
        assert forall|i: int| 0 <= i < init.len() implies init[i] == rows[i] by {}
        let n = rows.len() - 1;
        if let Some(t) = latest_ts::<R>(init, owner, repo) {
            let i = choose|i: int|
                0 <= i < init.len() && R::key(init[i]).owner == owner && R::key(init[i]).repository
                    == repo && R::timestamp(init[i]) == t;
            assert(rows[i] == init[i]);
        }
        assert(rows[n] == rows.last());
    }
}

/// The latest timestamp among the rows of repository `owner/repo`; `None`
/// when it has no row.
pub open spec fn latest_ts<R: Row>(rows: Seq<R::V>, owner: Seq<char>, repo: Seq<char>) -> Option<i64>
    decreases rows.len(),
{
    if rows.len() == 0 {
        None
    } else {
        let prev = latest_ts::<R>(rows.drop_last(), owner, repo);
        let v = rows.last();
        if R::key(v).owner == owner && R::key(v).repository == repo {
            match prev {
                None => Some(R::timestamp(v)),
                Some(t) => Some(if R::timestamp(v) > t { R::timestamp(v) } else { t }),
            }
        } else {
            prev
        }
    }
}

/// The latest timestamp of a repository is at least that of each of its rows.
pub proof fn lemma_latest_ts_bound<R: Row>(rows: Seq<R::V>, owner: Seq<char>, repo: Seq<char>, i: int)
    requires
        0 <= i < rows.len(),
        R::key(rows[i]).owner == owner,
        R::key(rows[i]).repository == repo,
    ensures
        latest_ts::<R>(rows, owner, repo) matches Some(t) && t >= R::timestamp(rows[i]),
    decreases rows.len(),
{
    if i < rows.len() - 1 {
        assert(rows.drop_last()[i] == rows[i]);
        lemma_latest_ts_bound::<R>(rows.drop_last(), owner, repo, i);
    }
}

} // verus!
