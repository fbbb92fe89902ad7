//! The token pool: one client per credential, leased to one unit of work at
//! a time, and retired for the rest of the run once its quota runs low.

use vstd::prelude::*;
use crate::error::{ApiError, ConfigError};

verus! {

/// The state of a token pool: idle credentials, and credentials leased out.
pub struct PoolView {
    pub idle: Seq<usize>,
    pub leased: Seq<usize>,
}

/// The pool's size: the credentials that are not retired.
pub open spec fn pool_size(p: PoolView) -> nat {
    p.idle.len() + p.leased.len()
}

/// Admission follows the pool's current size: no more credentials are
/// leased out than the pool holds, and once every credential still in the
/// pool is leased, none is idle, so `acquire` admits no further unit of work
/// (it answers `Ok(None)`) until one is released. After an eviction shrinks
/// the pool to one credential, work is thus admitted one unit at a time.
pub proof fn lemma_admission_follows_size(p: PoolView)
    ensures
        p.leased.len() <= pool_size(p),
        p.leased.len() == pool_size(p) ==> p.idle.len() == 0,
{
}

/// Credentials are numbered from 0; a lease is the number of its credential.
pub struct TokenPool {
    idle: Vec<usize>,
    leased: Vec<usize>,
}

impl View for TokenPool {
    type V = PoolView;

    closed spec fn view(&self) -> PoolView {
        PoolView { idle: self.idle@, leased: self.leased@ }
    }
}

/// `s` without its first occurrence of `x`, which is at `i`.
pub open spec fn removed_first(s: Seq<usize>, x: usize, i: int) -> bool {
    0 <= i < s.len() && s[i] == x && forall|j: int| 0 <= j < i ==> s[j] != x
}

impl TokenPool {
    /// The size fits in a `usize`.
    pub open spec fn wf(&self) -> bool {
        pool_size(self@) <= usize::MAX
    }

    #[verifier::type_invariant]
    pub open spec fn inv(self) -> bool {
        self.wf()
    }

    /// A pool of `n` credentials, all idle; no credential is a configuration
    /// error.
    pub fn new(n: usize) -> (r: Result<TokenPool, ConfigError>)
        ensures
            n == 0 ==> r == Err::<TokenPool, ConfigError>(ConfigError::NoCredentials),
            n > 0 ==> (r matches Ok(p) && p.wf() && p@.leased.len() == 0 && p@.idle == Seq::new(
                n as nat,
                |i: int| i as usize,
            )),
    {
        if n == 0 {
            return Err(ConfigError::NoCredentials);
        }
        let mut idle: Vec<usize> = Vec::new();
        let mut i: usize = 0;
        while i < n
            invariant
                i <= n,
                idle@ == Seq::new(i as nat, |k: int| k as usize),
            decreases n - i,
        {
            idle.push(i);
            assert(idle@ =~= Seq::new((i + 1) as nat, |k: int| k as usize));
            i = i + 1;
        }
        Ok(TokenPool { idle, leased: Vec::new() })
    }

    /// The pool's size: how many leases may be out at once, and so the
    /// concurrency budget of a run.
    pub fn size(&self) -> (n: usize)
        ensures
            n == pool_size(self@),
    {
        proof {
            use_type_invariant(self);
        }
        self.idle.len() + self.leased.len()
    }

    /// Leases an idle credential. `Ok(None)` when all are leased out (the
    /// caller waits for a release); an error when every credential has been
    /// retired.
    pub fn acquire(&mut self) -> (r: Result<Option<usize>, ApiError>)
        ensures
            final(self).wf(),
            pool_size(old(self)@) == 0 ==> r == Err::<Option<usize>, ApiError>(
                ApiError::QuotaExhausted,
            ) && final(self)@ == old(self)@,
            pool_size(old(self)@) > 0 && old(self)@.idle.len() == 0 ==> (r matches Ok(None)
                && final(self)@ == old(self)@),
            old(self)@.idle.len() > 0 ==> r == Ok::<Option<usize>, ApiError>(
                Some(old(self)@.idle.last()),
            ) && final(self)@ == (PoolView {
                idle: old(self)@.idle.drop_last(),
                leased: old(self)@.leased.push(old(self)@.idle.last()),
            }),
    {
        proof {
            use_type_invariant(&*self);
        }
        if self.idle.len() == 0 {
            if self.leased.len() == 0 {
                return Err(ApiError::QuotaExhausted);
            }
            return Ok(None);
        }
        let mut idle: Vec<usize> = Vec::new();
        let mut leased: Vec<usize> = Vec::new();
        std::mem::swap(&mut self.idle, &mut idle);
        std::mem::swap(&mut self.leased, &mut leased);
        let id = idle.pop().unwrap();
        leased.push(id);
        self.idle = idle;
        self.leased = leased;
        Ok(Some(id))
    }

    fn take_lease(&mut self, id: usize) -> (found: bool)
        ensures
            final(self).wf(),
            final(self)@.idle == old(self)@.idle,
            found == old(self)@.leased.contains(id),
            found ==> exists|i: int|
                removed_first(old(self)@.leased, id, i) && final(self)@.leased == old(
                    self,
                )@.leased.remove(i),
            !found ==> final(self)@ == old(self)@,
    {
        proof {
            use_type_invariant(&*self);
        }
        let mut i: usize = 0;
        while i < self.leased.len()
            invariant
                self@ == old(self)@,
                old(self).wf(),
                i <= self@.leased.len(),
                forall|j: int| 0 <= j < i ==> self@.leased[j] != id,
            decreases self@.leased.len() - i,
        {
            if self.leased[i] == id {
                let mut leased: Vec<usize> = Vec::new();
                std::mem::swap(&mut self.leased, &mut leased);
                leased.remove(i);
                assert(leased@.len() == old(self)@.leased.len() - 1);
                self.leased = leased;
                assert(removed_first(old(self)@.leased, id, i as int));
                return true;
            }
            i = i + 1;
        }
        false
    }

    /// Gives a leased credential back for reuse; `false`, and no change, when
    /// `id` is not leased.
    pub fn release(&mut self, id: usize) -> (done: bool)
        ensures
            final(self).wf(),
            done == old(self)@.leased.contains(id),
            done ==> final(self)@.idle == old(self)@.idle.push(id) && exists|i: int|
                removed_first(old(self)@.leased, id, i) && final(self)@.leased == old(
                    self,
                )@.leased.remove(i),
            !done ==> final(self)@ == old(self)@,
            pool_size(final(self)@) == pool_size(old(self)@),
    {
        proof {
            use_type_invariant(&*self);
        }
        if self.take_lease(id) {
            assert(self@.leased.len() == old(self)@.leased.len() - 1);
            let mut idle: Vec<usize> = Vec::new();
            std::mem::swap(&mut self.idle, &mut idle);
            idle.push(id);
            self.idle = idle;
            true
        } else {
            false
        }
    }

    /// Retires a leased credential for the rest of the run: the pool shrinks
    /// by one. `false`, and no change, when `id` is not leased.
    pub fn evict(&mut self, id: usize) -> (done: bool)
        ensures
            final(self).wf(),
            done == old(self)@.leased.contains(id),
            done ==> final(self)@.idle == old(self)@.idle && exists|i: int|
                removed_first(old(self)@.leased, id, i) && final(self)@.leased == old(
                    self,
                )@.leased.remove(i),
            !done ==> final(self)@ == old(self)@,
            done ==> pool_size(final(self)@) == pool_size(old(self)@) - 1,
    {
        self.take_lease(id)
    }

    /// Ends a lease after a page: retires the credential when its quota is
    /// nearly spent, gives it back otherwise.
    pub fn finish(&mut self, id: usize, nearly_spent: bool) -> (done: bool)
        ensures
            final(self).wf(),
            done == old(self)@.leased.contains(id),
            done && nearly_spent ==> pool_size(final(self)@) == pool_size(old(self)@) - 1
                && final(self)@.idle == old(self)@.idle,
            done && !nearly_spent ==> pool_size(final(self)@) == pool_size(old(self)@)
                && final(self)@.idle == old(self)@.idle.push(id),
            done ==> exists|i: int|
                removed_first(old(self)@.leased, id, i) && final(self)@.leased == old(
                    self,
                )@.leased.remove(i),
            !done ==> final(self)@ == old(self)@,
    {
        if nearly_spent {
            self.evict(id)
        } else {
            self.release(id)
        }
    }
}

} // verus!
