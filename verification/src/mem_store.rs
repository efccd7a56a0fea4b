//! In-memory storage backends.
//!
//! [`MemStorage`] keeps everything in vectors and never fails; it is the
//! reference implementation of the [`Storage`] contract and what the tests
//! inspect.  [`FlakyStorage`] fails a chosen number of URL insertions before
//! behaving, which exercises the bounded retry policy.

use vstd::prelude::*;

use crate::db_util::{MetaCtx, MetaView, Storage, StoreError, UrlCtx, UrlView};

verus! {

/// The views of a sequence of URL rows.
pub open spec fn urls_view(v: Seq<UrlCtx>) -> Seq<UrlView> {
    v.map_values(|u: UrlCtx| u@)
}

/// The views of a sequence of committed batches.
pub open spec fn batches_view(v: Seq<Vec<UrlCtx>>) -> Seq<Seq<UrlView>> {
    v.map_values(|b: Vec<UrlCtx>| urls_view(b@))
}

/// The views of a sequence of meta rows.
pub open spec fn metas_view(v: Seq<MetaCtx>) -> Seq<MetaView> {
    v.map_values(|m: MetaCtx| m@)
}

/// A backend holding all rows in memory; every insertion succeeds.
pub struct MemStorage {
    batches: Vec<Vec<UrlCtx>>,
    tx_rows: Vec<UrlCtx>,
    tx_open: bool,
    meta_rows: Vec<MetaCtx>,
    change_marker: i64,
}

impl MemStorage {
    /// An empty store with the change marker at zero.
    pub fn new() -> (r: MemStorage)
        ensures
            !r.in_tx(),
            r.committed().len() == 0,
            r.metas().len() == 0,
            r.marker() == 0,
            r.failures_ahead() == 0,
    {
        MemStorage {
            batches: Vec::new(),
            tx_rows: Vec::new(),
            tx_open: false,
            meta_rows: Vec::new(),
            change_marker: 0,
        }
    }

    /// The committed batches, for inspection.
    pub fn committed_batches(&self) -> (r: &Vec<Vec<UrlCtx>>)
        ensures
            batches_view(r@) == self.committed(),
    {
        &self.batches
    }

    /// The stored meta rows, for inspection.
    pub fn meta_records(&self) -> (r: &Vec<MetaCtx>)
        ensures
            metas_view(r@) == self.metas(),
    {
        &self.meta_rows
    }
}

impl Storage for MemStorage {
    closed spec fn committed(&self) -> Seq<Seq<UrlView>> {
        batches_view(self.batches@)
    }

    closed spec fn pending(&self) -> Seq<UrlView> {
        urls_view(self.tx_rows@)
    }

    closed spec fn in_tx(&self) -> bool {
        self.tx_open
    }

    closed spec fn metas(&self) -> Seq<MetaView> {
        metas_view(self.meta_rows@)
    }

    closed spec fn marker(&self) -> i64 {
        self.change_marker
    }

    closed spec fn failures_ahead(&self) -> nat {
        0
    }

    fn begin(&mut self) {
        self.tx_open = true;
        self.tx_rows = Vec::new();
        proof {
            assert(final(self).pending() =~= Seq::<UrlView>::empty());
        }
    }

    fn insert_url(&mut self, ur: &UrlCtx) -> (r: Result<(), StoreError>) {
        self.tx_rows.push(ur.clone());
        proof {
            assert(final(self).pending() =~= old(self).pending().push(ur@));
        }
        Ok(())
    }

    fn commit(&mut self) {
        self.tx_open = false;
        if self.tx_rows.len() > 0 {
            let mut rows: Vec<UrlCtx> = Vec::new();
            core::mem::swap(&mut rows, &mut self.tx_rows);
            self.batches.push(rows);
            proof {
                assert(final(self).committed() =~= old(self).committed().push(
                    old(self).pending(),
                ));
                assert(final(self).pending() =~= Seq::<UrlView>::empty());
            }
        }
    }

    fn insert_meta(&mut self, m: &MetaCtx) -> (r: Result<(), StoreError>) {
        let mut k: usize = 0;
        while k < self.meta_rows.len()
            invariant
                k <= self.meta_rows@.len(),
                forall|j: int|
                    0 <= j < k ==> (#[trigger] self.meta_rows@[j])@.url_id != m.url_id,
            decreases self.meta_rows@.len() - k,
        {
            if self.meta_rows[k].url_id == m.url_id {
                return Err(StoreError);
            }
            k = k + 1;
        }
        proof {
            assert(forall|j: int|
                0 <= j < self.metas().len() ==> (#[trigger] self.metas()[j]).url_id
                    != m.url_id);
        }
        self.meta_rows.push(m.clone());
        proof {
            assert(final(self).metas() =~= old(self).metas().push(m@));
        }
        Ok(())
    }

    fn read_marker(&self) -> (r: i64) {
        self.change_marker
    }

    fn write_marker(&mut self, now: i64) {
        self.change_marker = now;
    }

    fn delay(&self) {
    }
}

/// A backend that fails the next `fails_left` URL insertions, then behaves
/// like [`MemStorage`].
pub struct FlakyStorage {
    store: MemStorage,
    fails_left: u32,
}

impl FlakyStorage {
    /// An empty store whose next `failures` URL insertions will fail.
    pub fn new(failures: u32) -> (r: FlakyStorage)
        ensures
            !r.in_tx(),
            r.committed().len() == 0,
            r.metas().len() == 0,
            r.marker() == 0,
            r.failures_ahead() == failures,
    {
        FlakyStorage { store: MemStorage::new(), fails_left: failures }
    }

    /// The committed batches, for inspection.
    pub fn committed_batches(&self) -> (r: &Vec<Vec<UrlCtx>>)
        ensures
            batches_view(r@) == self.committed(),
    {
        self.store.committed_batches()
    }
}

impl Storage for FlakyStorage {
    closed spec fn committed(&self) -> Seq<Seq<UrlView>> {
        self.store.committed()
    }

    closed spec fn pending(&self) -> Seq<UrlView> {
        self.store.pending()
    }

    closed spec fn in_tx(&self) -> bool {
        self.store.in_tx()
    }

    closed spec fn metas(&self) -> Seq<MetaView> {
        self.store.metas()
    }

    closed spec fn marker(&self) -> i64 {
        self.store.marker()
    }

    closed spec fn failures_ahead(&self) -> nat {
        self.fails_left as nat
    }

    fn begin(&mut self) {
        self.store.begin();
    }

    fn insert_url(&mut self, ur: &UrlCtx) -> (r: Result<(), StoreError>) {
        if self.fails_left > 0 {
            self.fails_left = self.fails_left - 1;
            Err(StoreError)
        } else {
            self.store.insert_url(ur)
        }
    }

    fn commit(&mut self) {
        self.store.commit();
    }

    fn insert_meta(&mut self, m: &MetaCtx) -> (r: Result<(), StoreError>) {
        self.store.insert_meta(m)
    }

    fn read_marker(&self) -> (r: i64) {
        self.store.read_marker()
    }

    fn write_marker(&mut self, now: i64) {
        self.store.write_marker(now)
    }

    fn delay(&self) {
    }
}

} // verus!
