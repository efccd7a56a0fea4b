//! The storage-backend interface and the write paths built on it.
//!
//! The ingestion core is parameterized by a small capability set — begin a
//! transaction, insert a row, commit, read the change marker, write it —
//! so that one pipeline serves any backend.  The model tracks committed
//! URL batches, the rows pending in the open transaction, the meta rows,
//! the change marker, and the burst of consecutive insert failures the
//! backend will still produce, which is what the bounded retry policy runs
//! against.

use vstd::prelude::*;

verus! {

/// One detected URL occurrence: when it was seen, on which channel, said by
/// whom, and the URL itself.  Rows are never deduplicated; the same URL may
/// be recorded many times.
#[derive(Debug, PartialEq, Eq)]
pub struct UrlCtx {
    pub ts: i64,
    pub chan: String,
    pub nick: String,
    pub url: String,
}

/// The mathematical image of a [`UrlCtx`].
#[verifier::ext_equal]
pub ghost struct UrlView {
    pub ts: i64,
    pub chan: Seq<char>,
    pub nick: Seq<char>,
    pub url: Seq<char>,
}

impl View for UrlCtx {
    type V = UrlView;

    open spec fn view(&self) -> UrlView {
        UrlView { ts: self.ts, chan: self.chan@, nick: self.nick@, url: self.url@ }
    }
}

impl Clone for UrlCtx {
    fn clone(&self) -> (res: Self)
        ensures
            res == *self,
    {
        UrlCtx {
            ts: self.ts,
            chan: self.chan.clone(),
            nick: self.nick.clone(),
            url: self.url.clone(),
        }
    }
}

/// One metadata row for a stored URL.
#[derive(Debug, PartialEq, Eq)]
pub struct MetaCtx {
    pub url_id: i32,
    pub lang: String,
    pub title: String,
    pub descr: String,
}

/// The mathematical image of a [`MetaCtx`].
#[verifier::ext_equal]
pub ghost struct MetaView {
    pub url_id: i32,
    pub lang: Seq<char>,
    pub title: Seq<char>,
    pub descr: Seq<char>,
}

impl View for MetaCtx {
    type V = MetaView;

    open spec fn view(&self) -> MetaView {
        MetaView {
            url_id: self.url_id,
            lang: self.lang@,
            title: self.title@,
            descr: self.descr@,
        }
    }
}

impl Clone for MetaCtx {
    fn clone(&self) -> (res: Self)
        ensures
            res == *self,
    {
        MetaCtx {
            url_id: self.url_id,
            lang: self.lang.clone(),
            title: self.title.clone(),
            descr: self.descr.clone(),
        }
    }
}

/// A failed write: the backend could not store the row this time.
#[derive(Debug, Clone, Copy, PartialEq, Eq, Structural)]
pub struct StoreError;

/// No two meta rows name the same URL: the 1:1 link from a URL row to its
/// metadata.
pub open spec fn spec_unique_meta_ids(ms: Seq<MetaView>) -> bool {
    forall|i: int, j: int| 0 <= i < j < ms.len() ==> ms[i].url_id != ms[j].url_id
}

/// A meta table with unique ids stays unique when a row with a fresh id is
/// added — the shape every successful [`Storage::insert_meta`] preserves.
pub proof fn lemma_meta_unique_preserved(ms: Seq<MetaView>, m: MetaView)
    requires
        spec_unique_meta_ids(ms),
        forall|k: int| 0 <= k < ms.len() ==> (#[trigger] ms[k]).url_id != m.url_id,
    ensures
        spec_unique_meta_ids(ms.push(m)),
{
    let pushed = ms.push(m);
    assert forall|i: int, j: int| 0 <= i < j < pushed.len() implies pushed[i].url_id
        != pushed[j].url_id by {
        if j < ms.len() {
            assert(pushed[i] == ms[i] && pushed[j] == ms[j]);
        } else {
            assert(pushed[i] == ms[i] && pushed[j] == m);
        }
    }
}

/// The capability a storage backend offers the pipeline.
///
/// `committed()` is the history of committed transactions, each a batch of
/// URL rows in insertion order; `pending()` holds the rows of the open
/// transaction.  `failures_ahead()` models transient contention as one
/// burst: the number of consecutive URL-row insertions that will still fail
/// before one succeeds.  A success ends the burst, so the whole outcome of
/// a run is fixed by the count at its start.  A backend free of contention
/// keeps it at zero.
pub trait Storage: Sized {
    open spec fn committed(&self) -> Seq<Seq<UrlView>> {
        Seq::empty()
    }

    open spec fn pending(&self) -> Seq<UrlView> {
        Seq::empty()
    }

    open spec fn in_tx(&self) -> bool {
        false
    }

    open spec fn metas(&self) -> Seq<MetaView> {
        Seq::empty()
    }

    open spec fn marker(&self) -> i64 {
        0
    }

    open spec fn failures_ahead(&self) -> nat {
        0
    }

    /// Opens a transaction.
    fn begin(&mut self)
        requires
            !old(self).in_tx(),
        ensures
            final(self).in_tx(),
            final(self).pending().len() == 0,
            final(self).committed() == old(self).committed(),
            final(self).metas() == old(self).metas(),
            final(self).marker() == old(self).marker(),
            final(self).failures_ahead() == old(self).failures_ahead(),
    ;

    /// Inserts one URL row into the open transaction.  The insertion fails
    /// exactly as long as transient failures are still ahead.
    fn insert_url(&mut self, ur: &UrlCtx) -> (r: Result<(), StoreError>)
        requires
            old(self).in_tx(),
        ensures
            final(self).in_tx(),
            final(self).committed() == old(self).committed(),
            final(self).metas() == old(self).metas(),
            final(self).marker() == old(self).marker(),
            r is Ok <==> old(self).failures_ahead() == 0,
            r is Ok ==> final(self).failures_ahead() == 0,
            r is Ok ==> final(self).pending() == old(self).pending().push(ur@),
            r is Err ==> final(self).pending() == old(self).pending(),
            r is Err ==> final(self).failures_ahead() + 1 == old(self).failures_ahead(),
    ;

    /// Closes the transaction.  A transaction with rows becomes one more
    /// committed batch; an empty one leaves no trace.
    fn commit(&mut self)
        requires
            old(self).in_tx(),
        ensures
            !final(self).in_tx(),
            final(self).pending().len() == 0,
            final(self).committed() == if old(self).pending().len() == 0 {
                old(self).committed()
            } else {
                old(self).committed().push(old(self).pending())
            },
            final(self).metas() == old(self).metas(),
            final(self).marker() == old(self).marker(),
            final(self).failures_ahead() == old(self).failures_ahead(),
    ;

    /// Inserts one metadata row.  A URL keeps at most one: the insertion
    /// can succeed only when no stored row carries the same `url_id`.
    fn insert_meta(&mut self, m: &MetaCtx) -> (r: Result<(), StoreError>)
        ensures
            final(self).in_tx() == old(self).in_tx(),
            final(self).committed() == old(self).committed(),
            final(self).pending() == old(self).pending(),
            final(self).marker() == old(self).marker(),
            final(self).failures_ahead() == old(self).failures_ahead(),
            r is Ok ==> final(self).metas() == old(self).metas().push(m@),
            r is Ok ==> forall|k: int|
                0 <= k < old(self).metas().len() ==> (#[trigger] old(self).metas()[k]).url_id
                    != m.url_id,
            r is Err ==> final(self).metas() == old(self).metas(),
    ;

    /// Reads the change marker.
    fn read_marker(&self) -> (r: i64)
        ensures
            r == self.marker(),
    ;

    /// Sets the change marker.
    fn write_marker(&mut self, now: i64)
        ensures
            final(self).marker() == now,
            final(self).in_tx() == old(self).in_tx(),
            final(self).committed() == old(self).committed(),
            final(self).pending() == old(self).pending(),
            final(self).metas() == old(self).metas(),
            final(self).failures_ahead() == old(self).failures_ahead(),
    ;

    /// Waits out the fixed retry interval.  Backends that talk to a shared
    /// store sleep here; in-memory ones return at once.
    fn delay(&self);
}

} // verus!
