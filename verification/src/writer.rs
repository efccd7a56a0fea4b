//! The batched transactional writer and the bounded retry policy.
//!
//! Historical replay groups URL rows into transactions of a bounded size:
//! a commit closes every full batch, and one more closes whatever remains at
//! end of file.  Each insertion is retried a bounded number of times with a
//! backend delay in between; an event that exhausts its attempts is dropped
//! and processing continues with the next one.

use vstd::prelude::*;

use crate::db_util::{MetaCtx, Storage, StoreError, UrlCtx, UrlView};
use crate::mem_store::urls_view;

verus! {

/// The partition of `s` into consecutive runs of `n` rows, in order, the
/// last run possibly shorter.
pub open spec fn spec_chunks(s: Seq<UrlView>, n: nat) -> Seq<Seq<UrlView>>
    decreases s.len(),
    when n >= 1
{
    if s.len() == 0 {
        Seq::empty()
    } else if s.len() <= n {
        seq![s]
    } else {
        seq![s.take(n as int)] + spec_chunks(s.skip(n as int), n)
    }
}

/// How many of the next `n_events` events are lost to a burst of transient
/// failures: while at least `attempts` failures remain, one event exhausts
/// its attempts and is dropped, consuming them; the first event that meets
/// a shorter remainder succeeds and ends the burst.
pub open spec fn spec_dropped(failures: nat, attempts: nat, n_events: nat) -> nat
    decreases n_events,
    when attempts >= 1
{
    if n_events == 0 {
        0
    } else if failures >= attempts {
        1 + spec_dropped((failures - attempts) as nat, attempts, (n_events - 1) as nat)
    } else {
        0
    }
}

/// Splitting off whole batches from the front distributes over chunking.
proof fn lemma_chunks_concat(a: Seq<UrlView>, b: Seq<UrlView>, n: nat)
    requires
        n >= 1,
        a.len() as int % (n as int) == 0,
    ensures
        spec_chunks(a + b, n) == spec_chunks(a, n) + spec_chunks(b, n),
    decreases a.len(),
{
    if a.len() == 0 {
        assert(a + b =~= b);
        assert(spec_chunks(a, n) + spec_chunks(b, n) =~= spec_chunks(b, n));
    } else {
        assert(a.len() >= n) by {
            if a.len() < n {
                vstd::arithmetic::div_mod::lemma_small_mod(a.len(), n);
            }
        };
        let rest = a.skip(n as int);
        assert(rest.len() as int % (n as int) == 0) by {
            assert(a.len() == rest.len() + n);
            assert(((n as int) + rest.len() as int) % (n as int) == rest.len() as int % (
            n as int)) by {
                vstd::arithmetic::div_mod::lemma_mod_add_multiples_vanish(
                    rest.len() as int,
                    n as int,
                );
            };
        };
        lemma_chunks_concat(rest, b, n);
        if a.len() == n && b.len() == 0 {
            assert(a + b =~= a);
            assert(spec_chunks(a, n) + spec_chunks(b, n) =~= spec_chunks(a, n));
        } else {
            assert((a + b).len() > n);
            assert((a + b).take(n as int) =~= a.take(n as int));
            assert((a + b).skip(n as int) =~= rest + b);
            if a.len() == n {
                assert(a.take(n as int) =~= a);
                assert(rest =~= Seq::<UrlView>::empty());
                assert(spec_chunks(a, n) =~= seq![a]);
            }
            assert(spec_chunks(a + b, n) =~= spec_chunks(a, n) + spec_chunks(b, n));
        }
    }
}

/// Batching loses no row and keeps their order: the concatenation of the
/// chunks is the original sequence.
pub proof fn lemma_chunks_flatten(s: Seq<UrlView>, n: nat)
    requires
        n >= 1,
    ensures
        spec_chunks(s, n).flatten() == s,
    decreases s.len(),
{
    if s.len() == 0 {
        assert(spec_chunks(s, n).flatten() =~= s);
    } else if s.len() <= n {
        assert(seq![s].flatten() =~= s) by {
            seq![s].lemma_flatten_one_element();
        };
    } else {
        lemma_chunks_flatten(s.skip(n as int), n);
        let head = seq![s.take(n as int)];
        let tail = spec_chunks(s.skip(n as int), n);
        vstd::seq_lib::lemma_flatten_concat(head, tail);
        assert(head.flatten() =~= s.take(n as int)) by {
            head.lemma_flatten_one_element();
        };
        assert(s.take(n as int) + s.skip(n as int) =~= s);
    }
}

/// Inserts one URL row, retrying up to `attempts` times with a delay after
/// each failure.  The row is stored exactly once when the transient failures
/// still ahead number fewer than the permitted attempts; otherwise it is
/// dropped, the store is left as it was, and exactly `attempts` failures
/// were consumed.
pub fn insert_with_retry<S: Storage>(db: &mut S, ur: &UrlCtx, attempts: u32) -> (ok: bool)
    requires
        old(db).in_tx(),
        attempts >= 1,
    ensures
        final(db).in_tx(),
        final(db).committed() == old(db).committed(),
        final(db).metas() == old(db).metas(),
        final(db).marker() == old(db).marker(),
        ok <==> old(db).failures_ahead() < attempts,
        ok ==> final(db).pending() == old(db).pending().push(ur@),
        ok ==> final(db).failures_ahead() == 0,
        !ok ==> final(db).pending() == old(db).pending(),
        !ok ==> final(db).failures_ahead() + attempts == old(db).failures_ahead(),
{
    let mut i: u32 = 0;
    while i < attempts
        invariant
            db.in_tx(),
            db.committed() == old(db).committed(),
            db.metas() == old(db).metas(),
            db.marker() == old(db).marker(),
            db.pending() == old(db).pending(),
            i <= attempts,
            db.failures_ahead() + i == old(db).failures_ahead(),
        decreases attempts - i,
    {
        match db.insert_url(ur) {
            Ok(_) => {
                return true;
            },
            Err(_) => {
                db.delay();
            },
        }
        i = i + 1;
    }
    false
}

/// Reads the change marker; two reads with no intervening write return the
/// same value.
pub fn db_last_change<S: Storage>(db: &S) -> (r: i64)
    ensures
        r == db.marker(),
{
    db.read_marker()
}

/// Sets the change marker to the caller's current wall-clock time.
pub fn db_mark_change<S: Storage>(db: &mut S, now: i64)
    ensures
        final(db).marker() == now,
        old(db).marker() < now ==> old(db).marker() < final(db).marker(),
        final(db).in_tx() == old(db).in_tx(),
        final(db).committed() == old(db).committed(),
        final(db).pending() == old(db).pending(),
        final(db).metas() == old(db).metas(),
        final(db).failures_ahead() == old(db).failures_ahead(),
{
    db.write_marker(now);
}

/// Stores one URL row in a transaction of its own, as the live tail does.
/// When `notify` is set, the change marker moves to `now` after the
/// successful write — and only then: a dropped event leaves the marker
/// where it was.  Returns the number of rows stored.
pub fn db_add_url<S: Storage>(
    db: &mut S,
    ur: &UrlCtx,
    attempts: u32,
    notify: bool,
    now: i64,
) -> (rows: u64)
    requires
        !old(db).in_tx(),
        attempts >= 1,
    ensures
        !final(db).in_tx(),
        final(db).metas() == old(db).metas(),
        rows == 1 <==> old(db).failures_ahead() < attempts,
        rows == 1 ==> final(db).committed() == old(db).committed().push(seq![ur@]),
        rows == 0 ==> final(db).committed() == old(db).committed(),
        rows <= 1,
        notify && rows == 1 ==> final(db).marker() == now,
        !(notify && rows == 1) ==> final(db).marker() == old(db).marker(),
        notify && rows == 1 && old(db).marker() < now ==> old(db).marker() < final(db).marker(),
        rows == 1 ==> final(db).failures_ahead() == 0,
{
    db.begin();
    let ok = insert_with_retry(db, ur, attempts);
    proof {
        if ok {
            assert(db.pending() =~= Seq::<UrlView>::empty().push(ur@));
            assert(db.pending() =~= seq![ur@]);
        }
    }
    db.commit();
    if notify && ok {
        db_mark_change(db, now);
    }
    if ok {
        1
    } else {
        0
    }
}

/// Stores one metadata row; the backend takes it only when the URL has no
/// row yet, keeping metadata 1:1 with URLs.  When `notify` is set and the
/// row went in, the change marker moves to `now`.  Returns the number of
/// rows stored.
pub fn db_add_meta<S: Storage>(db: &mut S, m: &MetaCtx, notify: bool, now: i64) -> (r: Result<
    u64,
    StoreError,
>)
    ensures
        final(db).in_tx() == old(db).in_tx(),
        final(db).committed() == old(db).committed(),
        final(db).pending() == old(db).pending(),
        r is Ok ==> final(db).metas() == old(db).metas().push(m@) && r.unwrap() == 1,
        r is Ok ==> forall|k: int|
            0 <= k < old(db).metas().len() ==> (#[trigger] old(db).metas()[k]).url_id
                != m.url_id,
        r is Err ==> final(db).metas() == old(db).metas(),
        r is Ok && notify ==> final(db).marker() == now,
        r is Ok && notify && old(db).marker() < now ==> old(db).marker() < final(db).marker(),
        !(r is Ok && notify) ==> final(db).marker() == old(db).marker(),
{
    match db.insert_meta(m) {
        Ok(_) => {
            if notify {
                db_mark_change(db, now);
            }
            Ok(1)
        },
        Err(e) => Err(e),
    }
}

/// Replays a batch of events inside bounded transactions: a commit closes
/// every `batch_size`-th stored row, and one more closes what remains.
///
/// The failure burst of the backend drops the first `spec_dropped(..)`
/// events, each of which exhausts its attempts; every event after them is
/// stored exactly once, in order, and the new committed batches are exactly
/// those rows cut into runs of `batch_size`.  With no failures ahead, every
/// event is stored.
pub fn replay_batch<S: Storage>(
    db: &mut S,
    events: &Vec<UrlCtx>,
    batch_size: usize,
    attempts: u32,
) -> (n: usize)
    requires
        !old(db).in_tx(),
        batch_size >= 1,
        attempts >= 1,
    ensures
        !final(db).in_tx(),
        final(db).metas() == old(db).metas(),
        final(db).marker() == old(db).marker(),
        ({
            let dropped = spec_dropped(
                old(db).failures_ahead(),
                attempts as nat,
                events@.len(),
            );
            &&& n + dropped == events@.len()
            &&& final(db).committed() == old(db).committed() + spec_chunks(
                urls_view(events@).skip(dropped as int),
                batch_size as nat,
            )
        }),
        old(db).failures_ahead() == 0 ==> n == events@.len() && final(db).committed() == old(
            db,
        ).committed() + spec_chunks(urls_view(events@), batch_size as nat),
{
    let ghost f0 = old(db).failures_ahead();
    let ghost a = attempts as nat;
    let ghost full: Seq<UrlView> = Seq::empty();
    let ghost part: Seq<UrlView> = Seq::empty();
    let ghost d: int = 0;
    let mut stored: usize = 0;
    let mut in_batch: usize = 0;
    let mut i: usize = 0;
    db.begin();
    proof {
        assert(db.pending() =~= part);
        assert(db.committed() =~= old(db).committed() + spec_chunks(full, batch_size as nat));
        assert(full + part =~= urls_view(events@).subrange(0, 0));
    }
    while i < events.len()
        invariant
            db.in_tx(),
            db.metas() == old(db).metas(),
            db.marker() == old(db).marker(),
            batch_size >= 1,
            attempts >= 1,
            a == attempts as nat,
            f0 == old(db).failures_ahead(),
            i <= events@.len(),
            0 <= d <= i,
            stored == i - d,
            stored == full.len() + part.len(),
            in_batch == part.len(),
            in_batch < batch_size,
            full.len() as int % (batch_size as int) == 0,
            db.pending() == part,
            db.committed() == old(db).committed() + spec_chunks(full, batch_size as nat),
            full + part == urls_view(events@).subrange(d, i as int),
            d < i ==> db.failures_ahead() == 0,
            spec_dropped(f0, a, events@.len()) == d + spec_dropped(
                db.failures_ahead(),
                a,
                (events@.len() - i) as nat,
            ),
        decreases events@.len() - i,
    {
        let ev = &events[i];
        let ghost fa_here = db.failures_ahead();
        let ghost remaining = (events@.len() - i) as nat;
        let ok = insert_with_retry(db, ev, attempts);
        if ok {
            proof {
                assert(fa_here < a);
                assert(spec_dropped(fa_here, a, remaining) == 0);
                assert(spec_dropped(db.failures_ahead(), a, (remaining - 1) as nat) == 0);
                let grown = part.push(ev@);
                assert(urls_view(events@)[i as int] == ev@);
                assert(urls_view(events@).subrange(d, i + 1) =~= urls_view(events@).subrange(
                    d,
                    i as int,
                ).push(ev@));
                assert(full + grown =~= (full + part).push(ev@));
                part = grown;
            }
            stored = stored + 1;
            in_batch = in_batch + 1;
            if in_batch >= batch_size {
                db.commit();
                db.begin();
                proof {
                    lemma_chunks_concat(full, part, batch_size as nat);
                    assert(spec_chunks(part, batch_size as nat) =~= seq![part]);
                    assert(old(db).committed() + spec_chunks(full, batch_size as nat) + seq![part]
                        =~= old(db).committed() + spec_chunks(full + part, batch_size as nat));
                    assert((full + part).len() as int % (batch_size as int) == 0) by {
                        vstd::arithmetic::div_mod::lemma_mod_add_multiples_vanish(
                            full.len() as int,
                            batch_size as int,
                        );
                        assert((full + part).len() == full.len() + batch_size);
                    };
                    full = full + part;
                    part = Seq::empty();
                    assert(db.pending() =~= part);
                }
                in_batch = 0;
            }
        } else {
            proof {
                assert(d == i);
                assert(fa_here >= a);
                assert(spec_dropped(fa_here, a, remaining) == 1 + spec_dropped(
                    (fa_here - a) as nat,
                    a,
                    (remaining - 1) as nat,
                ));
                assert(db.failures_ahead() == (fa_here - a) as nat);
                d = d + 1;
                assert(full + part =~= urls_view(events@).subrange(d, i + 1));
            }
        }
        i = i + 1;
    }
    db.commit();
    proof {
        assert(spec_dropped(db.failures_ahead(), a, 0) == 0);
        assert(spec_dropped(f0, a, events@.len()) == d);
        lemma_chunks_concat(full, part, batch_size as nat);
        if part.len() == 0 {
            assert(full + part =~= full);
            assert(spec_chunks(part, batch_size as nat) =~= Seq::<Seq<UrlView>>::empty());
            assert(db.committed() =~= old(db).committed() + spec_chunks(
                full + part,
                batch_size as nat,
            ));
        } else {
            assert(spec_chunks(part, batch_size as nat) =~= seq![part]);
            assert(db.committed() =~= old(db).committed() + spec_chunks(
                full + part,
                batch_size as nat,
            ));
        }
        assert(urls_view(events@).subrange(d, events@.len() as int) =~= urls_view(
            events@,
        ).skip(d));
        if f0 == 0 {
            assert(spec_dropped(f0, a, events@.len()) == 0);
            assert(urls_view(events@).skip(0) =~= urls_view(events@));
        }
    }
    stored
}

} // verus!
