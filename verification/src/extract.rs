//! The event extractor: nick and URL detection on a line.
//!
//! The nick pattern and the URL pattern come from the configuration as
//! regular expressions, so the matching itself is done by the `regex` crate
//! behind trusted wrappers; everything downstream of the captures — the
//! `UNKNOWN` sentinel, the blacklist filter and the assembly of one event
//! per surviving URL — is verified against an exact specification.

use vstd::prelude::*;

use crate::db_util::{Storage, UrlCtx, UrlView};
use crate::mem_store::urls_view;
use crate::text::{starts_with_chars, str_views, to_char_vec};
use crate::writer::db_add_url;

verus! {

use vstd::string::StringExecFns;

/// Declares `regex::Regex`, the compiled pattern type, so that it can stand
/// in signatures and fields; its values stay opaque.
#[verifier::external_type_specification]
#[verifier::external_body]
pub struct ExRegex(regex::Regex);

/// Whether `regex::Regex::new` accepts a pattern: compilation succeeds or
/// fails on the pattern text alone.
pub uninterp spec fn pattern_ok(pattern: Seq<char>) -> bool;

/// Relies on `regex::Regex::new`: compiles the pattern, succeeding exactly
/// on the texts the crate accepts; an invalid pattern is a configuration
/// error surfaced as `None`.
#[verifier::external_body]
fn compile_pattern(pattern: &str) -> (r: Option<regex::Regex>)
    ensures
        r is Some <==> pattern_ok(pattern@),
{
    regex::Regex::new(pattern).ok()
}

/// Relies on `regex::Regex::captures`: the text of the first capture group
/// of the first match, which is always a substring of the line.
#[verifier::external_body]
pub(crate) fn capture_first(re: &regex::Regex, line: &str) -> (r: Option<String>)
    ensures
        r is Some ==> exists|i: int, j: int|
            0 <= i <= j <= line@.len() && r.unwrap()@ == #[trigger] line@.subrange(i, j),
{
    re.captures(line).and_then(|c| c.get(1)).map(|m| m.as_str().to_string())
}

/// Relies on `regex::Regex::captures_iter`: the text of the first capture
/// group of each non-overlapping match, in match order; a group that did not
/// participate in its match yields `None`.  Every captured text is a
/// substring of the line.
#[verifier::external_body]
fn capture_each(re: &regex::Regex, line: &str) -> (r: Vec<Option<String>>)
    ensures
        forall|k: int|
            0 <= k < r@.len() && r@[k] is Some ==> exists|i: int, j: int|
                0 <= i <= j <= line@.len() && r@[k].unwrap()@ == #[trigger] line@.subrange(i, j),
{
    re.captures_iter(line).map(|c| c.get(1).map(|m| m.as_str().to_string())).collect()
}

/// The compiled nick- and URL-extraction patterns, built once at startup and
/// passed into every function that needs them.
pub struct LinePatterns {
    re_nick: regex::Regex,
    re_url: regex::Regex,
}

impl LinePatterns {
    /// Compiles the two patterns: the pair exists exactly when both texts
    /// are valid patterns; an invalid one is a fatal configuration error
    /// for the caller to report.
    pub fn new(nick_pattern: &str, url_pattern: &str) -> (r: Option<LinePatterns>)
        ensures
            r is Some <==> pattern_ok(nick_pattern@) && pattern_ok(url_pattern@),
    {
        let re_nick = match compile_pattern(nick_pattern) {
            Some(re) => re,
            None => {
                return None;
            },
        };
        let re_url = match compile_pattern(url_pattern) {
            Some(re) => re,
            None => {
                return None;
            },
        };
        Some(LinePatterns { re_nick, re_url })
    }
}

/// The nick of a line: the captured name, or the `UNKNOWN` sentinel when the
/// pattern found none.
pub fn nick_or_unknown(cap: Option<String>) -> (r: String)
    ensures
        cap is Some ==> r@ == cap.unwrap()@,
        cap is None ==> r@ == "UNKNOWN"@,
{
    match cap {
        Some(n) => n,
        None => String::from_str("UNKNOWN"),
    }
}

/// A URL is blacklisted when it starts with any of the given prefixes.
pub open spec fn spec_blacklisted(url: Seq<char>, blacklist: Seq<Seq<char>>) -> bool {
    exists|k: int| 0 <= k < blacklist.len() && (#[trigger] blacklist[k]).is_prefix_of(url)
}

/// Tests the URL against the blacklist prefixes.
pub fn is_blacklisted(url: &String, blacklist: &Vec<String>) -> (r: bool)
    ensures
        r == spec_blacklisted(url@, str_views(blacklist@)),
{
    let u = to_char_vec(url.as_str());
    let mut k: usize = 0;
    while k < blacklist.len()
        invariant
            k <= blacklist@.len(),
            u@ == url@,
            forall|j: int|
                0 <= j < k ==> !(#[trigger] str_views(blacklist@)[j]).is_prefix_of(url@),
        decreases blacklist@.len() - k,
    {
        let b = to_char_vec(blacklist[k].as_str());
        if starts_with_chars(&u, &b) {
            assert(str_views(blacklist@)[k as int].is_prefix_of(url@));
            return true;
        }
        k = k + 1;
    }
    false
}

/// The events a line yields: one per captured URL that has a match for the
/// capture group and does not fall to the blacklist, each carrying the given
/// timestamp, channel and nick.
pub open spec fn spec_events(
    ts: i64,
    chan: Seq<char>,
    nick: Seq<char>,
    urls: Seq<Option<String>>,
    blacklist: Seq<Seq<char>>,
) -> Seq<UrlView>
    decreases urls.len(),
{
    if urls.len() == 0 {
        Seq::empty()
    } else {
        let rest = spec_events(ts, chan, nick, urls.drop_last(), blacklist);
        match urls.last() {
            None => rest,
            Some(u) => if spec_blacklisted(u@, blacklist) {
                rest
            } else {
                rest.push(UrlView { ts, chan, nick, url: u@ })
            },
        }
    }
}

/// Builds the events of one line from the captured URLs.
pub fn build_events(
    ts: i64,
    chan: &String,
    nick: &String,
    urls: &Vec<Option<String>>,
    blacklist: &Vec<String>,
) -> (r: Vec<UrlCtx>)
    ensures
        urls_view(r@) == spec_events(ts, chan@, nick@, urls@, str_views(blacklist@)),
{
    let mut r: Vec<UrlCtx> = Vec::new();
    let mut i: usize = 0;
    while i < urls.len()
        invariant
            i <= urls@.len(),
            urls_view(r@) == spec_events(ts, chan@, nick@, urls@.take(i as int), str_views(
                blacklist@,
            )),
        decreases urls@.len() - i,
    {
        let ghost prefix = urls@.take(i as int);
        proof {
            assert(urls@.take(i + 1).drop_last() =~= prefix);
            assert(urls@.take(i + 1).last() == urls@[i as int]);
        }
        match &urls[i] {
            Some(u) => {
                if !is_blacklisted(u, blacklist) {
                    let ev = UrlCtx {
                        ts,
                        chan: chan.clone(),
                        nick: nick.clone(),
                        url: u.clone(),
                    };
                    r.push(ev);
                    proof {
                        assert(urls_view(r@) =~= urls_view(r@.drop_last()).push(ev@));
                    }
                }
            },
            None => {},
        }
        i = i + 1;
    }
    proof {
        assert(urls@.take(urls@.len() as int) =~= urls@);
    }
    r
}

/// Extracts the events of one line: the nick capture (or `UNKNOWN`), then
/// one event per URL capture that survives the blacklist.  Whatever the
/// patterns matched, every event carries the given timestamp and channel
/// and the one nick of the line, its URL is a substring of the line, and
/// no blacklisted URL gets an event.
pub fn harvest_line(
    pats: &LinePatterns,
    ts: i64,
    chan: &String,
    line: &str,
    blacklist: &Vec<String>,
) -> (r: Vec<UrlCtx>)
    ensures
        forall|k: int|
            0 <= k < r@.len() ==> {
                &&& (#[trigger] r@[k])@.ts == ts
                &&& r@[k]@.chan == chan@
                &&& !spec_blacklisted(r@[k]@.url, str_views(blacklist@))
                &&& exists|i: int, j: int|
                    0 <= i <= j <= line@.len() && r@[k]@.url == #[trigger] line@.subrange(i, j)
            },
        forall|k: int, l: int|
            0 <= k < r@.len() && 0 <= l < r@.len() ==> (#[trigger] r@[k])@.nick == (
            #[trigger] r@[l])@.nick,
{
    let nick = nick_or_unknown(capture_first(&pats.re_nick, line));
    let urls = capture_each(&pats.re_url, line);
    let r = build_events(ts, chan, &nick, &urls, blacklist);
    proof {
        lemma_events_shape(ts, chan@, nick@, urls@, str_views(blacklist@), line@);
        let evs = spec_events(ts, chan@, nick@, urls@, str_views(blacklist@));
        assert forall|k: int| 0 <= k < r@.len() implies {
            &&& (#[trigger] r@[k])@.ts == ts
            &&& r@[k]@.chan == chan@
            &&& !spec_blacklisted(r@[k]@.url, str_views(blacklist@))
            &&& exists|i: int, j: int|
                0 <= i <= j <= line@.len() && r@[k]@.url == #[trigger] line@.subrange(i, j)
        } by {
            assert(urls_view(r@)[k] == r@[k]@);
            assert(evs[k] == urls_view(r@)[k]);
        }
        assert forall|k: int, l: int|
            0 <= k < r@.len() && 0 <= l < r@.len() implies (#[trigger] r@[k])@.nick == (
        #[trigger] r@[l])@.nick by {
            assert(evs[k] == urls_view(r@)[k] && evs[l] == urls_view(r@)[l]);
        }
    }
    r
}

/// Every event `spec_events` yields carries the given fields, its URL is one
/// of the captures, and no blacklisted URL survives.
proof fn lemma_events_shape(
    ts: i64,
    chan: Seq<char>,
    nick: Seq<char>,
    urls: Seq<Option<String>>,
    blacklist: Seq<Seq<char>>,
    line: Seq<char>,
)
    requires
        forall|k: int|
            0 <= k < urls.len() && urls[k] is Some ==> exists|i: int, j: int|
                0 <= i <= j <= line.len() && urls[k].unwrap()@ == #[trigger] line.subrange(i, j),
    ensures
        forall|k: int|
            0 <= k < spec_events(ts, chan, nick, urls, blacklist).len() ==> {
                let ev = #[trigger] spec_events(ts, chan, nick, urls, blacklist)[k];
                &&& ev.ts == ts
                &&& ev.chan == chan
                &&& ev.nick == nick
                &&& !spec_blacklisted(ev.url, blacklist)
                &&& exists|i: int, j: int|
                    0 <= i <= j <= line.len() && ev.url == #[trigger] line.subrange(i, j)
            },
    decreases urls.len(),
{
    if urls.len() > 0 {
        assert(forall|k: int|
            0 <= k < urls.len() - 1 ==> urls.drop_last()[k] == #[trigger] urls[k]);
        lemma_events_shape(ts, chan, nick, urls.drop_last(), blacklist, line);
        let evs = spec_events(ts, chan, nick, urls, blacklist);
        let rest = spec_events(ts, chan, nick, urls.drop_last(), blacklist);
        assert forall|k: int| 0 <= k < evs.len() implies {
            let ev = #[trigger] evs[k];
            &&& ev.ts == ts
            &&& ev.chan == chan
            &&& ev.nick == nick
            &&& !spec_blacklisted(ev.url, blacklist)
            &&& exists|i: int, j: int|
                0 <= i <= j <= line.len() && ev.url == #[trigger] line.subrange(i, j)
        } by {
            if k < rest.len() {
                assert(evs[k] == rest[k]);
            } else {
                assert(urls.last() is Some);
                assert(urls[urls.len() - 1] == urls.last());
            }
        }
    }
}

/// Handles one line as the live tail does: extracts its events and stores
/// each in a transaction of its own.  Every row stored becomes one new
/// singleton batch carrying the given timestamp and channel and a
/// non-blacklisted URL cut from the line, and the batches already committed
/// stay as they were.  With `notify` set, the change marker moves to `now`
/// exactly when at least one row went in; a line that yields no events, or
/// whose insertions are all dropped, leaves the store and the marker
/// unchanged.
pub fn handle_ircmsg<S: Storage>(
    db: &mut S,
    pats: &LinePatterns,
    blacklist: &Vec<String>,
    ts: i64,
    chan: &String,
    msg: &str,
    attempts: u32,
    notify: bool,
    now: i64,
) -> (n: u64)
    requires
        !old(db).in_tx(),
        attempts >= 1,
    ensures
        !final(db).in_tx(),
        final(db).metas() == old(db).metas(),
        final(db).committed().len() == old(db).committed().len() + n,
        final(db).committed().take(old(db).committed().len() as int) == old(db).committed(),
        n == 0 ==> final(db).committed() == old(db).committed(),
        forall|k: int|
            old(db).committed().len() <= k < final(db).committed().len() ==> {
                let b = #[trigger] final(db).committed()[k];
                &&& b.len() == 1
                &&& b[0].ts == ts
                &&& b[0].chan == chan@
                &&& !spec_blacklisted(b[0].url, str_views(blacklist@))
                &&& exists|i: int, j: int|
                    0 <= i <= j <= msg@.len() && b[0].url == #[trigger] msg@.subrange(i, j)
            },
        notify ==> final(db).marker() == (if n > 0 {
            now
        } else {
            old(db).marker()
        }),
        !notify ==> final(db).marker() == old(db).marker(),
{
    let events = harvest_line(pats, ts, chan, msg, blacklist);
    let ghost evs = events@;
    proof {
        assert forall|k: int| 0 <= k < events@.len() implies {
            &&& (#[trigger] events@[k])@.ts == ts
            &&& events@[k]@.chan == chan@
            &&& !spec_blacklisted(events@[k]@.url, str_views(blacklist@))
            &&& exists|a2: int, b2: int|
                0 <= a2 <= b2 <= msg@.len() && events@[k]@.url == #[trigger] msg@.subrange(
                    a2,
                    b2,
                )
        } by {
            assert((events@[k])@.ts == ts);
            let (a2, b2) = choose|a2: int, b2: int|
                0 <= a2 <= b2 <= msg@.len() && events@[k]@.url == #[trigger] msg@.subrange(
                    a2,
                    b2,
                );
            assert(0 <= a2 <= b2 <= msg@.len() && events@[k]@.url == msg@.subrange(a2, b2));
        }
    }
    let mut n: u64 = 0;
    let mut i: usize = 0;
    while i < events.len()
        invariant
            !db.in_tx(),
            attempts >= 1,
            events@ == evs,
            db.metas() == old(db).metas(),
            n <= i <= events@.len(),
            db.committed().len() == old(db).committed().len() + n,
            db.committed().take(old(db).committed().len() as int) == old(db).committed(),
            forall|k: int|
                old(db).committed().len() <= k < db.committed().len() ==> {
                    let b = #[trigger] db.committed()[k];
                    &&& b.len() == 1
                    &&& b[0].ts == ts
                    &&& b[0].chan == chan@
                    &&& !spec_blacklisted(b[0].url, str_views(blacklist@))
                    &&& exists|a2: int, b2: int|
                        0 <= a2 <= b2 <= msg@.len() && b[0].url == #[trigger] msg@.subrange(
                            a2,
                            b2,
                        )
                },
            notify ==> db.marker() == (if n > 0 {
                now
            } else {
                old(db).marker()
            }),
            !notify ==> db.marker() == old(db).marker(),
            forall|k: int|
                0 <= k < events@.len() ==> {
                    &&& (#[trigger] events@[k])@.ts == ts
                    &&& events@[k]@.chan == chan@
                    &&& !spec_blacklisted(events@[k]@.url, str_views(blacklist@))
                    &&& exists|a2: int, b2: int|
                        0 <= a2 <= b2 <= msg@.len() && events@[k]@.url == #[trigger] msg@.subrange(
                            a2,
                            b2,
                        )
                },
        decreases events@.len() - i,
    {
        let ghost before = db.committed();
        let ghost c0len = old(db).committed().len() as int;
        let rows = db_add_url(db, &events[i], attempts, notify, now);
        proof {
            if rows == 1 {
                assert(db.committed() == before.push(seq![evs[i as int]@]));
                assert forall|k: int| c0len <= k < db.committed().len() implies {
                    let b = #[trigger] db.committed()[k];
                    &&& b.len() == 1
                    &&& b[0].ts == ts
                    &&& b[0].chan == chan@
                    &&& !spec_blacklisted(b[0].url, str_views(blacklist@))
                    &&& exists|a2: int, b2: int|
                        0 <= a2 <= b2 <= msg@.len() && b[0].url == #[trigger] msg@.subrange(
                            a2,
                            b2,
                        )
                } by {
                    if k < before.len() {
                        assert(db.committed()[k] == before[k]);
                    } else {
                        assert(db.committed()[k] == seq![evs[i as int]@]);
                        assert(seq![evs[i as int]@][0] == evs[i as int]@);
                    }
                }
                assert(db.committed().take(c0len) =~= before.take(c0len));
            }
        }
        if rows > 0 {
            n = n + 1;
        }
        i = i + 1;
    }
    proof {
        if n == 0 {
            assert(db.committed() =~= old(db).committed());
        }
    }
    n
}

} // verus!
