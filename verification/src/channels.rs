//! The channel directory mapper.
//!
//! At startup the log directory is scanned once; each file name is matched
//! against a configured pattern whose one capture group names the channel.
//! Matching files enter the name-to-channel table, the others are never
//! tailed.  A name the table does not know maps to the `UNKNOWN` sentinel.

use vstd::prelude::*;

use crate::extract::capture_first;

verus! {

use vstd::string::StringExecFns;

/// The table from bare file names to channel names, in scan order.
pub struct ChannelMap {
    pub pairs: Vec<(String, String)>,
}

/// The channel of `name` under the table: the value of its first entry, or
/// `UNKNOWN` when no entry carries the name.
pub open spec fn spec_channel_lookup(pairs: Seq<(String, String)>, name: Seq<char>) -> Seq<char>
    decreases pairs.len(),
{
    if pairs.len() == 0 {
        "UNKNOWN"@
    } else if pairs[0].0@ == name {
        pairs[0].1@
    } else {
        spec_channel_lookup(pairs.drop_first(), name)
    }
}

/// The entries whose file name matched, keeping scan order.
pub open spec fn spec_matched(entries: Seq<(String, Option<String>)>) -> Seq<(String, String)>
    decreases entries.len(),
{
    if entries.len() == 0 {
        Seq::empty()
    } else {
        let rest = spec_matched(entries.drop_last());
        match entries.last().1 {
            None => rest,
            Some(chan) => rest.push((entries.last().0, chan)),
        }
    }
}

proof fn lemma_matched_len(entries: Seq<(String, Option<String>)>)
    ensures
        spec_matched(entries).len() <= entries.len(),
    decreases entries.len(),
{
    if entries.len() > 0 {
        lemma_matched_len(entries.drop_last());
    }
}

/// Every entry of the table comes from a matched scan entry.
proof fn lemma_matched_provenance(entries: Seq<(String, Option<String>)>)
    ensures
        forall|k: int|
            0 <= k < spec_matched(entries).len() ==> exists|i: int|
                0 <= i < entries.len() && entries[i].0 == (#[trigger] spec_matched(entries)[k]).0
                    && entries[i].1 == Some(spec_matched(entries)[k].1),
    decreases entries.len(),
{
    if entries.len() > 0 {
        lemma_matched_provenance(entries.drop_last());
        let m = spec_matched(entries);
        let rest = spec_matched(entries.drop_last());
        assert forall|k: int| 0 <= k < m.len() implies exists|i: int|
            0 <= i < entries.len() && entries[i].0 == (#[trigger] m[k]).0 && entries[i].1 == Some(
            m[k].1,
        ) by {
            if k < rest.len() {
                assert(m[k] == rest[k]);
                let i = choose|i: int|
                    0 <= i < entries.drop_last().len() && entries.drop_last()[i].0 == (
                    #[trigger] rest[k]).0 && entries.drop_last()[i].1 == Some(rest[k].1);
                assert(entries[i] == entries.drop_last()[i]);
            } else {
                assert(entries[entries.len() - 1] == entries.last());
                assert(m[k] == (entries.last().0, m[k].1));
            }
        }
    }
}

impl ChannelMap {
    /// Builds the table from pairs of file name and match result: exactly
    /// the matched names enter it, in order, each with its channel.
    pub fn build(entries: Vec<(String, Option<String>)>) -> (r: ChannelMap)
        ensures
            r.pairs@ == spec_matched(entries@),
    {
        let mut pairs: Vec<(String, String)> = Vec::new();
        let mut i: usize = 0;
        while i < entries.len()
            invariant
                i <= entries@.len(),
                pairs@ == spec_matched(entries@.take(i as int)),
            decreases entries@.len() - i,
        {
            proof {
                assert(entries@.take(i + 1).drop_last() =~= entries@.take(i as int));
                assert(entries@.take(i + 1).last() == entries@[i as int]);
            }
            let (name, matched) = &entries[i];
            match matched {
                Some(chan) => {
                    pairs.push((name.clone(), chan.clone()));
                },
                None => {},
            }
            i = i + 1;
        }
        proof {
            assert(entries@.take(entries@.len() as int) =~= entries@);
        }
        ChannelMap { pairs }
    }

    /// Scans the given file names with the channel pattern: only names the
    /// pattern matches enter the table, so it is never larger than the
    /// scan, and every entry carries one of the scanned names.
    pub fn scan(re_log: &regex::Regex, names: &Vec<String>) -> (r: ChannelMap)
        ensures
            r.pairs@.len() <= names@.len(),
            forall|k: int|
                0 <= k < r.pairs@.len() ==> exists|i: int|
                    0 <= i < names@.len() && (#[trigger] r.pairs@[k]).0@ == names@[i]@,
    {
        let mut entries: Vec<(String, Option<String>)> = Vec::new();
        let mut i: usize = 0;
        while i < names.len()
            invariant
                i <= names@.len(),
                entries@.len() == i,
                forall|j: int| 0 <= j < i ==> (#[trigger] entries@[j]).0@ == names@[j]@,
            decreases names@.len() - i,
        {
            let cap = capture_first(re_log, names[i].as_str());
            entries.push((names[i].clone(), cap));
            i = i + 1;
        }
        let ghost scanned = entries@;
        let r = ChannelMap::build(entries);
        proof {
            lemma_matched_len(scanned);
            lemma_matched_provenance(scanned);
            assert forall|k: int| 0 <= k < r.pairs@.len() implies exists|i: int|
                0 <= i < names@.len() && (#[trigger] r.pairs@[k]).0@ == names@[i]@ by {
                let i = choose|i: int|
                    0 <= i < scanned.len() && scanned[i].0 == (#[trigger] spec_matched(scanned)[
                    k]).0 && scanned[i].1 == Some(spec_matched(scanned)[k].1);
                assert(scanned[i].0@ == names@[i]@);
            }
        }
        r
    }

    /// The names of the files the table knows, in scan order.
    pub fn file_names(&self) -> (r: Vec<String>)
        ensures
            r@.len() == self.pairs@.len(),
            forall|k: int| 0 <= k < r@.len() ==> (#[trigger] r@[k])@ == self.pairs@[k].0@,
    {
        let mut r: Vec<String> = Vec::new();
        proof {
            assert(self.pairs@.skip(0) =~= self.pairs@);
        }
        let mut i: usize = 0;
        while i < self.pairs.len()
            invariant
                i <= self.pairs@.len(),
                r@.len() == i,
                forall|k: int| 0 <= k < i ==> (#[trigger] r@[k])@ == self.pairs@[k].0@,
            decreases self.pairs@.len() - i,
        {
            r.push(self.pairs[i].0.clone());
            i = i + 1;
        }
        r
    }

    /// Looks a file name up; `UNKNOWN` when the table does not know it.
    pub fn channel_of(&self, name: &String) -> (r: String)
        ensures
            r@ == spec_channel_lookup(self.pairs@, name@),
    {
        proof {
            assert(self.pairs@.skip(0) =~= self.pairs@);
        }
        let mut i: usize = 0;
        while i < self.pairs.len()
            invariant
                i <= self.pairs@.len(),
                spec_channel_lookup(self.pairs@, name@) == spec_channel_lookup(
                    self.pairs@.skip(i as int),
                    name@,
                ),
        decreases self.pairs@.len() - i,
        {
            proof {
                assert(self.pairs@.skip(i as int)[0] == self.pairs@[i as int]);
                assert(self.pairs@.skip(i as int).drop_first() =~= self.pairs@.skip(i + 1));
            }
            if self.pairs[i].0.eq(name) {
                proof {
                    assert(spec_channel_lookup(self.pairs@.skip(i as int), name@)
                        == self.pairs@[i as int].1@);
                }
                return self.pairs[i].1.clone();
            }
            i = i + 1;
        }
        proof {
            assert(self.pairs@.skip(self.pairs@.len() as int).len() == 0);
        }
        String::from_str("UNKNOWN")
    }
}

} // verus!
