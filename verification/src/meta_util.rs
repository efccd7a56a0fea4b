//! Storing fetched page metadata.
//!
//! Fetching a page and digging the title, language and description out of
//! its HTML happen outside the library; what comes back is cleaned up and
//! stored here.  A title is collapsed to single spaces and cut to a bounded
//! length with an ellipsis.

use vstd::prelude::*;

use crate::db_util::{MetaCtx, MetaView, Storage, StoreError};
use crate::str_util::{spec_join_spaces, spec_words_from, ws_collapse};
use crate::text::{chars_to_string, to_char_vec};
use crate::writer::db_add_meta;

verus! {

/// The longest stored title, in characters.
pub const TITLE_MAX_LEN: usize = 400;

/// How many characters of an overlong title are kept before the ellipsis.
pub const TITLE_CUT_LEN: usize = 392;

/// A title as stored: whitespace collapsed, and cut with an ellipsis when
/// longer than [`TITLE_MAX_LEN`] characters.
pub open spec fn spec_clean_title(s: Seq<char>) -> Seq<char> {
    let t = spec_join_spaces(spec_words_from(s, 0));
    if t.len() <= TITLE_MAX_LEN {
        t
    } else {
        t.take(TITLE_CUT_LEN as int) + seq!['.', '.', '.']
    }
}

/// Cleans a fetched title up for storage.
pub fn clean_title(title: &str) -> (r: String)
    ensures
        r@ == spec_clean_title(title@),
{
    let collapsed = ws_collapse(title);
    let chars = to_char_vec(collapsed.as_str());
    if chars.len() <= TITLE_MAX_LEN {
        collapsed
    } else {
        let mut cut: Vec<char> = Vec::new();
        let mut i: usize = 0;
        while i < TITLE_CUT_LEN
            invariant
                i <= TITLE_CUT_LEN < chars@.len(),
                cut@ == chars@.take(i as int),
            decreases TITLE_CUT_LEN - i,
        {
            cut.push(chars[i]);
            i = i + 1;
            proof {
                assert(cut@ =~= chars@.take(i as int));
            }
        }
        cut.push('.');
        cut.push('.');
        cut.push('.');
        proof {
            assert(cut@ =~= chars@.take(TITLE_CUT_LEN as int) + seq!['.', '.', '.']);
        }
        chars_to_string(&cut)
    }
}

/// Cleans the fetched fields up and stores one metadata row for the URL;
/// the backend takes it only when the URL has no row yet, keeping metadata
/// 1:1 with URLs.  When `notify` is set and the row went in, the change
/// marker moves to `now`.
pub fn update_meta<S: Storage>(
    db: &mut S,
    url_id: i32,
    lang: &str,
    title: &str,
    descr: &str,
    notify: bool,
    now: i64,
) -> (r: Result<u64, StoreError>)
    ensures
        final(db).in_tx() == old(db).in_tx(),
        final(db).committed() == old(db).committed(),
        final(db).pending() == old(db).pending(),
        r is Ok ==> final(db).metas() == old(db).metas().push(
            MetaView { url_id, lang: lang@, title: spec_clean_title(title@), descr: descr@ },
        ),
        r is Ok ==> forall|k: int|
            0 <= k < old(db).metas().len() ==> (#[trigger] old(db).metas()[k]).url_id != url_id,
        r is Err ==> final(db).metas() == old(db).metas(),
        r is Ok && notify ==> final(db).marker() == now,
        !(r is Ok && notify) ==> final(db).marker() == old(db).marker(),
{
    let m = MetaCtx {
        url_id,
        lang: lang.to_owned(),
        title: clean_title(title),
        descr: descr.to_owned(),
    };
    db_add_meta(db, &m, notify, now)
}

} // verus!
