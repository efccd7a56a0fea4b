//! Keyed lookup with a wildcard fallback.

use vstd::prelude::*;

verus! {

use vstd::string::StringExecFns;

/// The value of the first entry carrying the key.
pub open spec fn spec_assoc<T>(pairs: Seq<(String, T)>, key: Seq<char>) -> Option<T>
    decreases pairs.len(),
{
    if pairs.len() == 0 {
        None
    } else if pairs[0].0@ == key {
        Some(pairs[0].1)
    } else {
        spec_assoc(pairs.drop_first(), key)
    }
}

fn assoc<'a, T>(map: &'a Vec<(String, T)>, key: &String) -> (r: Option<&'a T>)
    ensures
        match r {
            Some(v) => spec_assoc(map@, key@) == Some(*v),
            None => spec_assoc(map@, key@) is None,
        },
{
    proof {
        assert(map@.skip(0) =~= map@);
    }
    let mut i: usize = 0;
    while i < map.len()
        invariant
            i <= map@.len(),
            spec_assoc(map@, key@) == spec_assoc(map@.skip(i as int), key@),
        decreases map@.len() - i,
    {
        proof {
            assert(map@.skip(i as int)[0] == map@[i as int]);
            assert(map@.skip(i as int).drop_first() =~= map@.skip(i + 1));
        }
        if map[i].0.eq(key) {
            proof {
                assert(spec_assoc(map@.skip(i as int), key@) == Some(map@[i as int].1));
            }
            return Some(&map[i].1);
        }
        i = i + 1;
    }
    proof {
        assert(map@.skip(map@.len() as int).len() == 0);
    }
    None
}

/// Looks the key up, falling back to the `"*"` wildcard entry: the value of
/// the key's first entry, else the wildcard's, else nothing.
pub fn get_wild<'a, T>(map: &'a Vec<(String, T)>, key: &String) -> (r: Option<&'a T>)
    ensures
        match r {
            Some(v) => if spec_assoc(map@, key@) is Some {
                spec_assoc(map@, key@) == Some(*v)
            } else {
                spec_assoc(map@, "*"@) == Some(*v)
            },
            None => spec_assoc(map@, key@) is None && spec_assoc(map@, "*"@) is None,
        },
{
    match assoc(map, key) {
        Some(v) => Some(v),
        None => assoc(map, &String::from_str("*")),
    }
}

} // verus!
