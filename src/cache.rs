//! `Cache-Control` directives.
use vstd::prelude::*;

use crate::bytes::{copy_range, find_byte, find_in, lemma_find_in_bounds, trim, trim_bounds};
use crate::common::{
    find_key, header_insert, header_view, key_index, lemma_find_in_shift, HttpMessageContent,
};
use crate::text::{txt_no_store, txt_no_store_vec};

verus! {

/// One directive, `name` or `name=value`, after trimming.
pub open spec fn directive_of(p: Seq<u8>) -> (Seq<u8>, Seq<u8>) {
    let t = trim(p);
    let k = find_in(t, 61, 0, t.len() as int);
    if k < 0 {
        (t, Seq::empty())
    } else {
        (t.subrange(0, k), t.subrange(k + 1, t.len() as int))
    }
}

/// The directives of the comma-separated list `s[i..]`, added to `acc`; a later
/// directive replaces an earlier one of the same name.
pub open spec fn directives_from(s: Seq<u8>, i: int, acc: Seq<(Seq<u8>, Seq<u8>)>) -> Seq<
    (Seq<u8>, Seq<u8>),
>
    decreases s.len() + 1 - i,
{
    if i < 0 || i > s.len() {
        acc
    } else {
        let j = find_in(s, 44, i, s.len() as int);
        let last = j < i || j >= s.len();
        let end = if last {
            s.len() as int
        } else {
            j
        };
        let d = directive_of(s.subrange(i, end));
        let acc2 = header_insert(acc, d.0, d.1);
        if last {
            acc2
        } else {
            directives_from(s, j + 1, acc2)
        }
    }
}

pub struct CacheControl {
    pub cache_directives: Vec<(Vec<u8>, Vec<u8>)>,
}

impl CacheControl {
    pub open spec fn directives(&self) -> Seq<(Seq<u8>, Seq<u8>)> {
        header_view(self.cache_directives@)
    }

    /// Parses a `Cache-Control` header value; every value parses.
    pub fn parse(v: &[u8]) -> (r: CacheControl)
        ensures
            r.directives() == directives_from(v@, 0, seq![]),
    {
        let mut acc = HttpMessageContent::new(Vec::new(), Vec::new());
        assert(acc.headers_spec() =~= Seq::<(Seq<u8>, Seq<u8>)>::empty());
        let mut i: usize = 0;
        loop
            invariant
                i <= v@.len(),
                directives_from(v@, 0, seq![]) == directives_from(
                    v@,
                    i as int,
                    acc.headers_spec(),
                ),
            decreases v@.len() - i,
        {
            proof {
                lemma_find_in_bounds(v@, 44, i as int, v@.len() as int);
            }
            let j = find_byte(v, 44, i, v.len());
            let end = match j {
                Some(j) => j,
                None => v.len(),
            };
            let (a, b) = trim_bounds(v, i, end);
            proof {
                lemma_find_in_bounds(v@, 61, a as int, b as int);
                lemma_find_in_shift(v@, 61, a as int, b as int);
            }
            let (key, value) = match find_byte(v, 61, a, b) {
                Some(k) => {
                    let ghost t = v@.subrange(a as int, b as int);
                    assert(t.subrange(0, k - a) =~= v@.subrange(a as int, k as int));
                    assert(t.subrange(k - a + 1, t.len() as int) =~= v@.subrange(k + 1, b as int));
                    (copy_range(v, a, k), copy_range(v, k + 1, b))
                },
                None => (copy_range(v, a, b), Vec::new()),
            };
            assert(directive_of(v@.subrange(i as int, end as int)) == (key@, value@));
            acc.insert_header(key, value);
            match j {
                None => {
                    return CacheControl { cache_directives: acc.headers };
                },
                Some(j) => {
                    i = j + 1;
                },
            }
        }
    }

    /// Storing a response is allowed unless `no-store` is among the directives.
    pub fn store_allowed(&self) -> (r: bool)
        ensures
            r == (key_index(self.directives(), txt_no_store()) == -1),
    {
        let key = txt_no_store_vec();
        find_key(&self.cache_directives, key.as_slice()).is_none()
    }
}

} // verus!
