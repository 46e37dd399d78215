//! The size of a URL and its query parameters on the wire.

use crate::mapping::{pairs_of, Pair};
use vstd::prelude::*;

verus! {

/// The most bytes that a URL and its query parameters may have together for
/// the merge to be attempted: a sixty-fourth of the 32-bit range.
///
/// The URL library keeps 32-bit offsets into the text it builds and does not
/// guard every one of them. That text is longer than what it is built from:
/// percent-encoding writes three bytes for one, and a host name beyond ASCII
/// can grow by more. This limit leaves room for all of that.
pub const MAX_QUERY_BYTES: usize = 67108863;

/// The number of bytes of a text in UTF-8.
pub open spec fn byte_len(text: Seq<char>) -> nat {
    vstd::utf8::encode_utf8(text).len()
}

/// The number of bytes that the pairs take in a query string before any
/// encoding: those of every key and value, and two separators for each pair.
pub open spec fn pairs_byte_len(pairs: Seq<Pair>) -> nat
    decreases pairs.len(),
{
    if pairs.len() == 0 {
        0
    } else {
        pairs_byte_len(pairs.drop_last()) + byte_len(pairs.last().0) + byte_len(pairs.last().1) + 2
    }
}

/// Whether the URL and the parameters together stay within `limit` bytes.
pub fn within_bytes(url: &str, params: &Vec<(String, String)>, limit: usize) -> (within: bool)
    ensures
        within == (byte_len(url@) + pairs_byte_len(pairs_of(params@)) <= limit),
{
    let url_bytes = url.as_bytes().len();
    if url_bytes > limit {
        return false;
    }
    let mut total: usize = url_bytes;
    let mut i: usize = 0;
    while i < params.len()
        invariant
            i <= params.len(),
            total <= limit,
            total == byte_len(url@) + pairs_byte_len(pairs_of(params@).take(i as int)),
        decreases params.len() - i,
    {
        let ghost seen = pairs_of(params@).take(i as int + 1);
        assert(seen.drop_last() =~= pairs_of(params@).take(i as int));
        assert(seen.last() == pairs_of(params@)[i as int]);
        let key_bytes = params[i].0.as_str().as_bytes().len();
        let value_bytes = params[i].1.as_str().as_bytes().len();
        if key_bytes > limit - total {
            proof {
                lemma_pairs_byte_len_grows(pairs_of(params@), i as int + 1);
            }
            return false;
        }
        total = total + key_bytes;
        if value_bytes > limit - total {
            proof {
                lemma_pairs_byte_len_grows(pairs_of(params@), i as int + 1);
            }
            return false;
        }
        total = total + value_bytes;
        if 2 > limit - total {
            proof {
                lemma_pairs_byte_len_grows(pairs_of(params@), i as int + 1);
            }
            return false;
        }
        total = total + 2;
        i += 1;
    }
    assert(pairs_of(params@).take(i as int) =~= pairs_of(params@));
    true
}

/// The first pairs of a sequence have no more bytes than all of them.
proof fn lemma_pairs_byte_len_grows(pairs: Seq<Pair>, count: int)
    requires
        0 <= count <= pairs.len(),
    ensures
        pairs_byte_len(pairs.take(count)) <= pairs_byte_len(pairs),
    decreases pairs.len() - count,
{
    if count < pairs.len() {
        lemma_pairs_byte_len_grows(pairs, count + 1);
        assert(pairs.take(count + 1).drop_last() =~= pairs.take(count));
    } else {
        assert(pairs.take(count) =~= pairs);
    }
}

} // verus!
