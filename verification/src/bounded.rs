//! Bounds on the size of untrusted input, for feeding arbitrary bytes to the
//! parser without letting one input take unbounded time.

use vstd::prelude::*;
use vstd::utf8::{decode_utf8, decode_utf8_encode_utf8, encode_utf8, valid_utf8};

verus! {

/// The largest number of bytes of an input which is looked at.
pub const MAX_INPUT_LENGTH: usize = 16384;

/// The text which `String::from_utf8_lossy` decodes from `bytes`: valid UTF-8
/// sequences decoded, each invalid one replaced by U+FFFD.
pub uninterp spec fn utf8_lossy(bytes: Seq<u8>) -> Seq<char>;

/// Calls `String::from_utf8_lossy` and takes ownership of what it returns; the
/// result is the value of [`utf8_lossy`]. Valid UTF-8 is decoded as it is
/// (so ASCII bytes are each decoded to the character with the same code).
#[verifier::external_body]
fn lossy_text(bytes: &[u8]) -> (r: String)
    ensures
        r@ == utf8_lossy(bytes@),
        valid_utf8(bytes@) ==> r@ == decode_utf8(bytes@),
        (forall|i: int| 0 <= i < bytes@.len() ==> #[trigger] bytes@[i] < 128) ==> r@ == bytes@.map_values(|b: u8| b as char),
{
    String::from_utf8_lossy(bytes).into_owned()
}

/// The first [`MAX_INPUT_LENGTH`] bytes of `data` (all of it when it is shorter).
pub fn bounded_bytes(data: &[u8]) -> (r: &[u8])
    ensures
        r@ == data@.take(if data@.len() < MAX_INPUT_LENGTH { data@.len() as int } else { MAX_INPUT_LENGTH as int }),
{
    let n: usize = if data.len() < MAX_INPUT_LENGTH { data.len() } else { MAX_INPUT_LENGTH };
    data.split_at(n).0
}

/// The text of the first [`MAX_INPUT_LENGTH`] bytes of `data`, decoded as UTF-8
/// with invalid sequences replaced by U+FFFD. Valid UTF-8 of at most that
/// many bytes comes back unchanged: its decoding encodes to `data` again.
pub fn bounded_text(data: &[u8]) -> (r: String)
    ensures
        r@ == utf8_lossy(data@.take(if data@.len() < MAX_INPUT_LENGTH { data@.len() as int } else { MAX_INPUT_LENGTH as int })),
        data@.len() <= MAX_INPUT_LENGTH && valid_utf8(data@) ==> r@ == decode_utf8(data@) && encode_utf8(r@) == data@,
{
    let prefix = bounded_bytes(data);
    let r = lossy_text(prefix);
    proof {
        if data@.len() <= MAX_INPUT_LENGTH && valid_utf8(data@) {
            assert(prefix@ =~= data@);
            decode_utf8_encode_utf8(data@);
        }
    }
    r
}

} // verus!
