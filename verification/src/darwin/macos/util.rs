use vstd::prelude::*;

verus! {

/// Whether every whole RGBA pixel of `data` has equal red, green and blue.
pub open spec fn grayscale(data: Seq<u8>) -> bool {
    forall|p: int|
        0 <= p < data.len() / 4 ==> #[trigger] data[4 * p] == data[4 * p + 1] && data[4 * p + 1]
            == data[4 * p + 2]
}

/// Whether an RGBA image is gray: every pixel has equal red, green and blue
/// (a trailing partial pixel is ignored).
pub fn is_grayscale(data: &[u8]) -> (res: bool)
    ensures
        res == grayscale(data@),
{
    let len = data.len();
    let n = len / 4;
    let mut p: usize = 0;
    while p < n
        invariant
            len == data@.len(),
            n == len / 4,
            p <= n,
            forall|q: int| 0 <= q < p ==> #[trigger] data@[4 * q] == data@[4 * q + 1] && data@[4 * q + 1]
                == data@[4 * q + 2],
        decreases n - p,
    {
        let i = 4 * p;
        if data[i] != data[i + 1] || data[i + 1] != data[i + 2] {
            assert(!(data@[4 * p] == data@[4 * p + 1] && data@[4 * p + 1] == data@[4 * p + 2]));
            return false;
        }
        p = p + 1;
    }
    true
}

} // verus!
