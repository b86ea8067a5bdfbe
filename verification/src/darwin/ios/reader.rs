use vstd::prelude::*;

verus! {

/// The magic bytes that start a binary property list: `bplist00`.
pub open spec fn bplist_magic() -> Seq<u8> {
    seq![98u8, 112u8, 108u8, 105u8, 115u8, 116u8, 48u8, 48u8]
}

/// Whether pasteboard data is a binary property list, to be decoded before it
/// is handed over: it starts with `bplist00`.
pub fn is_bplist(data: &[u8]) -> (res: bool)
    ensures
        res == (data@.len() >= 8 && data@.take(8) == bplist_magic()),
{
    let magic: [u8; 8] = [98, 112, 108, 105, 115, 116, 48, 48];
    if data.len() < 8 {
        return false;
    }
    let mut i: usize = 0;
    while i < 8
        invariant
            i <= 8,
            data@.len() >= 8,
            magic@ == bplist_magic(),
            forall|j: int| 0 <= j < i ==> data@[j] == bplist_magic()[j],
        decreases 8 - i,
    {
        if data[i] != magic[i] {
            assert(data@.take(8)[i as int] != bplist_magic()[i as int]);
            return false;
        }
        i = i + 1;
    }
    assert(data@.take(8) =~= bplist_magic());
    true
}

} // verus!
