use vstd::prelude::*;

use crate::android::util::contains;

verus! {

/// `s` with `t` added at the end unless it is there already.
pub open spec fn add_unique(s: Seq<Seq<char>>, t: Seq<char>) -> Seq<Seq<char>> {
    if s.contains(t) {
        s
    } else {
        s.push(t)
    }
}

/// `start` with each of the first `k` of `types` added unless there already.
pub open spec fn add_all_unique(start: Seq<Seq<char>>, types: Seq<Seq<char>>, k: int) -> Seq<Seq<char>>
    decreases k,
{
    if k <= 0 {
        start
    } else {
        add_unique(add_all_unique(start, types, k - 1), types[k - 1])
    }
}

/// Adding the first `k` of `types` one by one, each unless there already,
/// leaves no type twice and gives exactly the types of `start` and those `k`.
pub proof fn lemma_add_all_unique(start: Seq<Seq<char>>, types: Seq<Seq<char>>, k: int)
    requires
        start.no_duplicates(),
        0 <= k <= types.len(),
    ensures
        add_all_unique(start, types, k).no_duplicates(),
        forall|t: Seq<char>|
            #[trigger] add_all_unique(start, types, k).contains(t) == (start.contains(t) || types.take(k).contains(t)),
    decreases k,
{
    if k > 0 {
        lemma_add_all_unique(start, types, k - 1);
        let prev = add_all_unique(start, types, k - 1);
        let t = types[k - 1];
        assert(types.take(k) == types.take(k - 1).push(t));
        if !prev.contains(t) {
            let next = prev.push(t);
            assert forall|i: int, j: int| 0 <= i < j < next.len() implies next[i] != next[j] by {
                if j == next.len() - 1 {
                    assert(prev[i] == next[i]);
                }
            }
        }
        assert forall|u: Seq<char>|
            #[trigger] add_all_unique(start, types, k).contains(u) == (start.contains(u) || types.take(k).contains(u)) by {
            if types.take(k).contains(u) {
                let i = choose|i: int| 0 <= i < types.take(k).len() && #[trigger] types.take(k)[i] == u;
                if i < k - 1 {
                    assert(types.take(k - 1)[i] == u);
                }
            }
            if types.take(k - 1).contains(u) {
                let i = choose|i: int| 0 <= i < types.take(k - 1).len() && #[trigger] types.take(k - 1)[i] == u;
                assert(types.take(k)[i] == u);
            }
            if add_all_unique(start, types, k).contains(u) && !prev.contains(u) {
                let i = choose|i: int| 0 <= i < add_all_unique(start, types, k).len() && #[trigger] add_all_unique(start, types, k)[i] == u;
                assert(types.take(k)[k - 1] == t);
            }
            if prev.contains(u) {
                let i = choose|i: int| 0 <= i < prev.len() && #[trigger] prev[i] == u;
                assert(add_all_unique(start, types, k)[i] == u);
            }
            if u == t {
                assert(types.take(k)[k - 1] == t);
                if !prev.contains(t) {
                    assert(add_all_unique(start, types, k)[prev.len() as int] == t);
                }
            }
        }
    }
}

/// Whether an item of these types gets a PNG made from its TIFF: it has TIFF
/// and no PNG.
pub open spec fn synthesizes_png(types: Seq<Seq<char>>) -> bool {
    types.contains("public.tiff"@) && !types.contains("public.png"@)
}

/// The formats after the first `k` pasteboard types were added to `start`:
/// each once, with a synthesized PNG right after TIFF.
pub open spec fn formats_with_types(
    start: Seq<Seq<char>>,
    types: Seq<Seq<char>>,
    k: int,
    synthesize: bool,
) -> Seq<Seq<char>>
    decreases k,
{
    if k <= 0 {
        start
    } else {
        let added = add_unique(formats_with_types(start, types, k - 1, synthesize), types[k - 1]);
        if types[k - 1] == "public.tiff"@ && synthesize {
            added.push("public.png"@)
        } else {
            added
        }
    }
}

/// Appends `s` to `res` unless it is there already.
pub(crate) fn push_unique(res: &mut Vec<String>, s: String)
    ensures
        final(res).deep_view() == add_unique(old(res).deep_view(), s@),
{
    let ghost before = res.deep_view();
    let present = contains(res.as_slice(), s.as_str());
    proof {
        if before.contains(s@) {
            let j = choose|j: int| 0 <= j < before.len() && before[j] == s@;
            assert(res@[j]@ == s@);
        }
        if present {
            let j = choose|j: int| 0 <= j < res@.len() && (#[trigger] res@[j])@ == s@;
            assert(before[j] == s@);
        }
    }
    if !present {
        let ghost v = s@;
        res.push(s);
        assert(res.deep_view() =~= before.push(v));
    }
}

/// Whether an item with these pasteboard types gets a PNG made from its TIFF.
pub fn needs_to_synthesize_png(types: &Vec<String>) -> (res: bool)
    ensures
        res == synthesizes_png(types.deep_view()),
{
    let has_tiff = contains(types.as_slice(), "public.tiff");
    let has_png = contains(types.as_slice(), "public.png");
    proof {
        reveal_strlit("public.tiff");
        reveal_strlit("public.png");
        let dv = types.deep_view();
        if dv.contains("public.tiff"@) {
            let j = choose|j: int| 0 <= j < dv.len() && dv[j] == "public.tiff"@;
            assert(types@[j]@ == "public.tiff"@);
        }
        if has_tiff {
            let j = choose|j: int| 0 <= j < types@.len() && (#[trigger] types@[j])@ == "public.tiff"@;
            assert(dv[j] == "public.tiff"@);
        }
        if dv.contains("public.png"@) {
            let j = choose|j: int| 0 <= j < dv.len() && dv[j] == "public.png"@;
            assert(types@[j]@ == "public.png"@);
        }
        if has_png {
            let j = choose|j: int| 0 <= j < types@.len() && (#[trigger] types@[j])@ == "public.png"@;
            assert(dv[j] == "public.png"@);
        }
    }
    has_tiff && !has_png
}

/// Whether `format` of an item is one that the reader makes itself: a PNG
/// made from the item's TIFF.
pub fn item_format_is_synthesized(format: &str, types: &Vec<String>) -> (res: bool)
    ensures
        res == (format@ == "public.png"@ && synthesizes_png(types.deep_view())),
{
    let f = String::from_str(format);
    let png = String::from_str("public.png");
    f == png && needs_to_synthesize_png(types)
}

/// The formats of a pasteboard item: first those of its promised files, then
/// its own types, each once, with a PNG made from TIFF right after the TIFF.
pub fn item_formats(virtual_types: &Vec<String>, types: &Vec<String>) -> (res: Vec<String>)
    ensures
        res.deep_view() == formats_with_types(
            add_all_unique(Seq::empty(), virtual_types.deep_view(), virtual_types@.len() as int),
            types.deep_view(),
            types@.len() as int,
            synthesizes_png(types.deep_view()),
        ),
{
    let synthesize = needs_to_synthesize_png(types);
    let mut res: Vec<String> = Vec::new();
    let mut i: usize = 0;
    while i < virtual_types.len()
        invariant
            i <= virtual_types@.len(),
            res.deep_view() == add_all_unique(Seq::empty(), virtual_types.deep_view(), i as int),
        decreases virtual_types@.len() - i,
    {
        push_unique(&mut res, virtual_types[i].clone());
        i = i + 1;
    }
    let ghost start = res.deep_view();
    let tiff = String::from_str("public.tiff");
    let mut k: usize = 0;
    while k < types.len()
        invariant
            k <= types@.len(),
            tiff@ == "public.tiff"@,
            res.deep_view() == formats_with_types(start, types.deep_view(), k as int, synthesize),
        decreases types@.len() - k,
    {
        let format = types[k].clone();
        let is_tiff = format == tiff;
        push_unique(&mut res, format);
        if is_tiff && synthesize {
            let ghost before = res.deep_view();
            let png = String::from_str("public.png");
            res.push(png);
            assert(res.deep_view() =~= before.push("public.png"@));
        }
        k = k + 1;
    }
    res
}

/// The formats of an item's promised files: the promised content type, when
/// the item names one, then the receiver's file types, each once.
pub fn promised_types(content_type: Option<String>, file_types: &Vec<String>) -> (res: Vec<String>)
    ensures
        res.deep_view() == add_all_unique(
            match content_type {
                Some(t) => if t@.len() > 0 {
                    seq![t@]
                } else {
                    Seq::empty()
                },
                None => Seq::empty(),
            },
            file_types.deep_view(),
            file_types@.len() as int,
        ),
{
    let mut res: Vec<String> = Vec::new();
    match content_type {
        Some(t) => {
            if t.unicode_len() > 0 {
                let ghost v = t@;
                res.push(t);
                assert(res.deep_view() =~= seq![v]);
            } else {
                assert(res.deep_view() =~= Seq::<Seq<char>>::empty());
            }
        },
        None => {
            assert(res.deep_view() =~= Seq::<Seq<char>>::empty());
        },
    }
    let ghost start = res.deep_view();
    let mut i: usize = 0;
    while i < file_types.len()
        invariant
            i <= file_types@.len(),
            res.deep_view() == add_all_unique(start, file_types.deep_view(), i as int),
        decreases file_types@.len() - i,
    {
        push_unique(&mut res, file_types[i].clone());
        i = i + 1;
    }
    res
}

} // verus!
