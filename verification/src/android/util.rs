use vstd::prelude::*;

verus! {

/// The path segments of the absolute URL that `uri` spells, as
/// `url::Url::parse` and `Url::path_segments` give them; `None` when `uri` is
/// not an absolute URL or the URL cannot be a base.
pub uninterp spec fn url_path_segments(uri: Seq<char>) -> Option<Seq<Seq<char>>>;

/// Parses `uri` with `url::Url::parse` and gives the URL's path segments, from
/// `Url::path_segments`. The contract claims that the result is a function of
/// `uri` alone, and what the crate documents: a URL that has path segments has
/// at least one (which may be empty).
#[verifier::external_body]
pub(crate) fn path_segments(uri: &str) -> (res: Option<Vec<String>>)
    ensures
        match res {
            Some(v) => url_path_segments(uri@) == Some(v.deep_view()) && v.len() >= 1,
            None => url_path_segments(uri@) is None,
        },
{
    let url = url::Url::parse(uri).ok()?;
    let segments = url.path_segments()?;
    Some(segments.map(|s| s.to_string()).collect())
}

/// Whether `s` is one of the strings of `l`.
pub fn contains(l: &[String], s: &str) -> (res: bool)
    ensures
        res == exists|i: int| 0 <= i < l@.len() && (#[trigger] l@[i])@ == s@,
{
    let target = String::from_str(s);
    let mut i: usize = 0;
    while i < l.len()
        invariant
            i <= l@.len(),
            target@ == s@,
            forall|j: int| 0 <= j < i ==> (#[trigger] l@[j])@ != s@,
        decreases l@.len() - i,
    {
        if l[i] == target {
            return true;
        }
        i = i + 1;
    }
    false
}

} // verus!
