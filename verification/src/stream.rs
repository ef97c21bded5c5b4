use vstd::prelude::*;

use crate::error::StreamError;
use vstd::string::StrSliceExecFns;
use vstd::string::StringExecFns;

verus! {

/// The largest index of a `/` among the first `n` characters, or -1 when
/// none of them is one.
pub open spec fn last_slash_upto(s: Seq<char>, n: int) -> int
    decreases n,
{
    if n <= 0 {
        -1
    } else if s[n - 1] == '/' {
        n - 1
    } else {
        last_slash_upto(s, n - 1)
    }
}

/// The url through its final slash — what relative playlist entries are
/// resolved against — or empty when the url has no slash.
pub open spec fn base_url_of_spec(s: Seq<char>) -> Seq<char> {
    let i = last_slash_upto(s, s.len() as int);
    if i >= 0 {
        s.subrange(0, i + 1)
    } else {
        Seq::empty()
    }
}

proof fn lemma_last_slash_range(s: Seq<char>, n: int)
    ensures
        -1 <= last_slash_upto(s, n),
        n >= 0 ==> last_slash_upto(s, n) < n,
        n <= 0 ==> last_slash_upto(s, n) == -1,
    decreases n,
{
    if n > 0 {
        lemma_last_slash_range(s, n - 1);
    }
}

/// The prefix of the url up to and including its last slash, or the empty
/// string when it has none.
pub fn base_url_of(url: &str) -> (r: String)
    ensures
        r@ == base_url_of_spec(url@),
{
    let n: usize = url.unicode_len();
    let mut found: bool = false;
    let mut idx: usize = 0;
    let mut j: usize = 0;
    while j < n
        invariant
            j <= n,
            n == url@.len(),
            found <==> last_slash_upto(url@, j as int) >= 0,
            found ==> idx as int == last_slash_upto(url@, j as int) && idx < j,
        decreases n - j,
    {
        if url.get_char(j) == '/' {
            found = true;
            idx = j;
        }
        j = j + 1;
    }
    if found {
        let prefix = url.substring_char(0, idx + 1);
        String::from_str(prefix)
    } else {
        String::new()
    }
}

/// The chunk playlist a master playlist points to: its first variant's uri
/// resolved against the master's base url. A master playlist without
/// variants is an error.
pub fn select_variant(variant_uris: &Vec<String>, base: &str) -> (r: Result<String, StreamError>)
    ensures
        r is Err <==> variant_uris@.len() == 0,
        r is Err ==> r->Err_0 == StreamError::NoVariants,
        r matches Ok(u) ==> variant_uris@.len() > 0 && u@ == base@ + variant_uris@[0]@,
{
    if variant_uris.len() == 0 {
        return Err(StreamError::NoVariants);
    }
    Ok(String::from_str(base).concat(variant_uris[0].as_str()))
}

/// The first media segment to fetch: its uri resolved against the chunk
/// playlist's base url. A playlist without segments is an error.
pub fn select_segment(segment_uris: &Vec<String>, base: &str) -> (r: Result<String, StreamError>)
    ensures
        r is Err <==> segment_uris@.len() == 0,
        r is Err ==> r->Err_0 == StreamError::NoSegments,
        r matches Ok(u) ==> segment_uris@.len() > 0 && u@ == base@ + segment_uris@[0]@,
{
    if segment_uris.len() == 0 {
        return Err(StreamError::NoSegments);
    }
    Ok(String::from_str(base).concat(segment_uris[0].as_str()))
}

} // verus!
