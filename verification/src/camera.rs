use vstd::prelude::*;

use crate::error::CameraError;
use vstd::string::StrSliceExecFns;
use vstd::string::StringExecFns;

verus! {

/// One configured webcam: a display name and the stream page it is read
/// from.
#[derive(Debug)]
pub struct Camera {
    pub name: String,
    pub url: String,
}

impl Clone for Camera {
    /// A clone carries the same name and url.
    fn clone(&self) -> (r: Self)
        ensures
            r.name@ == self.name@,
            r.url@ == self.url@,
    {
        Camera { name: self.name.clone(), url: self.url.clone() }
    }
}

/// Whether a character is an ASCII decimal digit.
pub open spec fn is_ascii_digit(c: char) -> bool {
    48 <= c as int <= 57
}

/// Whether every character of the sequence is an ASCII decimal digit.
pub open spec fn all_digits(s: Seq<char>) -> bool {
    forall|i: int| 0 <= i < s.len() ==> is_ascii_digit(#[trigger] s[i])
}

/// The number the digit sequence denotes in decimal.
pub open spec fn digits_val(s: Seq<char>) -> int
    decreases s.len(),
{
    if s.len() == 0 {
        0
    } else {
        digits_val(s.drop_last()) * 10 + (s.last() as int - 48)
    }
}

/// The selector with one leading plus sign removed, the way a decimal
/// integer parse reads it.
pub open spec fn numeric_body(s: Seq<char>) -> Seq<char> {
    if s.len() > 0 && s[0] == '+' {
        s.drop_first()
    } else {
        s
    }
}

/// Whether the selector reads as a machine-word camera index: an optional
/// plus sign, then at least one digit, denoting a value that fits.
pub open spec fn parses_as_index(s: Seq<char>) -> bool {
    let b = numeric_body(s);
    b.len() > 0 && all_digits(b) && digits_val(b) <= usize::MAX
}

proof fn lemma_digits_val_nonneg(s: Seq<char>)
    requires
        all_digits(s),
    ensures
        digits_val(s) >= 0,
    decreases s.len(),
{
    if s.len() > 0 {
        assert(s.drop_last() =~= s.subrange(0, s.len() - 1));
        lemma_digits_val_nonneg(s.drop_last());
    }
}

/// Extending a digit string to the right never decreases its value.
proof fn lemma_digits_val_prefix_le(s: Seq<char>, k: int)
    requires
        all_digits(s),
        0 <= k <= s.len(),
    ensures
        digits_val(s.subrange(0, k)) <= digits_val(s),
    decreases s.len() - k,
{
    if k == s.len() {
        assert(s.subrange(0, k) =~= s);
    } else {
        let pre = s.subrange(0, k);
        let ext = s.subrange(0, k + 1);
        assert(ext.drop_last() =~= pre);
        lemma_digits_val_nonneg(pre);
        assert(digits_val(ext) == digits_val(pre) * 10 + (s[k] as int - 48));
        assert(digits_val(pre) <= digits_val(pre) * 10) by (nonlinear_arith)
            requires
                digits_val(pre) >= 0,
        ;
        lemma_digits_val_prefix_le(s, k + 1);
    }
}

/// Parse the selector as a 1-based camera index, exactly when it is an
/// optional plus sign followed by digits whose value fits in a machine
/// word.
pub fn parse_selector(s: &str) -> (r: Option<usize>)
    ensures
        r is Some <==> parses_as_index(s@),
        r matches Some(v) ==> v == digits_val(numeric_body(s@)),
{
    let n: usize = s.unicode_len();
    let start: usize = if n > 0 && s.get_char(0) == '+' {
        1
    } else {
        0
    };
    let ghost body = numeric_body(s@);
    proof {
        assert(body =~= s@.subrange(start as int, n as int));
    }
    if start >= n {
        return None;
    }
    let mut val: usize = 0;
    let mut j: usize = start;
    while j < n
        invariant
            start <= j <= n,
            n == s@.len(),
            body == numeric_body(s@),
            body == s@.subrange(start as int, n as int),
            all_digits(body.subrange(0, j - start)),
            val == digits_val(body.subrange(0, j - start)),
        decreases n - j,
    {
        let c = s.get_char(j);
        let d: u32 = c as u32;
        proof {
            assert(body[j - start] == s@[j as int]);
            assert(body.subrange(0, j - start + 1).drop_last() =~= body.subrange(0, j - start));
        }
        if d < 48 || d > 57 {
            proof {
                assert(!is_ascii_digit(body[j - start]));
            }
            return None;
        }
        let digit: usize = (d - 48) as usize;
        let stepped = val.checked_mul(10);
        match stepped {
            None => {
                proof {
                    assert(digits_val(body.subrange(0, j - start + 1)) > usize::MAX);
                    if all_digits(body) {
                        lemma_digits_val_prefix_le(body, j - start + 1);
                    }
                }
                return None;
            },
            Some(v10) => {
                let summed = v10.checked_add(digit);
                match summed {
                    None => {
                        proof {
                            assert(digits_val(body.subrange(0, j - start + 1)) > usize::MAX);
                            if all_digits(body) {
                                lemma_digits_val_prefix_le(body, j - start + 1);
                            }
                        }
                        return None;
                    },
                    Some(v) => {
                        val = v;
                    },
                }
            },
        }
        j = j + 1;
    }
    proof {
        assert(body.subrange(0, n - start) =~= body);
    }
    Some(val)
}

/// The needle occurs in the haystack starting at position `i`.
pub open spec fn is_substring_at(h: Seq<char>, n: Seq<char>, i: int) -> bool {
    0 <= i && i + n.len() <= h.len() && h.subrange(i, i + n.len()) == n
}

/// The needle occurs somewhere in the haystack.
pub open spec fn contains_seq(h: Seq<char>, n: Seq<char>) -> bool {
    exists|i: int| is_substring_at(h, n, i)
}

/// Whether the needle occurs anywhere in the haystack, by direct scan.
pub fn contains_sub(h: &str, n: &str) -> (r: bool)
    ensures
        r == contains_seq(h@, n@),
{
    let hlen: usize = h.unicode_len();
    let nlen: usize = n.unicode_len();
    if nlen > hlen {
        proof {
            assert forall|i: int| !is_substring_at(h@, n@, i) by {}
        }
        return false;
    }
    let mut i: usize = 0;
    while i <= hlen - nlen
        invariant
            nlen <= hlen,
            hlen == h@.len(),
            nlen == n@.len(),
            i <= hlen - nlen + 1,
            forall|k: int| 0 <= k < i ==> !is_substring_at(h@, n@, k),
        decreases hlen - nlen - i + 1,
    {
        let mut j: usize = 0;
        let mut matched: bool = true;
        while j < nlen
            invariant
                i + nlen <= hlen,
                hlen == h@.len(),
                nlen == n@.len(),
                j <= nlen,
                matched ==> forall|t: int| 0 <= t < j ==> h@[i + t] == n@[t],
                !matched ==> exists|t: int| 0 <= t < nlen && h@[i + t] != n@[t],
            decreases nlen - j,
        {
            if h.get_char(i + j) != n.get_char(j) {
                proof {
                    assert(h@[i + j] != n@[j as int]);
                }
                matched = false;
                j = nlen;
            } else {
                j = j + 1;
            }
        }
        if matched {
            proof {
                assert(h@.subrange(i as int, i + n@.len()) =~= n@);
                assert(is_substring_at(h@, n@, i as int));
            }
            return true;
        }
        proof {
            let t = choose|t: int| 0 <= t < nlen && h@[i + t] != n@[t];
            assert(h@.subrange(i as int, i + n@.len())[t] == h@[i + t]);
            assert(!is_substring_at(h@, n@, i as int));
        }
        i = i + 1;
    }
    proof {
        assert forall|k: int| !is_substring_at(h@, n@, k) by {
            if 0 <= k <= h@.len() - n@.len() {
                assert(!is_substring_at(h@, n@, k));
            }
        }
    }
    false
}

/// What `str::to_lowercase` turns a sequence of characters into; the result
/// depends on the characters alone.
pub uninterp spec fn lower_of(s: Seq<char>) -> Seq<char>;

/// Relies on str::to_lowercase: the lowercase form of a string, a function
/// of its characters alone; an empty string stays empty.
#[verifier::external_body]
fn lowercase(s: &str) -> (r: String)
    ensures
        r@ == lower_of(s@),
        s@.len() == 0 ==> r@.len() == 0,
{
    s.to_lowercase()
}

/// Whether a camera's lowercased name contains the lowercased selector.
pub open spec fn cam_matches(c: Camera, sel: Seq<char>) -> bool {
    contains_seq(lower_of(c.name@), lower_of(sel))
}

/// Select a camera from the list: by 1-based index when the selector is
/// numeric, otherwise the first camera whose lowercased name contains the
/// lowercased selector. A numeric selector outside the list's range, or a
/// selector no name matches, is an error.
///
/// An empty selector matches every name (every string contains the empty
/// string), so with a non-empty list it selects the first camera.
pub fn find_camera(cameras: &Vec<Camera>, selector: &str) -> (r: Result<Camera, CameraError>)
    ensures
        parses_as_index(selector@) ==> {
            let v = digits_val(numeric_body(selector@));
            &&& (1 <= v <= cameras@.len()) ==> (r matches Ok(c) && c.name@ == cameras@[v
                - 1].name@ && c.url@ == cameras@[v - 1].url@)
            &&& !(1 <= v <= cameras@.len()) ==> r == Err::<Camera, CameraError>(
                CameraError::IndexOutOfRange(v as usize),
            )
        },
        !parses_as_index(selector@) ==> {
            &&& (exists|k: int| 0 <= k < cameras@.len() && cam_matches(#[trigger] cameras@[k], selector@))
                ==> (r matches Ok(c) && exists|k: int|
                {
                    &&& 0 <= k < cameras@.len()
                    &&& cam_matches(#[trigger] cameras@[k], selector@)
                    &&& forall|j: int| 0 <= j < k ==> !cam_matches(#[trigger] cameras@[j], selector@)
                    &&& c.name@ == cameras@[k].name@
                    &&& c.url@ == cameras@[k].url@
                })
            &&& !(exists|k: int| 0 <= k < cameras@.len() && cam_matches(#[trigger] cameras@[k], selector@))
                ==> r == Err::<Camera, CameraError>(CameraError::NotFound)
        },
{
    match parse_selector(selector) {
        Some(index) => {
            if index >= 1 && index <= cameras.len() {
                Ok(cameras[index - 1].clone())
            } else {
                Err(CameraError::IndexOutOfRange(index))
            }
        },
        None => {
            let selector_lower = lowercase(selector);
            let clen = cameras.len();
            let mut k: usize = 0;
            while k < clen
                invariant
                    k <= clen,
                    clen == cameras@.len(),
                    !parses_as_index(selector@),
                    selector_lower@ == lower_of(selector@),
                    forall|j: int| 0 <= j < k ==> !cam_matches(#[trigger] cameras@[j], selector@),
                decreases clen - k,
            {
                let name_lower = lowercase(cameras[k].name.as_str());
                if contains_sub(name_lower.as_str(), selector_lower.as_str()) {
                    return Ok(cameras[k].clone());
                }
                k = k + 1;
            }
            Err(CameraError::NotFound)
        },
    }
}

/// The character for one decimal digit value.
pub open spec fn digit_char(d: int) -> char {
    if d == 0 {
        '0'
    } else if d == 1 {
        '1'
    } else if d == 2 {
        '2'
    } else if d == 3 {
        '3'
    } else if d == 4 {
        '4'
    } else if d == 5 {
        '5'
    } else if d == 6 {
        '6'
    } else if d == 7 {
        '7'
    } else if d == 8 {
        '8'
    } else {
        '9'
    }
}

/// The decimal digits of a number, most significant first.
pub open spec fn dec_digits(n: int) -> Seq<char>
    recommends
        n >= 0,
    decreases n,
{
    if n < 10 {
        seq![digit_char(n)]
    } else {
        dec_digits(n / 10).push(digit_char(n % 10))
    }
}

/// The one-character string for a digit value.
fn digit_str(d: usize) -> (r: &'static str)
    requires
        d < 10,
    ensures
        r@ =~= seq![digit_char(d as int)],
{
    proof {
        reveal_strlit("0");
        reveal_strlit("1");
        reveal_strlit("2");
        reveal_strlit("3");
        reveal_strlit("4");
        reveal_strlit("5");
        reveal_strlit("6");
        reveal_strlit("7");
        reveal_strlit("8");
        reveal_strlit("9");
    }
    if d == 0 {
        "0"
    } else if d == 1 {
        "1"
    } else if d == 2 {
        "2"
    } else if d == 3 {
        "3"
    } else if d == 4 {
        "4"
    } else if d == 5 {
        "5"
    } else if d == 6 {
        "6"
    } else if d == 7 {
        "7"
    } else if d == 8 {
        "8"
    } else {
        "9"
    }
}

/// Append the decimal form of a number to a string.
fn push_decimal(out: &mut String, n: usize)
    ensures
        final(out)@ == old(out)@ + dec_digits(n as int),
    decreases n,
{
    if n >= 10 {
        push_decimal(out, n / 10);
        let d = digit_str(n % 10);
        out.append(d);
        proof {
            assert(final(out)@ =~= old(out)@ + dec_digits(n as int));
        }
    } else {
        out.append(digit_str(n));
        proof {
            assert(final(out)@ =~= old(out)@ + dec_digits(n as int));
        }
    }
}

/// One listing line: two spaces, a 1-based index, a dot, the camera's name,
/// a newline.
pub open spec fn line_of(idx1: int, name: Seq<char>) -> Seq<char> {
    "  "@ + dec_digits(idx1) + ". "@ + name + "\n"@
}

/// The listing lines of the first `k` cameras.
pub open spec fn lines_upto(cams: Seq<Camera>, k: int) -> Seq<char>
    decreases k,
{
    if k <= 0 {
        Seq::empty()
    } else {
        lines_upto(cams, k - 1) + line_of(k, cams[k - 1].name@)
    }
}

/// Render the camera list: a heading, then one numbered line per camera.
pub fn list_cameras(cameras: &Vec<Camera>) -> (r: String)
    ensures
        r@ == "Available cameras:\n"@ + lines_upto(cameras@, cameras@.len() as int),
{
    let mut result = String::from_str("Available cameras:\n");
    let clen = cameras.len();
    let mut i: usize = 0;
    while i < clen
        invariant
            i <= clen,
            clen == cameras@.len(),
            result@ == "Available cameras:\n"@ + lines_upto(cameras@, i as int),
        decreases clen - i,
    {
        result.append("  ");
        push_decimal(&mut result, i + 1);
        result.append(". ");
        result.append(cameras[i].name.as_str());
        result.append("\n");
        proof {
            assert(result@ =~= "Available cameras:\n"@ + lines_upto(cameras@, i + 1));
        }
        i = i + 1;
    }
    result
}

} // verus!
