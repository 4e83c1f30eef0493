use vstd::prelude::*;
use vstd::string::{StrSliceExecFns, StringExecFns};
use crate::extension::{extension, extension_of, image_name, is_image_name};
use crate::extension::same_text;
use crate::resolve::{decode_percent, percent_text};

verus! {

/// Why a request was refused; each is answered with status 400.
#[derive(Clone, Copy, Debug, PartialEq, Eq, Structural)]
pub enum RequestError {
    /// A method other than `GET`.
    BadMethod,
    /// The URI is not under the scheme's host.
    BadUri,
    /// The query is not a decimal entry index.
    BadIndex,
    /// The file is not of an image format that is served.
    UnsupportedType,
}

/// What follows `prefix` in `s`, where `s` starts with it.
pub fn strip_prefix_text<'a>(s: &'a str, prefix: &str) -> (r: Option<&'a str>)
    ensures
        r is Some <==> (prefix@.len() <= s@.len() && s@.subrange(0, prefix@.len() as int) == prefix@),
        r matches Some(t) ==> t@ == s@.subrange(prefix@.len() as int, s@.len() as int),
{
    let n = s.unicode_len();
    let m = prefix.unicode_len();
    if m > n {
        return None;
    }
    let mut i: usize = 0;
    while i < m
        invariant
            n == s@.len(),
            m == prefix@.len(),
            m <= n,
            i <= m,
            forall|k: int| 0 <= k < i ==> s@[k] == prefix@[k],
        decreases m - i,
    {
        if s.get_char(i) != prefix.get_char(i) {
            assert(s@.subrange(0, m as int)[i as int] != prefix@[i as int]);
            return None;
        }
        i = i + 1;
    }
    assert(s@.subrange(0, m as int) =~= prefix@);
    Some(s.substring_char(m, n))
}

/// The position of the last `?` in a text.
pub open spec fn last_question(s: Seq<char>) -> Option<int> {
    if exists|k: int| 0 <= k < s.len() && s[k] == '?' {
        Some(choose|k: int| 0 <= k < s.len() && s[k] == '?' && (forall|m: int| k < m < s.len() ==> s[m] != '?'))
    } else {
        None
    }
}

/// Splits a text at its last `?` into what stands before and the query after.
pub fn split_query(path: &str) -> (r: (&str, Option<&str>))
    ensures
        last_question(path@) is None ==> r.0@ == path@ && r.1 is None,
        last_question(path@) matches Some(k) ==> r.0@ == path@.subrange(0, k) && r.1 is Some
            && r.1->Some_0@ == path@.subrange(k + 1, path@.len() as int),
{
    let n = path.unicode_len();
    let mut k: usize = n;
    while k > 0
        invariant
            n == path@.len(),
            k <= n,
            forall|m: int| k <= m < n ==> path@[m] != '?',
        decreases k,
    {
        if path.get_char(k - 1) == '?' {
            let ghost q = (k - 1) as int;
            proof {
                let c = choose|c: int| 0 <= c < path@.len() && path@[c] == '?' && (forall|m: int| c < m < path@.len() ==> path@[m] != '?');
                assert(0 <= q < path@.len() && path@[q] == '?');
                if c < q {
                    assert(path@[q] != '?');
                } else if c > q {
                    assert(path@[c] != '?');
                }
            }
            return (path.substring_char(0, k - 1), Some(path.substring_char(k, n)));
        }
        k = k - 1;
    }
    (path, None)
}

/// The number spelled by a run of ASCII digits.
pub open spec fn digits_value(s: Seq<char>) -> nat
    decreases s.len(),
{
    if s.len() == 0 {
        0
    } else {
        digits_value(s.drop_last()) * 10 + ((s.last() as u32) - 0x30) as nat
    }
}

/// Every character is an ASCII digit.
pub open spec fn all_digits(s: Seq<char>) -> bool {
    forall|i: int| 0 <= i < s.len() ==> '0' <= #[trigger] s[i] && s[i] <= '9'
}

/// The digits of an index: the text without one leading `+`.
pub open spec fn index_digits(s: Seq<char>) -> Seq<char> {
    if s.len() > 0 && s[0] == '+' { s.drop_first() } else { s }
}

/// The entry index a query spells, as `usize`'s `from_str` reads it: an
/// optional `+`, then one or more ASCII digits, of a value that fits.
pub open spec fn index_of(s: Seq<char>) -> Option<nat> {
    let d = index_digits(s);
    if d.len() > 0 && all_digits(d) && digits_value(d) <= usize::MAX {
        Some(digits_value(d))
    } else {
        None
    }
}

/// Reads a query as an entry index.
pub fn parse_index(q: &str) -> (r: Option<usize>)
    ensures
        r is Some <==> index_of(q@) is Some,
        r matches Some(v) ==> index_of(q@) == Some(v as nat),
{
    let n = q.unicode_len();
    let mut i: usize = 0;
    if n > 0 && q.get_char(0) == '+' {
        i = 1;
    }
    let ghost d = index_digits(q@);
    let ghost start = i as int;
    assert(d =~= q@.subrange(start, n as int));
    if i == n {
        return None;
    }
    let mut value: usize = 0;
    while i < n
        invariant
            n == q@.len(),
            0 <= start <= i <= n,
            d =~= q@.subrange(start, n as int),
            d == index_digits(q@),
            all_digits(q@.subrange(start, i as int)),
            value as nat == digits_value(q@.subrange(start, i as int)),
        decreases n - i,
    {
        let c = q.get_char(i);
        let ghost prefix = q@.subrange(start, i + 1);
        assert(prefix.drop_last() =~= q@.subrange(start, i as int));
        if !('0' <= c && c <= '9') {
            assert(d[i - start] == c);
            assert(!('0' <= d[i - start] && d[i - start] <= '9'));
            assert(!all_digits(d));
            assert(d == index_digits(q@));
            assert(index_of(q@) is None);
            return None;
        }
        let digit = (c as u32 - 0x30) as usize;
        if value > (usize::MAX - digit) / 10 {
            proof {
                assert(prefix.last() == c);
                assert(digits_value(prefix) == value * 10 + digit);
                assert(value * 10 + digit > usize::MAX) by (nonlinear_arith)
                    requires
                        value > (usize::MAX - digit) / 10,
                        digit <= 9,
                ;
                if all_digits(d) {
                    assert(d.subrange(0, i + 1 - start) =~= prefix);
                    lemma_digits_value_grows(prefix, d, i + 1 - start);
                }
            }
            return None;
        }
        value = value * 10 + digit;
        i = i + 1;
    }
    Some(value)
}

/// A longer run of digits spells at least as large a number as its prefix.
proof fn lemma_digits_value_grows(p: Seq<char>, s: Seq<char>, len: int)
    requires
        0 <= len <= s.len(),
        p == s.subrange(0, len),
        all_digits(s),
    ensures
        digits_value(s) >= digits_value(p),
    decreases s.len() - len,
{
    if len < s.len() {
        let p2 = s.subrange(0, len + 1);
        assert(p2.drop_last() =~= p);
        lemma_digits_value_grows(p2, s, len + 1);
    } else {
        assert(p =~= s);
    }
}

/// The path a document request names: a `GET` of
/// `pdf://localhost/{percent-encoded path}`.
pub fn pdf_target(method: &str, uri: &str) -> (r: Result<String, RequestError>)
    ensures
        method@ != "GET"@ ==> r == Err::<String, RequestError>(RequestError::BadMethod),
        method@ == "GET"@ ==> (r is Ok <==> under_prefix(uri@, "pdf://localhost/"@)),
        method@ == "GET"@ && !under_prefix(uri@, "pdf://localhost/"@) ==> r == Err::<String, RequestError>(RequestError::BadUri),
        r is Ok ==> r->Ok_0@ == percent_text(after_prefix(uri@, "pdf://localhost/"@)),
{
    if !same_text(method, "GET") {
        return Err(RequestError::BadMethod);
    }
    match strip_prefix_text(uri, "pdf://localhost/") {
        Some(rest) => Ok(decode_percent(rest)),
        None => Err(RequestError::BadUri),
    }
}

/// `s` starts with `p`.
pub open spec fn under_prefix(s: Seq<char>, p: Seq<char>) -> bool {
    p.len() <= s.len() && s.subrange(0, p.len() as int) == p
}

/// What follows the prefix `p` in `s`.
pub open spec fn after_prefix(s: Seq<char>, p: Seq<char>) -> Seq<char> {
    s.subrange(p.len() as int, s.len() as int)
}

/// What an archive request `zip://localhost/{percent-encoded path}[?{index}]`
/// asks for: the archive's path, and the entry index where a query is given.
pub struct ArchiveTarget {
    pub path: String,
    pub index: Option<usize>,
}

/// Reads an archive request's URI.
pub fn zip_target(uri: &str) -> (r: Result<ArchiveTarget, RequestError>)
    ensures
        !under_prefix(uri@, "zip://localhost/"@) ==> (r matches Err(e) && e == RequestError::BadUri),
        under_prefix(uri@, "zip://localhost/"@) ==> {
            let rest = after_prefix(uri@, "zip://localhost/"@);
            match last_question(rest) {
                None => (r matches Ok(t) && t.index is None && t.path@ == percent_text(rest)),
                Some(k) => match index_of(rest.subrange(k + 1, rest.len() as int)) {
                    None => (r matches Err(e) && e == RequestError::BadIndex),
                    Some(i) => (r matches Ok(t) && t.index == Some(i as usize)
                        && t.path@ == percent_text(rest.subrange(0, k))),
                },
            }
        },
{
    let rest = match strip_prefix_text(uri, "zip://localhost/") {
        Some(rest) => rest,
        None => return Err(RequestError::BadUri),
    };
    let (file, query) = split_query(rest);
    let index = match query {
        None => None,
        Some(q) => match parse_index(q) {
            Some(i) => Some(i),
            None => return Err(RequestError::BadIndex),
        },
    };
    Ok(ArchiveTarget { path: decode_percent(file), index })
}

/// The media type of an image file: `image/` and its extension.
pub fn image_mime(name: &str) -> (r: Result<String, RequestError>)
    ensures
        r is Ok <==> image_name(name@),
        r matches Err(e) ==> e == RequestError::UnsupportedType,
        r matches Ok(m) ==> m@ == "image/"@ + extension_of(name@),
{
    if !is_image_name(name) {
        return Err(RequestError::UnsupportedType);
    }
    let mut m = String::from_str("image/");
    m.append(extension(name));
    Ok(m)
}

} // verus!
