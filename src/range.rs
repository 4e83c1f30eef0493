use vstd::prelude::*;
use vstd::string::StringExecFns;
use crate::decimal::{decimal_of, decimal_text};

verus! {

/// A window of a resource: `length` bytes from offset `start`.
#[derive(Clone, Copy, Debug, PartialEq, Eq, Structural)]
pub struct ByteRange {
    pub start: u64,
    pub length: u64,
}

/// Why a range header yielded no usable window.
#[derive(Clone, Copy, Debug, PartialEq, Eq, Structural)]
pub enum RangeError {
    Unparsable,
}

/// What to serve for a request on a resource of a known size.
#[derive(Clone, Copy, Debug, PartialEq, Eq, Structural)]
pub enum RangeOutcome {
    /// No range was asked for: the whole resource, status 200.
    Full,
    /// A range header came but gave no window: the whole resource, status 206.
    WholeFallback,
    /// The window to serve, status 206.
    Partial(ByteRange),
}

/// The cap on a clamped window: 400 KiB.
pub const MAX_CHUNK: u64 = 409600;

impl ByteRange {
    /// The window lies inside a resource of `total` bytes and is not empty.
    pub open spec fn fits(self, total: u64) -> bool {
        self.start < total && self.length >= 1 && self.start + self.length <= total
    }
}

/// The served window for a requested one: a request longer than a third of the
/// resource is cut to what is left from its start, at most `max_chunk` bytes.
pub open spec fn clamped(r: ByteRange, total: u64, max_chunk: u64) -> ByteRange {
    if r.length > total / 3 {
        ByteRange {
            start: r.start,
            length: if total - r.start <= max_chunk { (total - r.start) as u64 } else { max_chunk },
        }
    } else {
        r
    }
}

/// The outcome for an optional header already parsed into ranges.
pub open spec fn planned(
    parsed: Option<Result<Seq<ByteRange>, RangeError>>,
    total: u64,
    max_chunk: u64,
) -> RangeOutcome {
    match parsed {
        None => RangeOutcome::Full,
        Some(Ok(rs)) => if rs.len() > 0 && rs[0].fits(total) {
            RangeOutcome::Partial(clamped(rs[0], total, max_chunk))
        } else {
            RangeOutcome::WholeFallback
        },
        Some(Err(_)) => RangeOutcome::WholeFallback,
    }
}

/// Cuts a requested window by the clamp policy.
pub fn clamp(r: ByteRange, total_size: u64, max_chunk: u64) -> (s: ByteRange)
    requires
        r.fits(total_size),
        max_chunk >= 1,
    ensures
        s == clamped(r, total_size, max_chunk),
        s.fits(total_size),
        s.start == r.start,
{
    if r.length > total_size / 3 {
        let left = total_size - r.start;
        let length = if left <= max_chunk { left } else { max_chunk };
        ByteRange { start: r.start, length }
    } else {
        r
    }
}

/// Decides what to serve from the ranges a header was parsed into (`None`
/// when no header came). Only the first range is honoured.
pub fn plan(parsed: Option<Result<Vec<ByteRange>, RangeError>>, total_size: u64, max_chunk: u64) -> (o: RangeOutcome)
    requires
        max_chunk >= 1,
    ensures
        o == planned(parsed_view(parsed), total_size, max_chunk),
        o matches RangeOutcome::Partial(w) ==> w.fits(total_size),
{
    match parsed {
        None => RangeOutcome::Full,
        Some(Ok(v)) => {
            if v.len() > 0 && v[0].start < total_size && v[0].length >= 1 && v[0].length <= total_size - v[0].start {
                RangeOutcome::Partial(clamp(v[0], total_size, max_chunk))
            } else {
                RangeOutcome::WholeFallback
            }
        },
        Some(Err(_)) => RangeOutcome::WholeFallback,
    }
}


#[verifier::external_type_specification]
#[verifier::external_body]
pub struct ExHttpRangeParseError(http_range::HttpRangeParseError);

/// The ranges `http_range::HttpRange::parse` reads from a header for a
/// resource of `size` bytes; `None` where it refuses the header.
pub uninterp spec fn http_ranges_of(h: Seq<char>, size: u64) -> Option<Seq<ByteRange>>;

/// Relies on `http_range::HttpRange::parse`: an empty header gives no ranges,
/// and every range it returns
/// ends inside the resource, starting before its end with at least one byte
/// when the resource is not empty.
/// A header not starting with `bytes=` is refused.
#[verifier::external_body]
fn parse_ranges(header: &str, size: u64) -> (r: Result<Vec<ByteRange>, http_range::HttpRangeParseError>)
    ensures
        r is Ok <==> http_ranges_of(header@, size) is Some,
        r is Ok ==> http_ranges_of(header@, size) == Some(r->Ok_0@),
        header@.len() == 0 ==> r is Ok && r->Ok_0@.len() == 0,
        header@.len() > 0 && !byte_unit(header@) ==> r is Err,
        r is Ok ==> forall|i: int| 0 <= i < r->Ok_0@.len() ==> #[trigger] r->Ok_0@[i].start + r->Ok_0@[i].length <= size,
        r is Ok && size > 0 ==> forall|i: int| 0 <= i < r->Ok_0@.len() ==> #[trigger] r->Ok_0@[i].fits(size),
{
    http_range::HttpRange::parse(header, size).map(
        |v| v.iter().map(|h| ByteRange { start: h.start, length: h.length }).collect(),
    )
}

/// A header's parse, as `planned` reads it.
pub open spec fn header_parse(h: Seq<char>, total: u64) -> Result<Seq<ByteRange>, RangeError> {
    match http_ranges_of(h, total) {
        Some(v) => Ok(v),
        None => Err(RangeError::Unparsable),
    }
}

/// The text starts with the unit `bytes=`.
pub open spec fn byte_unit(h: Seq<char>) -> bool {
    h.len() >= 6 && h.subrange(0, 6) == "bytes="@
}

/// The view of a header's parse that `planned` reads.
pub open spec fn parsed_view(parsed: Option<Result<Vec<ByteRange>, RangeError>>) -> Option<Result<Seq<ByteRange>, RangeError>> {
    match parsed {
        None => None,
        Some(Ok(v)) => Some(Ok(v@)),
        Some(Err(e)) => Some(Err(e)),
    }
}

/// Decides what to serve for an optional `Range` header on a resource of
/// `total_size` bytes, cutting long windows to `max_chunk` bytes.
pub fn compute(range_header: Option<&str>, total_size: u64, max_chunk: u64) -> (o: RangeOutcome)
    requires
        max_chunk >= 1,
    ensures
        range_header is None <==> o == RangeOutcome::Full,
        range_header matches Some(h) ==> o == planned(Some(header_parse(h@, total_size)), total_size, max_chunk),
        o matches RangeOutcome::Partial(w) ==> w.fits(total_size),
        range_header matches Some(h) && !byte_unit(h@) ==> o == RangeOutcome::WholeFallback,
        o matches RangeOutcome::Partial(w) ==> exists|r: ByteRange| #[trigger] r.fits(total_size) && w == clamped(r, total_size, max_chunk),
{
    match range_header {
        None => plan(None, total_size, max_chunk),
        Some(h) => {
            let parsed = match parse_ranges(h, total_size) {
                Ok(v) => Ok(v),
                Err(_) => Err(RangeError::Unparsable),
            };
            plan(Some(parsed), total_size, max_chunk)
        },
    }
}

impl RangeOutcome {
    /// The status code to answer with.
    pub fn status_code(&self) -> (c: u16)
        ensures
            c == (if *self is Full { 200u16 } else { 206u16 }),
    {
        match self {
            RangeOutcome::Full => 200,
            _ => 206,
        }
    }

    /// The response headers this outcome calls for, in order.
    pub fn headers(&self, total_size: u64) -> (h: Vec<(String, String)>)
        requires
            self matches RangeOutcome::Partial(w) ==> w.fits(total_size),
        ensures
            h@.len() == self.header_count(),
            *self is Full ==> h@[0].0@ == "Content-Length"@ && h@[0].1@ == decimal_of(total_size as nat),
            self matches RangeOutcome::Partial(w) ==> {
                &&& h@[0].0@ == "Connection"@ && h@[0].1@ == "Keep-Alive"@
                &&& h@[1].0@ == "Accept-Ranges"@ && h@[1].1@ == "bytes"@
                &&& h@[2].0@ == "Content-Length"@ && h@[2].1@ == decimal_of(w.length as nat)
                &&& h@[3].0@ == "Content-Range"@ && h@[3].1@ == content_range_of(*w, total_size)
            },
    {
        let mut h: Vec<(String, String)> = Vec::new();
        match self {
            RangeOutcome::Full => {
                h.push((String::from_str("Content-Length"), decimal_text(total_size)));
            },
            RangeOutcome::WholeFallback => {},
            RangeOutcome::Partial(w) => {
                h.push((String::from_str("Connection"), String::from_str("Keep-Alive")));
                h.push((String::from_str("Accept-Ranges"), String::from_str("bytes")));
                h.push((String::from_str("Content-Length"), decimal_text(w.length)));
                h.push((String::from_str("Content-Range"), content_range(*w, total_size)));
            },
        }
        h
    }

    /// How many headers `headers` gives.
    pub open spec fn header_count(self) -> int {
        match self {
            RangeOutcome::Full => 1,
            RangeOutcome::WholeFallback => 0,
            RangeOutcome::Partial(_) => 4,
        }
    }
}

/// `bytes {start}-{last}/{total}`, where `last` is the window's final offset.
pub open spec fn content_range_of(w: ByteRange, total: u64) -> Seq<char> {
    "bytes "@ + decimal_of(w.start as nat) + "-"@ + decimal_of((w.start + w.length - 1) as nat)
        + "/"@ + decimal_of(total as nat)
}

/// The value of the `Content-Range` header for a window.
pub fn content_range(w: ByteRange, total_size: u64) -> (s: String)
    requires
        w.fits(total_size),
    ensures
        s@ == content_range_of(w, total_size),
{
    let last = w.start + w.length - 1;
    let mut s = String::from_str("bytes ");
    s.append(decimal_text(w.start).as_str());
    s.append("-");
    s.append(decimal_text(last).as_str());
    s.append("/");
    s.append(decimal_text(total_size).as_str());
    s
}

} // verus!
