use vstd::prelude::*;
use vstd::string::StrSliceExecFns;

verus! {

/// What `str::to_lowercase` gives for a text.
pub uninterp spec fn lower_of(s: Seq<char>) -> Seq<char>;

/// Relies on `str::to_lowercase`: the lowercase form depends on the text
/// alone, and an empty text stays empty.
#[verifier::external_body]
fn lowercase(s: &str) -> (r: String)
    ensures
        r@ == lower_of(s@),
        s@.len() == 0 ==> r@.len() == 0,
{
    s.to_lowercase()
}

/// The extensions of the image formats that are listed, in lowercase.
pub open spec fn allowed_ext(e: Seq<char>) -> bool {
    e == "png"@ || e == "jpg"@ || e == "jpeg"@ || e == "bmp"@ || e == "webp"@
}

/// Whether a file of this extension is listed: it is one of the allowed
/// extensions, ignoring case.
pub open spec fn image_ext(e: Seq<char>) -> bool {
    allowed_ext(lower_of(e))
}

/// The two texts are equal.
pub fn same_text(a: &str, b: &str) -> (r: bool)
    ensures
        r == (a@ == b@),
{
    let n = a.unicode_len();
    if n != b.unicode_len() {
        return false;
    }
    let mut i: usize = 0;
    while i < n
        invariant
            n == a@.len(),
            n == b@.len(),
            i <= n,
            forall|k: int| 0 <= k < i ==> a@[k] == b@[k],
        decreases n - i,
    {
        if a.get_char(i) != b.get_char(i) {
            return false;
        }
        i = i + 1;
    }
    assert(a@ =~= b@);
    true
}

/// Whether an extension already in lowercase is one of the allowed ones.
pub fn is_allowed_lowered(e: &str) -> (r: bool)
    ensures
        r == allowed_ext(e@),
{
    same_text(e, "png") || same_text(e, "jpg") || same_text(e, "jpeg") || same_text(e, "bmp")
        || same_text(e, "webp")
}

/// Whether a file of this extension is listed, ignoring case.
pub fn is_img_extension(extension: &str) -> (r: bool)
    ensures
        r == image_ext(extension@),
{
    let lowered = lowercase(extension);
    is_allowed_lowered(lowered.as_str())
}

/// The extension of a file name: what follows its last `.`, or nothing when
/// it has no `.` but a leading one.
pub open spec fn extension_of(name: Seq<char>) -> Seq<char> {
    if exists|k: int| 0 < k < name.len() && name[k] == '.' {
        let k = choose|k: int| 0 < k < name.len() && name[k] == '.' && (forall|m: int| k < m < name.len() ==> name[m] != '.');
        name.subrange(k + 1, name.len() as int)
    } else {
        Seq::empty()
    }
}

/// Whether a file name is listed: its extension is an allowed one.
pub open spec fn image_name(name: Seq<char>) -> bool {
    image_ext(extension_of(name))
}

/// The extension of a file name, empty where it has none.
pub fn extension(name: &str) -> (r: &str)
    ensures
        r@ == extension_of(name@),
{
    let n = name.unicode_len();
    let mut k: usize = n;
    while k > 1
        invariant
            n == name@.len(),
            k <= n,
            forall|m: int| k <= m < n && m >= 1 ==> name@[m] != '.',
        decreases k,
    {
        if name.get_char(k - 1) == '.' {
            let ghost kk = (k - 1) as int;
            assert(forall|m: int| kk < m < name@.len() ==> name@[m] != '.');
            assert(0 < kk < name@.len() && name@[kk] == '.');
            let r = name.substring_char(k, n);
            proof {
                let c = choose|c: int| 0 < c < name@.len() && name@[c] == '.' && (forall|m: int| c < m < name@.len() ==> name@[m] != '.');
                if c < kk {
                    assert(name@[kk] != '.');
                } else if c > kk {
                    assert(name@[c] != '.');
                }
            }
            return r;
        }
        k = k - 1;
    }
    assert(!(exists|c: int| 0 < c < name@.len() && name@[c] == '.'));
    name.substring_char(0, 0)
}

/// Whether a file name is listed.
pub fn is_image_name(name: &str) -> (r: bool)
    ensures
        r == image_name(name@),
{
    is_img_extension(extension(name))
}

} // verus!
