use vstd::prelude::*;
use vstd::string::StrSliceExecFns;

verus! {

/// The value of a character of the standard base64 alphabet.
pub open spec fn sextet(c: char) -> Option<u32> {
    let u = c as u32;
    if 65 <= u <= 90 {
        Some((u - 65) as u32)
    } else if 97 <= u <= 122 {
        Some((u - 71) as u32)
    } else if 48 <= u <= 57 {
        Some((u + 4) as u32)
    } else if u == 43 {
        Some(62)
    } else if u == 47 {
        Some(63)
    } else {
        None
    }
}

/// The character of the standard base64 alphabet for a value below 64.
pub open spec fn alphabet(v: u32) -> char {
    if v < 26 {
        (v + 65) as char
    } else if v < 52 {
        (v + 71) as char
    } else if v < 62 {
        (v - 4) as char
    } else if v == 62 {
        '+'
    } else {
        '/'
    }
}

/// The value of the character at `i`, which is in the alphabet.
pub open spec fn sx(s: Seq<char>, i: int) -> u32 {
    sextet(s[i])->Some_0
}

/// The first byte of a group: six bits of the first character, two of the second.
pub open spec fn byte0(a: u32, b: u32) -> u8 {
    ((a << 2u32) | (b >> 4u32)) as u8
}

/// The second byte of a group.
pub open spec fn byte1(b: u32, c: u32) -> u8 {
    (((b & 15u32) << 4u32) | (c >> 2u32)) as u8
}

/// The third byte of a group.
pub open spec fn byte2(c: u32, d: u32) -> u8 {
    (((c & 3u32) << 6u32) | d) as u8
}

/// The bytes a text of base64 without padding spells, where it is one: every
/// four characters give three bytes, a final two or three give one or two, and
/// the bits left over at the end are zero.
pub open spec fn base64_decoded(s: Seq<char>) -> Option<Seq<u8>>
    decreases s.len(),
{
    if s.len() == 0 {
        Some(Seq::empty())
    } else if s.len() == 1 || sextet(s[0]) is None || sextet(s[1]) is None {
        None
    } else if s.len() == 2 {
        if sx(s, 1) & 15u32 == 0 {
            Some(seq![byte0(sx(s, 0), sx(s, 1))])
        } else {
            None
        }
    } else if sextet(s[2]) is None {
        None
    } else if s.len() == 3 {
        if sx(s, 2) & 3u32 == 0 {
            Some(seq![byte0(sx(s, 0), sx(s, 1)), byte1(sx(s, 1), sx(s, 2))])
        } else {
            None
        }
    } else if sextet(s[3]) is None {
        None
    } else {
        match base64_decoded(s.subrange(4, s.len() as int)) {
            Some(t) => Some(
                seq![byte0(sx(s, 0), sx(s, 1)), byte1(sx(s, 1), sx(s, 2)), byte2(sx(s, 2), sx(s, 3))]
                    + t,
            ),
            None => None,
        }
    }
}

/// The base64 text, without padding, of some bytes.
pub open spec fn base64_encoded(b: Seq<u8>) -> Seq<char>
    decreases b.len(),
{
    if b.len() == 0 {
        Seq::empty()
    } else if b.len() == 1 {
        let x = b[0] as u32;
        seq![alphabet(x >> 2u32), alphabet((x & 3u32) << 4u32)]
    } else if b.len() == 2 {
        let x = b[0] as u32;
        let y = b[1] as u32;
        seq![
            alphabet(x >> 2u32),
            alphabet(((x & 3u32) << 4u32) | (y >> 4u32)),
            alphabet((y & 15u32) << 2u32),
        ]
    } else {
        let x = b[0] as u32;
        let y = b[1] as u32;
        let z = b[2] as u32;
        seq![
            alphabet(x >> 2u32),
            alphabet(((x & 3u32) << 4u32) | (y >> 4u32)),
            alphabet(((y & 15u32) << 2u32) | (z >> 6u32)),
            alphabet(z & 63u32),
        ] + base64_encoded(b.subrange(3, b.len() as int))
    }
}

/// The value of a character, where it is in the alphabet.
fn sextet_of(c: char) -> (r: Option<u32>)
    ensures
        r == sextet(c),
{
    let u = c as u32;
    if 65 <= u && u <= 90 {
        Some(u - 65)
    } else if 97 <= u && u <= 122 {
        Some(u - 71)
    } else if 48 <= u && u <= 57 {
        Some(u + 4)
    } else if u == 43 {
        Some(62)
    } else if u == 47 {
        Some(63)
    } else {
        None
    }
}

/// `o` followed by what `t` holds, where it holds something.
pub open spec fn after(o: Seq<u8>, t: Option<Seq<u8>>) -> Option<Seq<u8>> {
    match t {
        Some(t) => Some(o + t),
        None => None,
    }
}

/// The view of an optional byte vector.
pub open spec fn bytes_view(r: Option<Vec<u8>>) -> Option<Seq<u8>> {
    match r {
        Some(v) => Some(v@),
        None => None,
    }
}

/// Decodes base64 without padding, refusing text that is not such.
pub fn decode_base64(s: &str) -> (r: Option<Vec<u8>>)
    ensures
        bytes_view(r) == base64_decoded(s@),
{
    let n = s.unicode_len();
    let mut out: Vec<u8> = Vec::new();
    let mut i: usize = 0;
    proof {
        assert(s@.subrange(0, n as int) =~= s@);
        match base64_decoded(s@) {
            Some(t) => assert(out@ + t =~= t),
            None => {},
        }
    }
    while i < n
        invariant
            n == s@.len(),
            i <= n,
            base64_decoded(s@) == after(out@, base64_decoded(s@.subrange(i as int, n as int))),
        decreases n - i,
    {
        let ghost rest = s@.subrange(i as int, n as int);
        assert(rest.len() == n - i);
        if n - i == 1 {
            return None;
        }
        let a = match sextet_of(s.get_char(i)) {
            Some(v) => v,
            None => {
                assert(rest[0] == s@[i as int]);
                return None;
            },
        };
        let b = match sextet_of(s.get_char(i + 1)) {
            Some(v) => v,
            None => {
                assert(rest[1] == s@[i + 1]);
                return None;
            },
        };
        assert(rest[0] == s@[i as int] && rest[1] == s@[i + 1]);
        if n - i == 2 {
            if b & 15 != 0 {
                return None;
            }
            out.push(((a << 2) | (b >> 4)) as u8);
            proof {
                assert(s@.subrange(n as int, n as int) =~= Seq::<char>::empty());
            }
            return Some(out);
        }
        let c = match sextet_of(s.get_char(i + 2)) {
            Some(v) => v,
            None => {
                assert(rest[2] == s@[i + 2]);
                return None;
            },
        };
        assert(rest[2] == s@[i + 2]);
        if n - i == 3 {
            if c & 3 != 0 {
                return None;
            }
            out.push(((a << 2) | (b >> 4)) as u8);
            out.push((((b & 15) << 4) | (c >> 2)) as u8);
            return Some(out);
        }
        let d = match sextet_of(s.get_char(i + 3)) {
            Some(v) => v,
            None => {
                assert(rest[3] == s@[i + 3]);
                return None;
            },
        };
        assert(rest[3] == s@[i + 3]);
        let ghost before = out@;
        out.push(((a << 2) | (b >> 4)) as u8);
        out.push((((b & 15) << 4) | (c >> 2)) as u8);
        out.push((((c & 3) << 6) | d) as u8);
        proof {
            assert(rest.subrange(4, rest.len() as int) =~= s@.subrange(i + 4, n as int));
            assert(out@ =~= before + seq![byte0(a, b), byte1(b, c), byte2(c, d)]);
            match base64_decoded(s@.subrange(i + 4, n as int)) {
                Some(t) => {
                    assert(before + (seq![byte0(a, b), byte1(b, c), byte2(c, d)] + t) =~= out@ + t);
                },
                None => {},
            }
        }
        i = i + 4;
    }
    proof {
        assert(s@.subrange(n as int, n as int) =~= Seq::<char>::empty());
        assert(out@ + Seq::<u8>::empty() =~= out@);
    }
    Some(out)
}

proof fn lemma_alphabet(v: u32)
    requires
        v < 64,
    ensures
        sextet(alphabet(v)) == Some(v),
{
}

proof fn lemma_group3(x: u32, y: u32, z: u32)
    by (bit_vector)
    requires
        x < 256,
        y < 256,
        z < 256,
    ensures
        x >> 2u32 < 64,
        ((x & 3u32) << 4u32) | (y >> 4u32) < 64,
        ((y & 15u32) << 2u32) | (z >> 6u32) < 64,
        z & 63u32 < 64,
        (((x >> 2u32) << 2u32) | ((((x & 3u32) << 4u32) | (y >> 4u32)) >> 4u32)) as u8 == x as u8,
        ((((((x & 3u32) << 4u32) | (y >> 4u32)) & 15u32) << 4u32) | ((((y & 15u32) << 2u32) | (z
            >> 6u32)) >> 2u32)) as u8 == y as u8,
        ((((((y & 15u32) << 2u32) | (z >> 6u32)) & 3u32) << 6u32) | (z & 63u32)) as u8 == z as u8,
{
}

proof fn lemma_group2(x: u32, y: u32)
    by (bit_vector)
    requires
        x < 256,
        y < 256,
    ensures
        x >> 2u32 < 64,
        ((x & 3u32) << 4u32) | (y >> 4u32) < 64,
        (y & 15u32) << 2u32 < 64,
        ((y & 15u32) << 2u32) & 3u32 == 0,
        (((x >> 2u32) << 2u32) | ((((x & 3u32) << 4u32) | (y >> 4u32)) >> 4u32)) as u8 == x as u8,
        ((((((x & 3u32) << 4u32) | (y >> 4u32)) & 15u32) << 4u32) | (((y & 15u32) << 2u32)
            >> 2u32)) as u8 == y as u8,
{
}

proof fn lemma_group1(x: u32)
    by (bit_vector)
    requires
        x < 256,
    ensures
        x >> 2u32 < 64,
        (x & 3u32) << 4u32 < 64,
        ((x & 3u32) << 4u32) & 15u32 == 0,
        (((x >> 2u32) << 2u32) | (((x & 3u32) << 4u32) >> 4u32)) as u8 == x as u8,
{
}

/// Decoding the base64 text of some bytes gives the bytes back.
pub proof fn lemma_base64_round_trip(b: Seq<u8>)
    ensures
        base64_decoded(base64_encoded(b)) == Some(b),
    decreases b.len(),
{
    let e = base64_encoded(b);
    if b.len() == 0 {
    } else if b.len() == 1 {
        let x = b[0] as u32;
        lemma_group1(x);
        lemma_alphabet(x >> 2u32);
        lemma_alphabet((x & 3u32) << 4u32);
        assert(x as u8 == b[0]);
        assert(base64_decoded(e) =~= Some(b));
    } else if b.len() == 2 {
        let x = b[0] as u32;
        let y = b[1] as u32;
        lemma_group2(x, y);
        lemma_alphabet(x >> 2u32);
        lemma_alphabet(((x & 3u32) << 4u32) | (y >> 4u32));
        lemma_alphabet((y & 15u32) << 2u32);
        assert(x as u8 == b[0] && y as u8 == b[1]);
        assert(seq![byte0(sx(e, 0), sx(e, 1)), byte1(sx(e, 1), sx(e, 2))] =~= b);
    } else {
        let x = b[0] as u32;
        let y = b[1] as u32;
        let z = b[2] as u32;
        let rest = b.subrange(3, b.len() as int);
        lemma_group3(x, y, z);
        lemma_alphabet(x >> 2u32);
        lemma_alphabet(((x & 3u32) << 4u32) | (y >> 4u32));
        lemma_alphabet(((y & 15u32) << 2u32) | (z >> 6u32));
        lemma_alphabet(z & 63u32);
        lemma_base64_round_trip(rest);
        assert(e.subrange(4, e.len() as int) =~= base64_encoded(rest));
        assert(x as u8 == b[0] && y as u8 == b[1] && z as u8 == b[2]);
        assert(seq![byte0(sx(e, 0), sx(e, 1)), byte1(sx(e, 1), sx(e, 2)), byte2(sx(e, 2), sx(e, 3))]
            + rest =~= b);
    }
}

} // verus!
