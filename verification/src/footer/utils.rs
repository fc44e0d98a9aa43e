use vstd::prelude::*;

verus! {

/// Whether a byte belongs to the base64 alphabet: letters, digits, `+`,
/// `/`, or the padding `=`.
pub open spec fn is_base64_chr_spec(c: u8) -> bool {
    (0x41 <= c <= 0x5a) || (0x61 <= c <= 0x7a) || (0x30 <= c <= 0x39) || c == 0x2b || c == 0x2f
        || c == 0x3d
}

/// Whether every byte belongs to the base64 alphabet.
pub open spec fn is_base64_seq(s: Seq<u8>) -> bool {
    forall|k: int| 0 <= k < s.len() ==> is_base64_chr_spec(#[trigger] s[k])
}

/// Whether one byte belongs to the base64 alphabet.
pub fn is_base64_chr(chr: u8) -> (r: bool)
    ensures
        r == is_base64_chr_spec(chr),
{
    (0x41 <= chr && chr <= 0x5a) || (0x61 <= chr && chr <= 0x7a) || (0x30 <= chr && chr <= 0x39)
        || chr == 0x2b || chr == 0x2f || chr == 0x3d
}

/// Whether every byte of the slice belongs to the base64 alphabet.
pub fn is_base64(s: &[u8]) -> (r: bool)
    ensures
        r == is_base64_seq(s@),
{
    let n = s.len();
    let mut i: usize = 0;
    while i < n
        invariant
            i <= n,
            n == s@.len(),
            forall|k: int| 0 <= k < i ==> is_base64_chr_spec(#[trigger] s@[k]),
        decreases n - i,
    {
        if !is_base64_chr(s[i]) {
            return false;
        }
        i = i + 1;
    }
    true
}

/// The leading run of UTF-16 little-endian code units that are non-zero
/// ASCII, taken as bytes; the run stops at the first unit that is not.
pub open spec fn ascii_utf16_prefix(d: Seq<u8>) -> Seq<u8>
    decreases d.len(),
{
    if d.len() < 2 {
        Seq::empty()
    } else if d[0] != 0 && d[0] < 0x80 && d[1] == 0 {
        seq![d[0]] + ascii_utf16_prefix(d.subrange(2, d.len() as int))
    } else {
        Seq::empty()
    }
}

/// Convert a UTF-16 little-endian string (within the ASCII range) to its
/// bytes, stopping at the first code unit outside that range.
pub fn from_ascii_utf16(data: &[u8]) -> (r: Vec<u8>)
    ensures
        r@ == ascii_utf16_prefix(data@),
{
    let n = data.len();
    let mut out: Vec<u8> = Vec::new();
    let mut i: usize = 0;
    proof {
        assert(data@.subrange(0, n as int) =~= data@);
        assert(out@ + ascii_utf16_prefix(data@) =~= ascii_utf16_prefix(data@));
    }
    while i < n && i + 1 < n
        invariant
            i <= n,
            n == data@.len(),
            ascii_utf16_prefix(data@) == out@ + ascii_utf16_prefix(
                data@.subrange(i as int, n as int),
            ),
        decreases n - i,
    {
        let ghost rest = data@.subrange(i as int, n as int);
        proof {
            assert(rest.subrange(2, rest.len() as int) =~= data@.subrange(i as int + 2, n as int));
        }
        if data[i] != 0 && data[i] < 0x80 && data[i + 1] == 0 {
            let ghost out_old = out@;
            out.push(data[i]);
            proof {
                assert(rest[0] == data@[i as int] && rest[1] == data@[i as int + 1]);
                assert(out@ =~= out_old + seq![data@[i as int]]);
                assert(out_old + ascii_utf16_prefix(rest) =~= out@ + ascii_utf16_prefix(
                    data@.subrange(i as int + 2, n as int),
                ));
            }
            i = i + 2;
        } else {
            proof {
                assert(ascii_utf16_prefix(rest) =~= Seq::<u8>::empty());
                assert(out@ + ascii_utf16_prefix(rest) =~= out@);
            }
            return out;
        }
    }
    proof {
        let rest = data@.subrange(i as int, n as int);
        assert(ascii_utf16_prefix(rest) =~= Seq::<u8>::empty());
        assert(out@ + ascii_utf16_prefix(rest) =~= out@);
    }
    out
}

} // verus!
