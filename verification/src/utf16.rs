use vstd::prelude::*;
use vstd::string::StringSliceAdditionalSpecFns;
use vstd::utf8::{
    decode_first_scalar, decode_utf8, decode_utf8_first_scalar, decode_utf8_split, encode_scalar,
    encode_utf8_valid_utf8, has_width_1_encoding, has_width_2_encoding, has_width_3_encoding,
    has_width_4_encoding, is_char_boundary, is_char_boundary_iff_not_is_continuation_byte,
    is_char_boundary_start_end_of_seq, is_continuation_byte, is_leading_byte_width_1,
    is_leading_byte_width_2, is_leading_byte_width_3, is_leading_byte_width_4,
    length_of_first_scalar, pop_first_scalar, take_first_scalar, valid_first_scalar, valid_utf8,
    valid_utf8_split,
};

verus! {

/// The number of UTF-16 code units the characters encode to: one per
/// scalar value below U+10000, two otherwise.
pub open spec fn utf16_len(chars: Seq<char>) -> int
    decreases chars.len(),
{
    if chars.len() == 0 {
        0
    } else {
        (if (chars[0] as u32) >= 0x10000 {
            2int
        } else {
            1int
        }) + utf16_len(chars.drop_first())
    }
}

/// UTF-16 length distributes over concatenation.
pub proof fn lemma_utf16_len_add(a: Seq<char>, b: Seq<char>)
    ensures
        utf16_len(a + b) == utf16_len(a) + utf16_len(b),
    decreases a.len(),
{
    if a.len() == 0 {
        assert(a + b =~= b);
    } else {
        assert((a + b).drop_first() =~= a.drop_first() + b);
        assert((a + b)[0] == a[0]);
        lemma_utf16_len_add(a.drop_first(), b);
    }
}

/// What the byte-offset conversion returns: when the offset lies on a
/// character boundary of the (valid UTF-8) bytes, the UTF-16 length of
/// the decoded prefix before it; otherwise, and past the end, the byte
/// offset unchanged.
pub open spec fn spec_to_utf16_offset(bytes: Seq<u8>, b: int) -> int {
    if 0 <= b <= bytes.len() && is_char_boundary(bytes, b) {
        utf16_len(decode_utf8(bytes.subrange(0, b)))
    } else {
        b
    }
}

/// Walking one scalar forward from a character boundary: the width read
/// off the leading byte is the scalar's byte length, the next boundary
/// sits right after it with none in between, and the decoded prefix
/// grows by one scalar worth one or two UTF-16 units (two exactly for a
/// four-byte scalar).
proof fn lemma_utf16_step(bytes: Seq<u8>, i: int)
    requires
        valid_utf8(bytes),
        is_char_boundary(bytes, i),
        0 <= i < bytes.len(),
    ensures
        ({
            let w = length_of_first_scalar(bytes.subrange(i, bytes.len() as int));
            &&& w == (if bytes[i] < 0x80 {
                1int
            } else if bytes[i] < 0xe0 {
                2int
            } else if bytes[i] < 0xf0 {
                3int
            } else {
                4int
            })
            &&& i + w <= bytes.len()
            &&& is_char_boundary(bytes, i + w)
            &&& forall|p: int| i < p < i + w ==> !is_char_boundary(bytes, p)
            &&& utf16_len(decode_utf8(bytes.subrange(0, i + w))) == utf16_len(
                decode_utf8(bytes.subrange(0, i)),
            ) + (if w == 4 {
                2int
            } else {
                1int
            })
        }),
{
    let n = bytes.len() as int;
    let suffix = bytes.subrange(i, n);
    valid_utf8_split(bytes, i);
    assert(valid_utf8(suffix));
    assert(suffix.len() > 0);
    assert(valid_first_scalar(suffix));
    let w = length_of_first_scalar(suffix);
    assert(suffix[0] == bytes[i]);

    // The width follows the leading byte's class; a continuation byte
    // cannot stand at a boundary.
    is_char_boundary_iff_not_is_continuation_byte(bytes, i);
    assert(!is_continuation_byte(bytes[i]));
    assert(1 <= w <= 4);
    assert(w == (if bytes[i] < 0x80 {
        1int
    } else if bytes[i] < 0xe0 {
        2int
    } else if bytes[i] < 0xf0 {
        3int
    } else {
        4int
    }));
    assert(i + w <= n);

    // The bytes after the leading byte, within the scalar, are
    // continuation bytes, so no boundary falls among them.
    assert forall|p: int| i < p < i + w implies !is_char_boundary(bytes, p) by {
        assert(is_continuation_byte(suffix[p - i]));
        assert(bytes[p] == suffix[p - i]);
        is_char_boundary_iff_not_is_continuation_byte(bytes, p);
    }

    // Right after the scalar there is a boundary again.
    let rest = pop_first_scalar(suffix);
    assert(rest =~= bytes.subrange(i + w, n));
    assert(valid_utf8(rest));
    if i + w == n {
        is_char_boundary_start_end_of_seq(bytes);
    } else {
        assert(rest.len() > 0);
        assert(valid_first_scalar(rest));
        assert(!is_continuation_byte(rest[0]));
        assert(rest[0] == bytes[i + w]);
        is_char_boundary_iff_not_is_continuation_byte(bytes, i + w);
    }

    // Split the longer prefix at the old boundary: it decodes to the
    // shorter prefix's characters plus the one new scalar.
    let prefix2 = bytes.subrange(0, i + w);
    valid_utf8_split(bytes, i + w);
    assert(valid_utf8(prefix2));
    assert(prefix2[i] == bytes[i]);
    is_char_boundary_iff_not_is_continuation_byte(prefix2, i);
    assert(is_char_boundary(prefix2, i));
    decode_utf8_split(prefix2, i);
    let scalar_bytes = prefix2.subrange(i, i + w);
    assert(prefix2.subrange(0, i) =~= bytes.subrange(0, i));
    assert(decode_utf8(prefix2) =~= decode_utf8(bytes.subrange(0, i)) + decode_utf8(scalar_bytes));
    valid_utf8_split(prefix2, i);
    assert(valid_utf8(scalar_bytes));

    // The one scalar decodes to a single character.
    assert(scalar_bytes =~= take_first_scalar(suffix));
    assert(scalar_bytes[0] == suffix[0]);
    assert(forall|k: int| 0 <= k < w ==> scalar_bytes[k] == suffix[k]);
    assert(length_of_first_scalar(scalar_bytes) == w);
    assert(decode_first_scalar(scalar_bytes) == decode_first_scalar(suffix));
    let c = decode_first_scalar(scalar_bytes) as char;
    assert(pop_first_scalar(scalar_bytes) =~= Seq::<u8>::empty());
    assert(valid_utf8(Seq::<u8>::empty()));
    assert(decode_utf8(Seq::<u8>::empty()) =~= Seq::<char>::empty());
    assert(decode_utf8(scalar_bytes) =~= seq![c] + decode_utf8(pop_first_scalar(scalar_bytes)));
    assert(seq![c] + Seq::<char>::empty() =~= seq![c]);
    assert(decode_utf8(scalar_bytes) =~= seq![c]);

    // One character is worth two UTF-16 units exactly when its scalar
    // value needs a four-byte encoding.
    decode_utf8_first_scalar(scalar_bytes);
    vstd::utf8::char_is_scalar(c);
    assert(encode_scalar(c as u32) =~= scalar_bytes);
    assert(encode_scalar(c as u32).len() == w);
    if (c as u32) >= 0x10000 {
        assert(!has_width_1_encoding(c as u32));
        assert(!has_width_2_encoding(c as u32));
        assert(!has_width_3_encoding(c as u32));
        assert(has_width_4_encoding(c as u32));
        assert(w == 4);
    } else {
        assert(!has_width_4_encoding(c as u32));
        assert(w != 4) by {
            if has_width_1_encoding(c as u32) {
                assert(encode_scalar(c as u32).len() == 1);
            } else if has_width_2_encoding(c as u32) {
                assert(encode_scalar(c as u32).len() == 2);
            } else {
                assert(has_width_3_encoding(c as u32));
                assert(encode_scalar(c as u32).len() == 3);
            }
        }
    }
    lemma_utf16_len_add(decode_utf8(bytes.subrange(0, i)), seq![c]);
    assert(seq![c].drop_first() =~= Seq::<char>::empty());
    assert(utf16_len(Seq::<char>::empty()) == 0);
    assert(seq![c][0] == c);
    assert(utf16_len(seq![c]) == (if (c as u32) >= 0x10000 {
        2int
    } else {
        1int
    }));
    assert(utf16_len(seq![c]) == (if w == 4 {
        2int
    } else {
        1int
    }));
}

/// Convert a byte offset into UTF-8 source text to the matching UTF-16
/// code-unit offset.  When the offset does not fall on a character
/// boundary, or lies past the end, it is returned unchanged.
pub fn to_utf16_offset(s: &str, byte_offset: usize) -> (r: usize)
    ensures
        r as int == spec_to_utf16_offset(s.spec_bytes(), byte_offset as int),
{
    let bytes = s.as_bytes();
    proof {
        encode_utf8_valid_utf8(s@);
        assert(valid_utf8(bytes@));
    }
    let n = bytes.len();
    if byte_offset > n {
        return byte_offset;
    }
    let mut i: usize = 0;
    let mut units: usize = 0;
    proof {
        is_char_boundary_start_end_of_seq(bytes@);
        assert(bytes@.subrange(0, 0) =~= Seq::<u8>::empty());
    }
    while i < byte_offset
        invariant
            bytes@ == s.spec_bytes(),
            valid_utf8(bytes@),
            i <= byte_offset <= n,
            n == bytes@.len(),
            is_char_boundary(bytes@, i as int),
            units as int == utf16_len(decode_utf8(bytes@.subrange(0, i as int))),
            units <= i,
        decreases byte_offset - i,
    {
        let b0 = bytes[i];
        proof {
            lemma_utf16_step(bytes@, i as int);
        }
        let w: usize;
        let u: usize;
        if b0 < 0x80 {
            w = 1;
            u = 1;
        } else if b0 < 0xe0 {
            w = 2;
            u = 1;
        } else if b0 < 0xf0 {
            w = 3;
            u = 1;
        } else {
            w = 4;
            u = 2;
        }
        proof {
            assert(w == length_of_first_scalar(bytes@.subrange(i as int, n as int)));
        }
        if byte_offset < i + w {
            proof {
                assert(!is_char_boundary(bytes@, byte_offset as int));
            }
            return byte_offset;
        }
        units = units + u;
        i = i + w;
    }
    units
}

/// For ASCII-only source the conversion is the identity: every byte is
/// its own character, worth one UTF-16 unit.
pub proof fn lemma_ascii_offsets(bytes: Seq<u8>, b: int)
    requires
        valid_utf8(bytes),
        0 <= b <= bytes.len(),
        forall|i: int| 0 <= i < bytes.len() ==> #[trigger] bytes[i] < 0x80,
    ensures
        spec_to_utf16_offset(bytes, b) == b,
    decreases b,
{
    if b == 0 {
        is_char_boundary_start_end_of_seq(bytes);
        assert(bytes.subrange(0, 0) =~= Seq::<u8>::empty());
    } else {
        lemma_ascii_offsets(bytes, b - 1);
        is_char_boundary_iff_not_is_continuation_byte(bytes, b - 1);
        assert(is_char_boundary(bytes, b - 1));
        lemma_utf16_step(bytes, b - 1);
        assert(length_of_first_scalar(bytes.subrange(b - 1, bytes.len() as int)) == 1);
        assert(is_char_boundary(bytes, b));
        assert(utf16_len(decode_utf8(bytes.subrange(0, b))) == b);
    }
}

/// A scalar above U+FFFF advances the byte offset by four but the
/// UTF-16 offset by only two.
pub proof fn lemma_supplementary_step(bytes: Seq<u8>, b: int)
    requires
        valid_utf8(bytes),
        0 <= b,
        b + 4 <= bytes.len(),
        is_char_boundary(bytes, b),
        is_leading_byte_width_4(bytes[b]),
    ensures
        spec_to_utf16_offset(bytes, b + 4) == spec_to_utf16_offset(bytes, b) + 2,
{
    lemma_utf16_step(bytes, b);
    assert(length_of_first_scalar(bytes.subrange(b, bytes.len() as int)) == 4);
}

} // verus!
