//! Lexical utilities on qualified names.

use vstd::prelude::*;

use crate::str_range;

verus! {

use vstd::string::StringSliceAdditionalSpecFns;
use vstd::utf8::is_char_boundary;

/// How a lexical name decomposes with respect to a namespace prefix: not a
/// usable name at all, a bare local name, or a `prefix:local` pair whose
/// two parts are both non-empty.
pub enum QNameCategory<'a> {
    NoName,
    UnprefixedName(&'a str),
    PrefixedName(&'a str, &'a str),
}

/// The position of the first colon in `bytes`, or their length when there
/// is none. `58` is the UTF-8 byte of `:`.
pub open spec fn first_colon(bytes: Seq<u8>) -> int
    decreases bytes.len(),
{
    if bytes.len() == 0 {
        0
    } else if bytes[0] == 58u8 {
        0
    } else {
        1 + first_colon(bytes.subrange(1, bytes.len() as int))
    }
}

/// `first_colon` is the index of the first colon: nothing before it is a
/// colon, and it is one unless it is the whole length.
proof fn lemma_first_colon_at(bytes: Seq<u8>, i: int)
    requires
        0 <= i <= bytes.len(),
        forall|j: int| 0 <= j < i ==> bytes[j] != 58u8,
        i < bytes.len() ==> bytes[i] == 58u8,
    ensures
        first_colon(bytes) == i,
    decreases i,
{
    if bytes.len() == 0 {
    } else if i == 0 {
    } else {
        let tail = bytes.subrange(1, bytes.len() as int);
        assert(forall|j: int| 0 <= j < i - 1 ==> tail[j] != 58u8);
        lemma_first_colon_at(tail, i - 1);
    }
}

/// A byte position right after a one-byte character is a character
/// boundary.
proof fn lemma_boundary_after_ascii(bytes: Seq<u8>, i: int)
    requires
        vstd::utf8::valid_utf8(bytes),
        0 <= i < bytes.len(),
        is_char_boundary(bytes, i),
        bytes[i] < 128,
    ensures
        is_char_boundary(bytes, i + 1),
{
    vstd::utf8::valid_utf8_split(bytes, i);
    let suffix = bytes.subrange(i, bytes.len() as int);
    assert(vstd::utf8::valid_utf8(suffix));
    assert(suffix[0] == bytes[i]);
    let b0: u8 = suffix[0];
    assert(vstd::utf8::is_leading_byte_width_1(b0)) by (bit_vector)
        requires
            b0 < 128,
    ;
    assert(vstd::utf8::length_of_first_scalar(suffix) == 1);
    assert(is_char_boundary(suffix, 1)) by {
        assert(is_char_boundary(vstd::utf8::pop_first_scalar(suffix), 0));
    }
    if i + 1 == bytes.len() {
        vstd::utf8::is_char_boundary_start_end_of_seq(bytes);
    } else {
        assert(suffix[1] == bytes[i + 1]);
        vstd::utf8::is_char_boundary_iff_not_is_continuation_byte(suffix, 1);
        vstd::utf8::is_char_boundary_iff_not_is_continuation_byte(bytes, i + 1);
    }
}

/// Whether the bytes decompose as `prefix:local` with both parts
/// non-empty: the first colon lies strictly inside the name.
pub open spec fn splits_as_prefixed(bytes: Seq<u8>) -> bool {
    0 < first_colon(bytes) < bytes.len() - 1
}

/// Classify a lexical name. An empty name, or one whose first colon would
/// leave an empty prefix or an empty local part, is no usable name; a name
/// without a colon is a bare local name; anything else splits at its first
/// colon into a non-empty prefix and a non-empty local part.
pub fn classify_qname(s: &str) -> (r: QNameCategory<'_>)
    ensures
        r is NoName <==> {
            ||| s.spec_bytes().len() == 0
            ||| first_colon(s.spec_bytes()) == 0
            ||| first_colon(s.spec_bytes()) == s.spec_bytes().len() - 1
        },
        r is UnprefixedName <==> s.spec_bytes().len() > 0 && first_colon(s.spec_bytes())
            == s.spec_bytes().len(),
        r matches QNameCategory::UnprefixedName(t) ==> t.spec_bytes() == s.spec_bytes(),
        r is PrefixedName <==> splits_as_prefixed(s.spec_bytes()),
        r matches QNameCategory::PrefixedName(p, l) ==> {
            &&& p.spec_bytes() == s.spec_bytes().subrange(0, first_colon(s.spec_bytes()))
            &&& l.spec_bytes() == s.spec_bytes().subrange(
                first_colon(s.spec_bytes()) + 1,
                s.spec_bytes().len() as int,
            )
            &&& p.spec_bytes().len() > 0
            &&& l.spec_bytes().len() > 0
        },
{
    broadcast use vstd::utf8::encode_utf8_valid_utf8;

    let bs = s.as_bytes();
    if bs.len() == 0 {
        return QNameCategory::NoName;
    }
    let mut i: usize = 0;
    #[verifier::loop_isolation(false)]
    while i < bs.len()
        invariant
            i <= bs@.len(),
            forall|j: int| 0 <= j < i ==> bs@[j] != 58u8,
        decreases bs@.len() - i,
    {
        if bs[i] == 58u8 {
            proof {
                lemma_first_colon_at(s.spec_bytes(), i as int);
            }
            if i == 0 || i + 1 == bs.len() {
                return QNameCategory::NoName;
            }
            proof {
                assert(vstd::utf8::valid_utf8(s.spec_bytes()));
                vstd::utf8::is_char_boundary_start_end_of_seq(s.spec_bytes());
                vstd::utf8::is_char_boundary_iff_not_is_continuation_byte(
                    s.spec_bytes(),
                    i as int,
                );
                lemma_boundary_after_ascii(s.spec_bytes(), i as int);
            }
            let p = match str_range(s, 0, i) {
                Ok(p) => p,
                Err(_) => vstd::pervasive::unreached(),
            };
            let l = match str_range(s, i + 1, bs.len()) {
                Ok(l) => l,
                Err(_) => vstd::pervasive::unreached(),
            };
            return QNameCategory::PrefixedName(p, l);
        }
        i = i + 1;
    }
    proof {
        lemma_first_colon_at(s.spec_bytes(), s.spec_bytes().len() as int);
    }
    QNameCategory::UnprefixedName(s)
}

} // verus!
