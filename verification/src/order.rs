//! The order of item keys.
//!
//! Keys are ordered lexicographically by their characters: the first
//! character at which two keys differ decides, the character with the
//! smaller Unicode scalar value first; a key that is a proper prefix of
//! another comes first. This is the order of the keys' UTF-8 bytes, which is
//! how two keys are compared.

use vstd::prelude::*;
use vstd::string::*;
use vstd::utf8::*;

verus! {

/// Strict lexicographic order on byte sequences.
pub open spec fn bytes_lt(a: Seq<u8>, b: Seq<u8>) -> bool
    decreases a.len(),
{
    if b.len() == 0 {
        false
    } else if a.len() == 0 {
        true
    } else if a[0] != b[0] {
        a[0] < b[0]
    } else {
        bytes_lt(a.drop_first(), b.drop_first())
    }
}

/// `a` sorts strictly before `b`.
pub open spec fn key_lt(a: Seq<char>, b: Seq<char>) -> bool
    decreases a.len(),
{
    if b.len() == 0 {
        false
    } else if a.len() == 0 {
        true
    } else if a[0] != b[0] {
        (a[0] as u32) < (b[0] as u32)
    } else {
        key_lt(a.drop_first(), b.drop_first())
    }
}

/// No byte sequence sorts before itself.
pub proof fn lemma_bytes_lt_irreflexive(a: Seq<u8>)
    ensures
        !bytes_lt(a, a),
    decreases a.len(),
{
    if a.len() > 0 {
        lemma_bytes_lt_irreflexive(a.drop_first());
    }
}

/// The byte order is transitive.
pub proof fn lemma_bytes_lt_transitive(a: Seq<u8>, b: Seq<u8>, c: Seq<u8>)
    requires
        bytes_lt(a, b),
        bytes_lt(b, c),
    ensures
        bytes_lt(a, c),
    decreases a.len(),
{
    if a.len() > 0 && a[0] == b[0] && b[0] == c[0] {
        lemma_bytes_lt_transitive(a.drop_first(), b.drop_first(), c.drop_first());
    }
}

/// Of two different byte sequences one sorts before the other.
pub proof fn lemma_bytes_lt_connected(a: Seq<u8>, b: Seq<u8>)
    ensures
        bytes_lt(a, b) || a == b || bytes_lt(b, a),
    decreases a.len(),
{
    if a.len() > 0 && b.len() > 0 && a[0] == b[0] {
        lemma_bytes_lt_connected(a.drop_first(), b.drop_first());
        if a.drop_first() == b.drop_first() {
            assert(a =~= seq![a[0]] + a.drop_first());
        }
    }
}

/// A common prefix does not bear on the order of two byte sequences.
proof fn lemma_bytes_lt_skip_prefix(a: Seq<u8>, b: Seq<u8>, n: int)
    requires
        0 <= n <= a.len(),
        n <= b.len(),
        forall|j: int| 0 <= j < n ==> a[j] == b[j],
    ensures
        bytes_lt(a, b) == bytes_lt(a.skip(n), b.skip(n)),
    decreases n,
{
    if n == 0 {
        assert(a.skip(0) =~= a);
        assert(b.skip(0) =~= b);
    } else {
        let a1 = a.drop_first();
        let b1 = b.drop_first();
        assert forall|j: int| 0 <= j < n - 1 implies a1[j] == b1[j] by {}
        lemma_bytes_lt_skip_prefix(a1, b1, n - 1);
        assert(a1.skip(n - 1) =~= a.skip(n));
        assert(b1.skip(n - 1) =~= b.skip(n));
    }
}

/// Where two byte sequences agree on their first `n` bytes, the order is
/// decided at position `n`: by the bytes there, or by which sequence ends.
pub proof fn lemma_bytes_lt_decided_at(a: Seq<u8>, b: Seq<u8>, n: int)
    requires
        0 <= n <= a.len(),
        n <= b.len(),
        forall|j: int| 0 <= j < n ==> a[j] == b[j],
        n == a.len() || n == b.len() || a[n] != b[n],
    ensures
        bytes_lt(a, b) == (n < b.len() && (n == a.len() || a[n] < b[n])),
{
    lemma_bytes_lt_skip_prefix(a, b, n);
}

/// Two keys with the same UTF-8 bytes are the same key.
pub proof fn lemma_encoding_injective(a: Seq<char>, b: Seq<char>)
    requires
        encode_utf8(a) == encode_utf8(b),
    ensures
        a == b,
{
    encode_utf8_decode_utf8(a);
    encode_utf8_decode_utf8(b);
}

/// The first byte of an encoding tells its length: the first bytes of
/// shorter encodings are smaller.
proof fn lemma_first_byte_ranges(c: u32)
    by (bit_vector)
    ensures
        has_width_1_encoding(c) ==> leading_byte_width_1(c) <= 0x7F,
        has_width_2_encoding(c) ==> 0xC0 <= leading_byte_width_2(c) <= 0xDF,
        has_width_3_encoding(c) ==> 0xE0 <= leading_byte_width_3(c) <= 0xEF,
        has_width_4_encoding(c) ==> 0xF0 <= leading_byte_width_4(c) <= 0xF7,
{
}

/// Of two scalars with one byte, the smaller has the smaller byte.
proof fn lemma_width_1_ascends(c: u32, d: u32)
    by (bit_vector)
    requires
        c < d,
        has_width_1_encoding(c),
        has_width_1_encoding(d),
    ensures
        leading_byte_width_1(c) < leading_byte_width_1(d),
{
}

/// Of two scalars with two bytes, the smaller has the smaller byte where
/// their bytes first differ.
proof fn lemma_width_2_ascends(c: u32, d: u32)
    by (bit_vector)
    requires
        c < d,
        has_width_2_encoding(c),
        has_width_2_encoding(d),
    ensures
        ({
            ||| leading_byte_width_2(c) < leading_byte_width_2(d)
            ||| leading_byte_width_2(c) == leading_byte_width_2(d) && last_continuation_byte(c)
                < last_continuation_byte(d)
        }),
{
}

/// Of two scalars with three bytes, the smaller has the smaller byte where
/// their bytes first differ.
proof fn lemma_width_3_ascends(c: u32, d: u32)
    by (bit_vector)
    requires
        c < d,
        has_width_3_encoding(c),
        has_width_3_encoding(d),
    ensures
        ({
            ||| leading_byte_width_3(c) < leading_byte_width_3(d)
            ||| leading_byte_width_3(c) == leading_byte_width_3(d)
                && second_last_continuation_byte(c) < second_last_continuation_byte(d)
            ||| leading_byte_width_3(c) == leading_byte_width_3(d)
                && second_last_continuation_byte(c) == second_last_continuation_byte(d)
                && last_continuation_byte(c) < last_continuation_byte(d)
        }),
{
}

/// Of two scalars with four bytes, the smaller has the smaller byte where
/// their bytes first differ.
proof fn lemma_width_4_ascends(c: u32, d: u32)
    by (bit_vector)
    requires
        c < d,
        has_width_4_encoding(c),
        has_width_4_encoding(d),
    ensures
        ({
            ||| leading_byte_width_4(c) < leading_byte_width_4(d)
            ||| leading_byte_width_4(c) == leading_byte_width_4(d)
                && third_last_continuation_byte(c) < third_last_continuation_byte(d)
            ||| leading_byte_width_4(c) == leading_byte_width_4(d)
                && third_last_continuation_byte(c) == third_last_continuation_byte(d)
                && second_last_continuation_byte(c) < second_last_continuation_byte(d)
            ||| leading_byte_width_4(c) == leading_byte_width_4(d)
                && third_last_continuation_byte(c) == third_last_continuation_byte(d)
                && second_last_continuation_byte(c) == second_last_continuation_byte(d)
                && last_continuation_byte(c) < last_continuation_byte(d)
        }),
{
}

/// The encodings of two scalars differ at a byte that both have, and the
/// smaller scalar has the smaller byte there.
proof fn lemma_scalar_encoding_ascends(c: u32, d: u32) -> (n: int)
    requires
        c < d,
        is_scalar(c),
        is_scalar(d),
    ensures
        0 <= n < encode_scalar(c).len(),
        n < encode_scalar(d).len(),
        forall|j: int| 0 <= j < n ==> encode_scalar(c)[j] == encode_scalar(d)[j],
        encode_scalar(c)[n] < encode_scalar(d)[n],
{
    lemma_first_byte_ranges(c);
    lemma_first_byte_ranges(d);
    let x = encode_scalar(c);
    let y = encode_scalar(d);
    if has_width_1_encoding(d) {
        lemma_width_1_ascends(c, d);
        0
    } else if has_width_1_encoding(c) {
        0
    } else if has_width_2_encoding(d) {
        lemma_width_2_ascends(c, d);
        if x[0] < y[0] {
            0
        } else {
            1
        }
    } else if has_width_2_encoding(c) {
        0
    } else if has_width_3_encoding(d) {
        lemma_width_3_ascends(c, d);
        if x[0] < y[0] {
            0
        } else if x[1] < y[1] {
            1
        } else {
            2
        }
    } else if has_width_3_encoding(c) {
        0
    } else {
        lemma_width_4_ascends(c, d);
        if x[0] < y[0] {
            0
        } else if x[1] < y[1] {
            1
        } else if x[2] < y[2] {
            2
        } else {
            3
        }
    }
}

/// Where two keys begin with different characters, their bytes are ordered
/// as those characters are.
proof fn lemma_first_character_decides(a: Seq<char>, b: Seq<char>)
    requires
        a.len() > 0,
        b.len() > 0,
        (a[0] as u32) < (b[0] as u32),
    ensures
        bytes_lt(encode_utf8(a), encode_utf8(b)),
        !bytes_lt(encode_utf8(b), encode_utf8(a)),
{
    let c = a[0] as u32;
    let d = b[0] as u32;
    char_is_scalar(a[0]);
    char_is_scalar(b[0]);
    let n = lemma_scalar_encoding_ascends(c, d);
    let x = encode_utf8(a);
    let y = encode_utf8(b);
    assert forall|j: int| 0 <= j <= n implies x[j] == encode_scalar(c)[j] && y[j] == encode_scalar(
        d,
    )[j] by {}
    lemma_bytes_lt_decided_at(x, y, n);
    lemma_bytes_lt_decided_at(y, x, n);
}

/// The order of two keys is the order of their UTF-8 bytes.
pub proof fn lemma_key_lt_by_bytes(a: Seq<char>, b: Seq<char>)
    ensures
        key_lt(a, b) == bytes_lt(encode_utf8(a), encode_utf8(b)),
    decreases a.len(),
{
    if b.len() == 0 {
    } else if a.len() == 0 {
        char_is_scalar(b[0]);
    } else if a[0] != b[0] {
        if (a[0] as u32) < (b[0] as u32) {
            lemma_first_character_decides(a, b);
        } else {
            char_u32_cast(a[0], a[0] as u32);
            char_u32_cast(b[0], b[0] as u32);
            lemma_first_character_decides(b, a);
        }
    } else {
        let head = encode_scalar(a[0] as u32);
        let x = encode_utf8(a);
        let y = encode_utf8(b);
        assert forall|j: int| 0 <= j < head.len() implies x[j] == y[j] by {}
        lemma_bytes_lt_skip_prefix(x, y, head.len() as int);
        assert(x.skip(head.len() as int) =~= encode_utf8(a.drop_first()));
        assert(y.skip(head.len() as int) =~= encode_utf8(b.drop_first()));
        lemma_key_lt_by_bytes(a.drop_first(), b.drop_first());
    }
}

/// No key sorts before itself.
pub proof fn lemma_key_lt_irreflexive(a: Seq<char>)
    ensures
        !key_lt(a, a),
{
    lemma_key_lt_by_bytes(a, a);
    lemma_bytes_lt_irreflexive(encode_utf8(a));
}

/// The key order is transitive.
pub proof fn lemma_key_lt_transitive(a: Seq<char>, b: Seq<char>, c: Seq<char>)
    requires
        key_lt(a, b),
        key_lt(b, c),
    ensures
        key_lt(a, c),
{
    lemma_key_lt_by_bytes(a, b);
    lemma_key_lt_by_bytes(b, c);
    lemma_key_lt_by_bytes(a, c);
    lemma_bytes_lt_transitive(encode_utf8(a), encode_utf8(b), encode_utf8(c));
}

/// Two keys never sort before each other.
pub proof fn lemma_key_lt_asymmetric(a: Seq<char>, b: Seq<char>)
    requires
        key_lt(a, b),
    ensures
        !key_lt(b, a),
        a != b,
{
    if key_lt(b, a) {
        lemma_key_lt_transitive(a, b, a);
    }
    lemma_key_lt_irreflexive(a);
}

/// Of two different keys one sorts before the other.
pub proof fn lemma_key_lt_connected(a: Seq<char>, b: Seq<char>)
    ensures
        key_lt(a, b) || a == b || key_lt(b, a),
{
    lemma_key_lt_by_bytes(a, b);
    lemma_key_lt_by_bytes(b, a);
    lemma_bytes_lt_connected(encode_utf8(a), encode_utf8(b));
    if encode_utf8(a) == encode_utf8(b) {
        lemma_encoding_injective(a, b);
    }
}

/// How one key stands to another in the key order.
#[derive(Clone, Copy, Debug, PartialEq, Eq)]
pub enum KeyOrder {
    /// The first key sorts before the second.
    Before,
    /// The two keys are the same.
    Same,
    /// The first key sorts after the second.
    After,
}

/// Compares two keys, byte by byte.
pub fn key_order(a: &str, b: &str) -> (r: KeyOrder)
    ensures
        r is Before <==> key_lt(a@, b@),
        r is Same <==> a@ == b@,
        r is After <==> key_lt(b@, a@),
{
    let x = a.as_bytes();
    let y = b.as_bytes();
    let n = x.len();
    let m = y.len();
    let mut i: usize = 0;
    while i < n && i < m
        invariant
            i <= n,
            i <= m,
            n == x@.len(),
            m == y@.len(),
            x@ == encode_utf8(a@),
            y@ == encode_utf8(b@),
            forall|j: int| 0 <= j < i ==> x@[j] == y@[j],
        decreases n - i,
    {
        if x[i] != y[i] {
            proof {
                lemma_key_lt_by_bytes(a@, b@);
                lemma_key_lt_by_bytes(b@, a@);
                lemma_bytes_lt_decided_at(x@, y@, i as int);
                lemma_bytes_lt_decided_at(y@, x@, i as int);
            }
            if x[i] < y[i] {
                return KeyOrder::Before;
            } else {
                return KeyOrder::After;
            }
        }
        i += 1;
    }
    proof {
        lemma_key_lt_by_bytes(a@, b@);
        lemma_key_lt_by_bytes(b@, a@);
        lemma_bytes_lt_decided_at(x@, y@, i as int);
        lemma_bytes_lt_decided_at(y@, x@, i as int);
        if n == m {
            assert(x@ =~= y@);
            lemma_encoding_injective(a@, b@);
        }
    }
    if n < m {
        KeyOrder::Before
    } else if n > m {
        KeyOrder::After
    } else {
        KeyOrder::Same
    }
}

} // verus!
