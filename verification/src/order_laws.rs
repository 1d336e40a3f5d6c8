//! The order of values as a whole: reversing the operands reverses it, it calls equal what is
//! equal, and it is that of the exact values for numbers and of the code points for strings.
use crate::compare::agree;
use crate::compare::bytes_order;
use crate::compare::same;
use crate::compare::value_order;
use crate::float::exact_order;
use crate::float::int_order;
use crate::float::law_exact_order;
use crate::float::Order;
use crate::heap::HeapView;
use crate::number::number;
use crate::value::Value;
use vstd::prelude::*;
use vstd::utf8::encode_scalar;
use vstd::utf8::encode_utf8;
use vstd::utf8::has_width_1_encoding;
use vstd::utf8::has_width_2_encoding;
use vstd::utf8::has_width_3_encoding;
use vstd::utf8::has_width_4_encoding;
use vstd::utf8::is_scalar;
use vstd::utf8::last_continuation_byte;
use vstd::utf8::leading_byte_width_1;
use vstd::utf8::leading_byte_width_2;
use vstd::utf8::leading_byte_width_3;
use vstd::utf8::leading_byte_width_4;
use vstd::utf8::second_last_continuation_byte;
use vstd::utf8::third_last_continuation_byte;

verus! {

/// The order of two texts by code points: that of the first ones that differ, else of the
/// lengths.
pub open spec fn text_order(a: Seq<char>, b: Seq<char>) -> Order
    decreases a.len(),
{
    if a.len() == 0 || b.len() == 0 {
        int_order(a.len() as int, b.len() as int)
    } else if a[0] != b[0] {
        int_order(a[0] as int, b[0] as int)
    } else {
        text_order(a.skip(1), b.skip(1))
    }
}

proof fn lemma_width_1(c: u32)
    by (bit_vector)
    requires
        has_width_1_encoding(c),
    ensures
        leading_byte_width_1(c) as u32 == c,
{
}

proof fn lemma_width_2(c: u32)
    by (bit_vector)
    requires
        has_width_2_encoding(c),
    ensures
        leading_byte_width_2(c) as u32 == 0xC0 + c / 64,
        last_continuation_byte(c) as u32 == 0x80 + c % 64,
{
}

proof fn lemma_width_3(c: u32)
    by (bit_vector)
    requires
        has_width_3_encoding(c),
    ensures
        leading_byte_width_3(c) as u32 == 0xE0 + c / 4096,
        second_last_continuation_byte(c) as u32 == 0x80 + (c / 64) % 64,
        last_continuation_byte(c) as u32 == 0x80 + c % 64,
{
}

proof fn lemma_width_4(c: u32)
    by (bit_vector)
    requires
        has_width_4_encoding(c),
    ensures
        leading_byte_width_4(c) as u32 == 0xF0 + c / 262144,
        third_last_continuation_byte(c) as u32 == 0x80 + (c / 4096) % 64,
        second_last_continuation_byte(c) as u32 == 0x80 + (c / 64) % 64,
        last_continuation_byte(c) as u32 == 0x80 + c % 64,
{
}

/// The first place where two byte strings differ decides.
proof fn lemma_first_difference(a: Seq<u8>, b: Seq<u8>, p: int)
    requires
        0 <= p < a.len(),
        p < b.len(),
        forall|i: int| 0 <= i < p ==> #[trigger] a[i] == b[i],
        a[p] != b[p],
    ensures
        bytes_order(a, b) == int_order(a[p] as int, b[p] as int),
    decreases p,
{
    if p > 0 {
        assert(a[0] == b[0]);
        assert forall|i: int| 0 <= i < p - 1 implies #[trigger] a.skip(1)[i] == b.skip(1)[i] by {
            assert(a[i + 1] == b[i + 1]);
        }
        lemma_first_difference(a.skip(1), b.skip(1), p - 1);
    }
}

/// What two byte strings begin with alike does not count.
proof fn lemma_common_start(e: Seq<u8>, x: Seq<u8>, y: Seq<u8>)
    ensures
        bytes_order(e + x, e + y) == bytes_order(x, y),
    decreases e.len(),
{
    if e.len() == 0 {
        assert(e + x =~= x);
        assert(e + y =~= y);
    } else {
        assert((e + x).skip(1) =~= e.skip(1) + x);
        assert((e + y).skip(1) =~= e.skip(1) + y);
        lemma_common_start(e.skip(1), x, y);
    }
}

/// The smaller of two code points has the smaller encoding, whatever follows.
proof fn lemma_scalar_order(c: u32, d: u32, x: Seq<u8>, y: Seq<u8>)
    requires
        is_scalar(c),
        is_scalar(d),
        c < d,
    ensures
        bytes_order(encode_scalar(c) + x, encode_scalar(d) + y) == Order::Less,
        bytes_order(encode_scalar(d) + y, encode_scalar(c) + x) == Order::Greater,
{
    let a = encode_scalar(c) + x;
    let b = encode_scalar(d) + y;
    if has_width_1_encoding(c) {
        lemma_width_1(c);
    } else if has_width_2_encoding(c) {
        lemma_width_2(c);
    } else if has_width_3_encoding(c) {
        lemma_width_3(c);
    } else {
        lemma_width_4(c);
    }
    if has_width_1_encoding(d) {
        lemma_width_1(d);
    } else if has_width_2_encoding(d) {
        lemma_width_2(d);
    } else if has_width_3_encoding(d) {
        lemma_width_3(d);
    } else {
        lemma_width_4(d);
    }
    let p: int = if a[0] != b[0] {
        0
    } else if a[1] != b[1] {
        1
    } else if a[2] != b[2] {
        2
    } else {
        3
    };
    if has_width_1_encoding(d) {
        assert(a[0] == c && b[0] == d);
    } else if has_width_2_encoding(d) {
        assert(b[0] == 0xC0 + d / 64);
        if has_width_2_encoding(c) {
            assert(a[0] == 0xC0 + c / 64);
            assert(a[1] == 0x80 + c % 64 && b[1] == 0x80 + d % 64);
        }
    } else if has_width_3_encoding(d) {
        assert(b[0] == 0xE0 + d / 4096);
        if has_width_3_encoding(c) {
            assert(a[0] == 0xE0 + c / 4096);
            assert(a[1] == 0x80 + (c / 64) % 64 && b[1] == 0x80 + (d / 64) % 64);
            assert(a[2] == 0x80 + c % 64 && b[2] == 0x80 + d % 64);
        }
    } else {
        assert(b[0] == 0xF0 + d / 262144);
        if has_width_4_encoding(c) {
            assert(a[0] == 0xF0 + c / 262144);
            assert(a[1] == 0x80 + (c / 4096) % 64 && b[1] == 0x80 + (d / 4096) % 64);
            assert(a[2] == 0x80 + (c / 64) % 64 && b[2] == 0x80 + (d / 64) % 64);
            assert(a[3] == 0x80 + c % 64 && b[3] == 0x80 + d % 64);
        }
    }
    lemma_first_difference(a, b, p);
    lemma_first_difference(b, a, p);
}

proof fn lemma_char(c: char)
    ensures
        (c as u32) as int == c as int,
        is_scalar(c as u32),
        encode_scalar(c as u32).len() > 0,
{
    vstd::utf8::char_is_scalar(c);
}

/// The byte order of encodings is the code point order of the texts.
proof fn lemma_bytes_follow_code_points(a: Seq<char>, b: Seq<char>)
    ensures
        bytes_order(encode_utf8(a), encode_utf8(b)) == text_order(a, b),
    decreases a.len(),
{
    if a.len() > 0 && b.len() > 0 {
        let (x, y) = (encode_utf8(a.drop_first()), encode_utf8(b.drop_first()));
        assert(a.drop_first() =~= a.skip(1));
        assert(b.drop_first() =~= b.skip(1));
        lemma_char(a[0]);
        lemma_char(b[0]);
        if a[0] == b[0] {
            lemma_common_start(encode_scalar(a[0] as u32), x, y);
            lemma_bytes_follow_code_points(a.skip(1), b.skip(1));
        } else if (a[0] as u32) < (b[0] as u32) {
            lemma_scalar_order(a[0] as u32, b[0] as u32, x, y);
        } else {
            lemma_scalar_order(b[0] as u32, a[0] as u32, y, x);
        }
    } else {
        if a.len() > 0 {
            lemma_char(a[0]);
        }
        if b.len() > 0 {
            lemma_char(b[0]);
        }
    }
}

proof fn lemma_text_order(a: Seq<char>, b: Seq<char>)
    ensures
        text_order(b, a) == text_order(a, b).reversed(),
        text_order(a, b) == Order::Equal <==> a == b,
    decreases a.len(),
{
    if a.len() > 0 && b.len() > 0 && a[0] == b[0] {
        lemma_text_order(a.skip(1), b.skip(1));
        if a.skip(1) == b.skip(1) {
            assert forall|i: int| 0 <= i < a.len() implies a[i] == b[i] by {
                if i > 0 {
                    assert(a[i] == a.skip(1)[i - 1]);
                    assert(b[i] == b.skip(1)[i - 1]);
                }
            }
            assert(a =~= b);
        }
    } else if a.len() == 0 && b.len() == 0 {
        assert(a =~= b);
    }
}

/// Two values have an order exactly if both are numbers and neither is a NaN, or both are
/// strings. Numbers are ordered by their exact values and strings by code points; reversing
/// the operands reverses the order, and it calls equal exactly what is equal.
pub proof fn law_order(h: HeapView, a: Value, b: Value)
    ensures
        value_order(h, a, b) is Some <==> (number(h, a) is Some && number(h, b) is Some
            && !(number(h, a)->0.exact() is Nan) && !(number(h, b)->0.exact() is Nan)) || (a is Str
            && b is Str),
        number(h, a) is Some && number(h, b) is Some ==> value_order(h, a, b) == exact_order(
            number(h, a)->0.exact(),
            number(h, b)->0.exact(),
        ),
        a is Str && b is Str ==> value_order(h, a, b) == Some(
            text_order(h.text(a->Str_0), h.text(b->Str_0)),
        ),
        value_order(h, a, b) is Some ==> value_order(h, b, a) == Some(
            value_order(h, a, b)->0.reversed(),
        ),
        value_order(h, a, b) is Some ==> (value_order(h, a, b) == Some(Order::Equal) <==> same(
            h,
            a,
            b,
        )),
{
    if number(h, a) is Some && number(h, b) is Some {
        law_exact_order(number(h, a)->0.exact(), number(h, b)->0.exact());
        assert(agree(h, 0, a, b) == (number(h, a)->0.exact() == number(h, b)->0.exact()));
    } else if a is Str && b is Str {
        let (s, t) = (h.text(a->Str_0), h.text(b->Str_0));
        lemma_bytes_follow_code_points(s, t);
        lemma_bytes_follow_code_points(t, s);
        lemma_text_order(s, t);
        assert(agree(h, 0, a, b) == (s == t));
    }
}

} // verus!
