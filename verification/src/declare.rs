//! GLSL text for the types and values a shader declares: type names and
//! literals.

use crate::vector::{IVec2, IVec3, IVec4, UVec2, UVec3, UVec4};
use vstd::prelude::*;

verus! {

/// The decimal digit `d`.
pub open spec fn digit(d: int) -> char {
    if d == 0 {
        '0'
    } else if d == 1 {
        '1'
    } else if d == 2 {
        '2'
    } else if d == 3 {
        '3'
    } else if d == 4 {
        '4'
    } else if d == 5 {
        '5'
    } else if d == 6 {
        '6'
    } else if d == 7 {
        '7'
    } else if d == 8 {
        '8'
    } else {
        '9'
    }
}

/// The decimal digits of `n`, without leading zeros.
pub open spec fn decimal(n: nat) -> Seq<char>
    decreases n,
{
    if n < 10 {
        seq![digit(n as int)]
    } else {
        decimal(n / 10).push(digit((n % 10) as int))
    }
}

/// The decimal text of `v`, with a minus sign when negative.
pub open spec fn int_text(v: int) -> Seq<char> {
    if v < 0 {
        seq!['-'] + decimal((-v) as nat)
    } else {
        decimal(v as nat)
    }
}

/// Whether `c` is one of the digits `0` to `9`.
pub open spec fn is_digit(c: char) -> bool {
    48 <= c as int <= 57
}

/// The number that digit character `c` stands for.
pub open spec fn digit_value(c: char) -> int {
    c as int - 48
}

/// The number that the digits `s` stand for, read in base 10.
pub open spec fn numeral_value(s: Seq<char>) -> int
    decreases s.len(),
{
    if s.len() == 0 {
        0
    } else {
        10 * numeral_value(s.drop_last()) + digit_value(s.last())
    }
}

/// Whether `s` is the usual base-10 numeral of `n`: one or more digits,
/// no leading zero unless the numeral is just `0`, read as `n`.
pub open spec fn is_numeral(s: Seq<char>, n: int) -> bool {
    &&& s.len() >= 1
    &&& forall|i: int| 0 <= i < s.len() ==> is_digit(#[trigger] s[i])
    &&& s.len() > 1 ==> s[0] != '0'
    &&& numeral_value(s) == n
}

/// The decimal text of `n` is the numeral of `n`: its digits, read in base
/// 10, give back `n`, and it has no leading zero.
pub proof fn lemma_decimal(n: nat)
    ensures
        is_numeral(decimal(n), n as int),
        n > 0 ==> decimal(n)[0] != '0',
    decreases n,
{
    if n < 10 {
        assert(decimal(n) =~= seq![digit(n as int)]);
        assert(seq![digit(n as int)].drop_last() =~= Seq::<char>::empty());
        assert(numeral_value(Seq::<char>::empty()) == 0);
        assert(digit_value(digit(n as int)) == n);
    } else {
        lemma_decimal(n / 10);
        let p = decimal(n / 10);
        assert(decimal(n) == p.push(digit((n % 10) as int)));
        assert(decimal(n).drop_last() =~= p);
        assert(decimal(n)[0] == p[0]);
        assert forall|i: int| 0 <= i < decimal(n).len() implies is_digit(#[trigger] decimal(n)[i]) by {
            if i < p.len() {
                assert(decimal(n)[i] == p[i]);
            }
        }
    }
}

/// Two numerals of the same number are the same text.
pub proof fn lemma_numeral_unique(s: Seq<char>, t: Seq<char>, n: int)
    requires
        is_numeral(s, n),
        is_numeral(t, n),
    ensures
        s == t,
    decreases s.len(),
{
    let sp = s.drop_last();
    let tp = t.drop_last();
    assert forall|i: int| 0 <= i < sp.len() implies is_digit(#[trigger] sp[i]) by {
        assert(sp[i] == s[i]);
    }
    assert forall|i: int| 0 <= i < tp.len() implies is_digit(#[trigger] tp[i]) by {
        assert(tp[i] == t[i]);
    }
    assert(is_digit(s[s.len() - 1]) && is_digit(t[t.len() - 1]));
    lemma_numeral_bounds(sp);
    lemma_numeral_bounds(tp);
    if s.len() > 1 {
        assert(sp[0] == s[0]);
        lemma_numeral_leading(sp);
    } else {
        assert(sp =~= Seq::<char>::empty());
    }
    if t.len() > 1 {
        assert(tp[0] == t[0]);
        lemma_numeral_leading(tp);
    } else {
        assert(tp =~= Seq::<char>::empty());
    }
    assert(numeral_value(sp) == numeral_value(tp));
    assert(s.last() == t.last());
    if s.len() > 1 {
        assert(is_numeral(sp, numeral_value(sp)));
        assert(is_numeral(tp, numeral_value(sp)));
        lemma_numeral_unique(sp, tp, numeral_value(sp));
    }
    assert(s =~= sp.push(s.last()));
    assert(t =~= tp.push(t.last()));
}

/// The digits `s` read as a number between 0 and `10^len - 1`.
proof fn lemma_numeral_bounds(s: Seq<char>)
    requires
        forall|i: int| 0 <= i < s.len() ==> is_digit(#[trigger] s[i]),
    ensures
        0 <= numeral_value(s),
    decreases s.len(),
{
    if s.len() > 0 {
        let p = s.drop_last();
        assert forall|i: int| 0 <= i < p.len() implies is_digit(#[trigger] p[i]) by {
            assert(p[i] == s[i]);
        }
        lemma_numeral_bounds(p);
        assert(is_digit(s[s.len() - 1]));
    }
}

/// Digits whose first is not `0` read as a positive number.
proof fn lemma_numeral_leading(s: Seq<char>)
    requires
        s.len() >= 1,
        forall|i: int| 0 <= i < s.len() ==> is_digit(#[trigger] s[i]),
        s[0] != '0',
    ensures
        numeral_value(s) >= 1,
    decreases s.len(),
{
    let p = s.drop_last();
    assert forall|i: int| 0 <= i < p.len() implies is_digit(#[trigger] p[i]) by {
        assert(p[i] == s[i]);
    }
    assert(is_digit(s[s.len() - 1]));
    if s.len() == 1 {
        assert(p =~= Seq::<char>::empty());
        assert(numeral_value(p) == 0);
        assert(is_digit(s[0]));
        assert(s[0] as int != 48);
    } else {
        assert(p[0] == s[0]);
        lemma_numeral_leading(p);
    }
}

/// The literal of an `int` is its numeral, after a minus sign when negative.
pub proof fn lemma_int_literal(v: i32)
    ensures
        v >= 0 ==> is_numeral(v.glsl_literal(), v as int),
        v < 0 ==> v.glsl_literal()[0] == '-' && is_numeral(v.glsl_literal().drop_first(), -v),
{
    if v >= 0 {
        lemma_decimal(v as nat);
    } else {
        lemma_decimal((-v) as nat);
        assert(v.glsl_literal().drop_first() =~= decimal((-v) as nat));
    }
}

/// The literal of a `uint` is its numeral followed by `u`.
pub proof fn lemma_uint_literal(n: u32)
    ensures
        n.glsl_literal().last() == 'u',
        is_numeral(n.glsl_literal().drop_last(), n as int),
{
    lemma_decimal(n as nat);
    assert(n.glsl_literal().drop_last() =~= decimal(n as nat));
}

/// Different `int`s have different literals.
pub proof fn lemma_int_literal_injective(a: i32, b: i32)
    requires
        a.glsl_literal() == b.glsl_literal(),
    ensures
        a == b,
{
    lemma_int_literal(a);
    lemma_int_literal(b);
    let s = a.glsl_literal();
    if a >= 0 {
        assert(is_digit(s[0]));
    }
    if b >= 0 {
        assert(is_digit(s[0]));
    }
}

/// Different `uint`s have different literals.
pub proof fn lemma_uint_literal_injective(a: u32, b: u32)
    requires
        a.glsl_literal() == b.glsl_literal(),
    ensures
        a == b,
{
    lemma_uint_literal(a);
    lemma_uint_literal(b);
}

/// The GLSL type names of the scalars and vectors are all different.
pub proof fn lemma_type_names_differ()
    ensures
        <i32 as Declare>::glsl_type() != <u32 as Declare>::glsl_type(),
        <i32 as Declare>::glsl_type() != <bool as Declare>::glsl_type(),
        <i32 as Declare>::glsl_type() != <IVec2 as Declare>::glsl_type(),
        <i32 as Declare>::glsl_type() != <IVec3 as Declare>::glsl_type(),
        <i32 as Declare>::glsl_type() != <IVec4 as Declare>::glsl_type(),
        <i32 as Declare>::glsl_type() != <UVec2 as Declare>::glsl_type(),
        <i32 as Declare>::glsl_type() != <UVec3 as Declare>::glsl_type(),
        <i32 as Declare>::glsl_type() != <UVec4 as Declare>::glsl_type(),
        <u32 as Declare>::glsl_type() != <bool as Declare>::glsl_type(),
        <u32 as Declare>::glsl_type() != <IVec2 as Declare>::glsl_type(),
        <u32 as Declare>::glsl_type() != <IVec3 as Declare>::glsl_type(),
        <u32 as Declare>::glsl_type() != <IVec4 as Declare>::glsl_type(),
        <u32 as Declare>::glsl_type() != <UVec2 as Declare>::glsl_type(),
        <u32 as Declare>::glsl_type() != <UVec3 as Declare>::glsl_type(),
        <u32 as Declare>::glsl_type() != <UVec4 as Declare>::glsl_type(),
        <bool as Declare>::glsl_type() != <IVec2 as Declare>::glsl_type(),
        <bool as Declare>::glsl_type() != <IVec3 as Declare>::glsl_type(),
        <bool as Declare>::glsl_type() != <IVec4 as Declare>::glsl_type(),
        <bool as Declare>::glsl_type() != <UVec2 as Declare>::glsl_type(),
        <bool as Declare>::glsl_type() != <UVec3 as Declare>::glsl_type(),
        <bool as Declare>::glsl_type() != <UVec4 as Declare>::glsl_type(),
        <IVec2 as Declare>::glsl_type() != <IVec3 as Declare>::glsl_type(),
        <IVec2 as Declare>::glsl_type() != <IVec4 as Declare>::glsl_type(),
        <IVec2 as Declare>::glsl_type() != <UVec2 as Declare>::glsl_type(),
        <IVec2 as Declare>::glsl_type() != <UVec3 as Declare>::glsl_type(),
        <IVec2 as Declare>::glsl_type() != <UVec4 as Declare>::glsl_type(),
        <IVec3 as Declare>::glsl_type() != <IVec4 as Declare>::glsl_type(),
        <IVec3 as Declare>::glsl_type() != <UVec2 as Declare>::glsl_type(),
        <IVec3 as Declare>::glsl_type() != <UVec3 as Declare>::glsl_type(),
        <IVec3 as Declare>::glsl_type() != <UVec4 as Declare>::glsl_type(),
        <IVec4 as Declare>::glsl_type() != <UVec2 as Declare>::glsl_type(),
        <IVec4 as Declare>::glsl_type() != <UVec3 as Declare>::glsl_type(),
        <IVec4 as Declare>::glsl_type() != <UVec4 as Declare>::glsl_type(),
        <UVec2 as Declare>::glsl_type() != <UVec3 as Declare>::glsl_type(),
        <UVec2 as Declare>::glsl_type() != <UVec4 as Declare>::glsl_type(),
        <UVec3 as Declare>::glsl_type() != <UVec4 as Declare>::glsl_type(),
{
}

/// The type of a 2-component vector of `i32` is named `ivec2` after its
/// component type; its literal is that name, then the literals of its
/// components in order, separated by `", "`, between parentheses.
pub proof fn lemma_ivec2_declare(v: IVec2)
    ensures
        <IVec2 as Declare>::glsl_type().len() == 5,
        <IVec2 as Declare>::glsl_type()[0] == <i32 as Declare>::glsl_type()[0],
        <IVec2 as Declare>::glsl_type().subrange(1, 4) == seq!['v', 'e', 'c'],
        digit_value(<IVec2 as Declare>::glsl_type()[4]) == 2,
        v.glsl_literal() == <IVec2 as Declare>::glsl_type() + seq!['('] + v.x.glsl_literal() + seq![',', ' '] + v.y.glsl_literal() + seq![')'],
{
    assert(<IVec2 as Declare>::glsl_type().subrange(1, 4) =~= seq!['v', 'e', 'c']);
    assert(v.glsl_literal() =~= <IVec2 as Declare>::glsl_type() + seq!['('] + v.x.glsl_literal() + seq![',', ' '] + v.y.glsl_literal() + seq![')']);
}

/// The type of a 3-component vector of `i32` is named `ivec3` after its
/// component type; its literal is that name, then the literals of its
/// components in order, separated by `", "`, between parentheses.
pub proof fn lemma_ivec3_declare(v: IVec3)
    ensures
        <IVec3 as Declare>::glsl_type().len() == 5,
        <IVec3 as Declare>::glsl_type()[0] == <i32 as Declare>::glsl_type()[0],
        <IVec3 as Declare>::glsl_type().subrange(1, 4) == seq!['v', 'e', 'c'],
        digit_value(<IVec3 as Declare>::glsl_type()[4]) == 3,
        v.glsl_literal() == <IVec3 as Declare>::glsl_type() + seq!['('] + v.x.glsl_literal() + seq![',', ' '] + v.y.glsl_literal() + seq![',', ' '] + v.z.glsl_literal() + seq![')'],
{
    assert(<IVec3 as Declare>::glsl_type().subrange(1, 4) =~= seq!['v', 'e', 'c']);
    assert(v.glsl_literal() =~= <IVec3 as Declare>::glsl_type() + seq!['('] + v.x.glsl_literal() + seq![',', ' '] + v.y.glsl_literal() + seq![',', ' '] + v.z.glsl_literal() + seq![')']);
}

/// The type of a 4-component vector of `i32` is named `ivec4` after its
/// component type; its literal is that name, then the literals of its
/// components in order, separated by `", "`, between parentheses.
pub proof fn lemma_ivec4_declare(v: IVec4)
    ensures
        <IVec4 as Declare>::glsl_type().len() == 5,
        <IVec4 as Declare>::glsl_type()[0] == <i32 as Declare>::glsl_type()[0],
        <IVec4 as Declare>::glsl_type().subrange(1, 4) == seq!['v', 'e', 'c'],
        digit_value(<IVec4 as Declare>::glsl_type()[4]) == 4,
        v.glsl_literal() == <IVec4 as Declare>::glsl_type() + seq!['('] + v.x.glsl_literal() + seq![',', ' '] + v.y.glsl_literal() + seq![',', ' '] + v.z.glsl_literal() + seq![',', ' '] + v.w.glsl_literal() + seq![')'],
{
    assert(<IVec4 as Declare>::glsl_type().subrange(1, 4) =~= seq!['v', 'e', 'c']);
    assert(v.glsl_literal() =~= <IVec4 as Declare>::glsl_type() + seq!['('] + v.x.glsl_literal() + seq![',', ' '] + v.y.glsl_literal() + seq![',', ' '] + v.z.glsl_literal() + seq![',', ' '] + v.w.glsl_literal() + seq![')']);
}

/// The type of a 2-component vector of `u32` is named `uvec2` after its
/// component type; its literal is that name, then the literals of its
/// components in order, separated by `", "`, between parentheses.
pub proof fn lemma_uvec2_declare(v: UVec2)
    ensures
        <UVec2 as Declare>::glsl_type().len() == 5,
        <UVec2 as Declare>::glsl_type()[0] == <u32 as Declare>::glsl_type()[0],
        <UVec2 as Declare>::glsl_type().subrange(1, 4) == seq!['v', 'e', 'c'],
        digit_value(<UVec2 as Declare>::glsl_type()[4]) == 2,
        v.glsl_literal() == <UVec2 as Declare>::glsl_type() + seq!['('] + v.x.glsl_literal() + seq![',', ' '] + v.y.glsl_literal() + seq![')'],
{
    assert(<UVec2 as Declare>::glsl_type().subrange(1, 4) =~= seq!['v', 'e', 'c']);
    assert(v.glsl_literal() =~= <UVec2 as Declare>::glsl_type() + seq!['('] + v.x.glsl_literal() + seq![',', ' '] + v.y.glsl_literal() + seq![')']);
}

/// The type of a 3-component vector of `u32` is named `uvec3` after its
/// component type; its literal is that name, then the literals of its
/// components in order, separated by `", "`, between parentheses.
pub proof fn lemma_uvec3_declare(v: UVec3)
    ensures
        <UVec3 as Declare>::glsl_type().len() == 5,
        <UVec3 as Declare>::glsl_type()[0] == <u32 as Declare>::glsl_type()[0],
        <UVec3 as Declare>::glsl_type().subrange(1, 4) == seq!['v', 'e', 'c'],
        digit_value(<UVec3 as Declare>::glsl_type()[4]) == 3,
        v.glsl_literal() == <UVec3 as Declare>::glsl_type() + seq!['('] + v.x.glsl_literal() + seq![',', ' '] + v.y.glsl_literal() + seq![',', ' '] + v.z.glsl_literal() + seq![')'],
{
    assert(<UVec3 as Declare>::glsl_type().subrange(1, 4) =~= seq!['v', 'e', 'c']);
    assert(v.glsl_literal() =~= <UVec3 as Declare>::glsl_type() + seq!['('] + v.x.glsl_literal() + seq![',', ' '] + v.y.glsl_literal() + seq![',', ' '] + v.z.glsl_literal() + seq![')']);
}

/// The type of a 4-component vector of `u32` is named `uvec4` after its
/// component type; its literal is that name, then the literals of its
/// components in order, separated by `", "`, between parentheses.
pub proof fn lemma_uvec4_declare(v: UVec4)
    ensures
        <UVec4 as Declare>::glsl_type().len() == 5,
        <UVec4 as Declare>::glsl_type()[0] == <u32 as Declare>::glsl_type()[0],
        <UVec4 as Declare>::glsl_type().subrange(1, 4) == seq!['v', 'e', 'c'],
        digit_value(<UVec4 as Declare>::glsl_type()[4]) == 4,
        v.glsl_literal() == <UVec4 as Declare>::glsl_type() + seq!['('] + v.x.glsl_literal() + seq![',', ' '] + v.y.glsl_literal() + seq![',', ' '] + v.z.glsl_literal() + seq![',', ' '] + v.w.glsl_literal() + seq![')'],
{
    assert(<UVec4 as Declare>::glsl_type().subrange(1, 4) =~= seq!['v', 'e', 'c']);
    assert(v.glsl_literal() =~= <UVec4 as Declare>::glsl_type() + seq!['('] + v.x.glsl_literal() + seq![',', ' '] + v.y.glsl_literal() + seq![',', ' '] + v.z.glsl_literal() + seq![',', ' '] + v.w.glsl_literal() + seq![')']);
}

/// An array's type is its element type followed by `[N]` with the numeral
/// of its length; its literal is its elements' literals, in order, joined
/// by `", "` between braces.
pub proof fn lemma_array_declare<T: Declare, const N: usize>(a: [T; N])
    ensures
        ({
            let t = <[T; N] as Declare>::glsl_type();
            let e = T::glsl_type().len() as int;
            &&& t.subrange(0, e) == T::glsl_type()
            &&& t[e] == '['
            &&& is_numeral(t.subrange(e + 1, t.len() - 1), N as int)
            &&& t.last() == ']'
        }),
        a.glsl_literal()[0] == '{',
        a.glsl_literal().last() == '}',
        a.glsl_literal().subrange(1, a.glsl_literal().len() - 1) == joined(
            Seq::new(N as nat, |i: int| a@[i].glsl_literal()),
        ),
{
    let t = <[T; N] as Declare>::glsl_type();
    let e = T::glsl_type().len() as int;
    lemma_decimal(N as nat);
    assert(t.subrange(0, e) =~= T::glsl_type());
    assert(t.subrange(e + 1, t.len() - 1) =~= decimal(N as nat));
    let lit = a.glsl_literal();
    assert(a@.map_values(|x: T| x.glsl_literal()) =~= Seq::new(N as nat, |i: int| a@[i].glsl_literal()));
    assert(lit.subrange(1, lit.len() - 1) =~= joined(Seq::new(N as nat, |i: int| a@[i].glsl_literal())));
}

/// Appends `s` to `out`.
pub fn put(out: &mut String, s: &str)
    ensures
        final(out)@ == old(out)@ + s@,
{
    out.append(s);
}

/// The text of digit `d`.
fn digit_str(d: u64) -> (r: &'static str)
    requires
        d < 10,
    ensures
        r@ == seq![digit(d as int)],
{
    if d == 0 {
        proof { reveal_strlit("0"); }
        "0"
    } else if d == 1 {
        proof { reveal_strlit("1"); }
        "1"
    } else if d == 2 {
        proof { reveal_strlit("2"); }
        "2"
    } else if d == 3 {
        proof { reveal_strlit("3"); }
        "3"
    } else if d == 4 {
        proof { reveal_strlit("4"); }
        "4"
    } else if d == 5 {
        proof { reveal_strlit("5"); }
        "5"
    } else if d == 6 {
        proof { reveal_strlit("6"); }
        "6"
    } else if d == 7 {
        proof { reveal_strlit("7"); }
        "7"
    } else if d == 8 {
        proof { reveal_strlit("8"); }
        "8"
    } else {
        proof { reveal_strlit("9"); }
        "9"
    }
}

/// Appends the decimal digits of `n`.
pub fn write_decimal(out: &mut String, n: u64)
    ensures
        final(out)@ == old(out)@ + decimal(n as nat),
    decreases n,
{
    if n >= 10 {
        write_decimal(out, n / 10);
    }
    let d = digit_str(n % 10);
    put(out, d);
    proof {
        if n >= 10 {
            assert(decimal(n as nat) == decimal((n / 10) as nat).push(digit((n % 10) as int)));
        }
    }
    assert(out@ =~= old(out)@ + decimal(n as nat));
}

/// Appends the decimal text of `v`, with a minus sign when negative.
pub fn write_int(out: &mut String, v: i32)
    ensures
        final(out)@ == old(out)@ + int_text(v as int),
{
    if v < 0 {
        proof { reveal_strlit("-"); }
        put(out, "-");
        let m: i64 = -(v as i64);
        write_decimal(out, m as u64);
        assert(out@ =~= old(out)@ + int_text(v as int));
    } else {
        write_decimal(out, v as u64);
    }
}

/// The items separated by `", "`.
pub open spec fn joined(items: Seq<Seq<char>>) -> Seq<char>
    decreases items.len(),
{
    if items.len() == 0 {
        Seq::empty()
    } else if items.len() == 1 {
        items[0]
    } else {
        joined(items.drop_last()) + seq![',', ' '] + items.last()
    }
}

/// Where item `i` starts in the items joined by `", "`.
pub open spec fn joined_offset(items: Seq<Seq<char>>, i: int) -> int
    decreases i,
{
    if i <= 0 {
        0
    } else {
        joined_offset(items, i - 1) + items[i - 1].len() + 2
    }
}

/// Items joined by `", "` hold each item in order, with `", "` between
/// two items and nothing else.
pub proof fn lemma_joined(items: Seq<Seq<char>>)
    ensures
        items.len() > 0 ==> joined(items).len() == joined_offset(items, items.len() as int) - 2,
        items.len() == 0 ==> joined(items).len() == 0,
        forall|i: int|
            0 <= i < items.len() ==> #[trigger] joined(items).subrange(
                joined_offset(items, i),
                joined_offset(items, i) + items[i].len(),
            ) == items[i],
        forall|i: int|
            0 <= i < items.len() - 1 ==> #[trigger] joined(items).subrange(
                joined_offset(items, i) + items[i].len(),
                joined_offset(items, i + 1),
            ) == seq![',', ' '],
    decreases items.len(),
{
    if items.len() > 1 {
        let p = items.drop_last();
        let n = items.len() - 1;
        lemma_joined(p);
        lemma_joined_offset_prefix(items, p, n);
        let a = joined(p);
        let b = items.last();
        assert(joined(items) == a + seq![',', ' '] + b);
        assert(joined_offset(items, n) == joined_offset(p, n));
        assert(joined_offset(items, n + 1) == joined_offset(items, n) + b.len() + 2);
        assert forall|i: int| 0 <= i < items.len() implies #[trigger] joined(items).subrange(
            joined_offset(items, i),
            joined_offset(items, i) + items[i].len(),
        ) == items[i] by {
            lemma_joined_offset_mono(items, 0, i);
            if i < n {
                lemma_joined_offset_mono(p, i + 1, n);
                assert(items[i] == p[i]);
                assert(joined_offset(items, i) == joined_offset(p, i));
                assert((a + seq![',', ' '] + b).subrange(joined_offset(items, i), joined_offset(items, i)
                    + items[i].len()) =~= a.subrange(joined_offset(p, i), joined_offset(p, i) + p[i].len()));
            } else {
                assert((a + seq![',', ' '] + b).subrange(joined_offset(items, i), joined_offset(items, i)
                    + items[i].len()) =~= b);
            }
        }
        assert forall|i: int| 0 <= i < items.len() - 1 implies #[trigger] joined(items).subrange(
            joined_offset(items, i) + items[i].len(),
            joined_offset(items, i + 1),
        ) == seq![',', ' '] by {
            lemma_joined_offset_mono(items, 0, i);
            assert(items[i] == p[i]);
            assert(joined_offset(items, i) == joined_offset(p, i));
            assert(joined_offset(items, i + 1) == joined_offset(p, i + 1));
            if i < n - 1 {
                lemma_joined_offset_mono(p, i + 2, n);
                assert((a + seq![',', ' '] + b).subrange(joined_offset(items, i) + items[i].len(),
                    joined_offset(items, i + 1)) =~= a.subrange(joined_offset(p, i) + p[i].len(),
                    joined_offset(p, i + 1)));
            } else {
                assert((a + seq![',', ' '] + b).subrange(joined_offset(items, i) + items[i].len(),
                    joined_offset(items, i + 1)) =~= seq![',', ' ']);
            }
        }
    } else if items.len() == 1 {
        assert(joined(items).subrange(0, items[0].len() as int) =~= items[0]);
        assert(joined_offset(items, 0) == 0);
        assert(joined_offset(items, 1) == items[0].len() + 2);
    }
}

/// The offsets of the first `n` items depend only on the first `n` items.
proof fn lemma_joined_offset_prefix(items: Seq<Seq<char>>, p: Seq<Seq<char>>, n: int)
    requires
        0 <= n <= p.len(),
        n <= items.len(),
        forall|j: int| 0 <= j < n ==> p[j] == items[j],
    ensures
        forall|i: int| 0 <= i <= n ==> #[trigger] joined_offset(items, i) == joined_offset(p, i),
    decreases n,
{
    if n > 0 {
        lemma_joined_offset_prefix(items, p, n - 1);
        assert(p[n - 1] == items[n - 1]);
        assert(joined_offset(items, n - 1) == joined_offset(p, n - 1));
        assert(joined_offset(items, n) == joined_offset(p, n));
    }
}

/// Later items start later.
proof fn lemma_joined_offset_mono(items: Seq<Seq<char>>, i: int, j: int)
    requires
        0 <= i <= j,
    ensures
        joined_offset(items, i) <= joined_offset(items, j),
    decreases j - i,
{
    if i < j {
        lemma_joined_offset_mono(items, i, j - 1);
    }
}

/// A value a shader can declare: its GLSL type name and its GLSL literal.
pub trait Declare {
    /// The GLSL name of the type.
    spec fn glsl_type() -> Seq<char>;

    /// The GLSL literal of the value.
    spec fn glsl_literal(&self) -> Seq<char>;

    /// Appends the GLSL name of the type.
    fn declare_type(out: &mut String)
        ensures
            final(out)@ == old(out)@ + Self::glsl_type(),
    ;

    /// Appends the GLSL literal of the value.
    fn literal(&self, out: &mut String)
        ensures
            final(out)@ == old(out)@ + self.glsl_literal(),
    ;
}

impl Declare for i32 {
    open spec fn glsl_type() -> Seq<char> {
        seq!['i', 'n', 't']
    }

    open spec fn glsl_literal(&self) -> Seq<char> {
        int_text(*self as int)
    }

    fn declare_type(out: &mut String) {
        proof { reveal_strlit("int"); }
        put(out, "int");
    }

    fn literal(&self, out: &mut String) {
        write_int(out, *self);
    }
}

impl Declare for u32 {
    open spec fn glsl_type() -> Seq<char> {
        seq!['u', 'i', 'n', 't']
    }

    open spec fn glsl_literal(&self) -> Seq<char> {
        decimal(*self as nat).push('u')
    }

    fn declare_type(out: &mut String) {
        proof { reveal_strlit("uint"); }
        put(out, "uint");
    }

    fn literal(&self, out: &mut String) {
        write_decimal(out, *self as u64);
        proof { reveal_strlit("u"); }
        put(out, "u");
        assert(out@ =~= old(out)@ + self.glsl_literal());
    }
}

impl Declare for bool {
    open spec fn glsl_type() -> Seq<char> {
        seq!['b', 'o', 'o', 'l']
    }

    open spec fn glsl_literal(&self) -> Seq<char> {
        if *self {
            seq!['t', 'r', 'u', 'e']
        } else {
            seq!['f', 'a', 'l', 's', 'e']
        }
    }

    fn declare_type(out: &mut String) {
        proof { reveal_strlit("bool"); }
        put(out, "bool");
    }

    fn literal(&self, out: &mut String) {
        let lit = if *self {
            proof { reveal_strlit("true"); }
            "true"
        } else {
            proof { reveal_strlit("false"); }
            "false"
        };
        put(out, lit);
    }
}

impl<T: Declare, const N: usize> Declare for [T; N] {
    /// The element type followed by `[N]`.
    open spec fn glsl_type() -> Seq<char> {
        T::glsl_type() + seq!['['] + decimal(N as nat) + seq![']']
    }

    /// The elements' literals between braces, separated by `", "`.
    open spec fn glsl_literal(&self) -> Seq<char> {
        seq!['{'] + joined(self@.map_values(|t: T| t.glsl_literal())) + seq!['}']
    }

    fn declare_type(out: &mut String) {
        T::declare_type(out);
        proof { reveal_strlit("["); reveal_strlit("]"); }
        put(out, "[");
        write_decimal(out, N as u64);
        put(out, "]");
        assert(out@ =~= old(out)@ + Self::glsl_type());
    }

    fn literal(&self, out: &mut String) {
        proof { reveal_strlit("{"); reveal_strlit("}"); reveal_strlit(", "); }
        let ghost lits = self@.map_values(|t: T| t.glsl_literal());
        put(out, "{");
        let mut i: usize = 0;
        while i < N
            invariant
                i <= N,
                N == self@.len(),
                lits == self@.map_values(|t: T| t.glsl_literal()),
                out@ == old(out)@ + seq!['{'] + joined(lits.take(i as int)),
            decreases N - i,
        {
            let ghost before = out@;
            if i > 0 {
                put(out, ", ");
            }
            let ghost mid = out@;
            self[i].literal(out);
            proof {
                let t = lits.take(i + 1);
                assert(t.drop_last() =~= lits.take(i as int));
                assert(t.last() == lits[i as int]);
                assert(lits[i as int] == self@[i as int].glsl_literal());
                if i == 0 {
                    assert(t =~= seq![lits[0]]);
                    assert(joined(t) == lits[0]);
                    assert(out@ =~= old(out)@ + seq!['{'] + joined(t));
                } else {
                    assert(joined(t) == joined(lits.take(i as int)) + seq![',', ' '] + lits[i as int]);
                    reveal_strlit(", ");
                    assert(mid == before + seq![',', ' ']);
                    assert(out@ == mid + lits[i as int]);
                    assert(out@ =~= old(out)@ + seq!['{'] + joined(t));
                }
            }
            i += 1;
        }
        put(out, "}");
        assert(lits.take(N as int) =~= lits);
        assert(out@ =~= old(out)@ + self.glsl_literal());
    }
}

impl Declare for IVec2 {
    open spec fn glsl_type() -> Seq<char> {
        seq!['i', 'v', 'e', 'c', '2']
    }

    open spec fn glsl_literal(&self) -> Seq<char> {
        seq!['i', 'v', 'e', 'c', '2', '('] + self.x.glsl_literal() + seq![',', ' '] + self.y.glsl_literal() + seq![')']
    }

    fn declare_type(out: &mut String) {
        proof { reveal_strlit("ivec2"); }
        put(out, "ivec2");
    }

    fn literal(&self, out: &mut String) {
        proof { reveal_strlit("ivec2("); reveal_strlit(", "); reveal_strlit(")"); }
        put(out, "ivec2(");
        self.x.literal(out);
        put(out, ", ");
        self.y.literal(out);
        put(out, ")");
        assert(out@ =~= old(out)@ + self.glsl_literal());
    }
}

impl Declare for IVec3 {
    open spec fn glsl_type() -> Seq<char> {
        seq!['i', 'v', 'e', 'c', '3']
    }

    open spec fn glsl_literal(&self) -> Seq<char> {
        seq!['i', 'v', 'e', 'c', '3', '('] + self.x.glsl_literal() + seq![',', ' '] + self.y.glsl_literal() + seq![',', ' '] + self.z.glsl_literal() + seq![')']
    }

    fn declare_type(out: &mut String) {
        proof { reveal_strlit("ivec3"); }
        put(out, "ivec3");
    }

    fn literal(&self, out: &mut String) {
        proof { reveal_strlit("ivec3("); reveal_strlit(", "); reveal_strlit(")"); }
        put(out, "ivec3(");
        self.x.literal(out);
        put(out, ", ");
        self.y.literal(out);
        put(out, ", ");
        self.z.literal(out);
        put(out, ")");
        assert(out@ =~= old(out)@ + self.glsl_literal());
    }
}

impl Declare for IVec4 {
    open spec fn glsl_type() -> Seq<char> {
        seq!['i', 'v', 'e', 'c', '4']
    }

    open spec fn glsl_literal(&self) -> Seq<char> {
        seq!['i', 'v', 'e', 'c', '4', '('] + self.x.glsl_literal() + seq![',', ' '] + self.y.glsl_literal() + seq![',', ' '] + self.z.glsl_literal() + seq![',', ' '] + self.w.glsl_literal() + seq![')']
    }

    fn declare_type(out: &mut String) {
        proof { reveal_strlit("ivec4"); }
        put(out, "ivec4");
    }

    fn literal(&self, out: &mut String) {
        proof { reveal_strlit("ivec4("); reveal_strlit(", "); reveal_strlit(")"); }
        put(out, "ivec4(");
        self.x.literal(out);
        put(out, ", ");
        self.y.literal(out);
        put(out, ", ");
        self.z.literal(out);
        put(out, ", ");
        self.w.literal(out);
        put(out, ")");
        assert(out@ =~= old(out)@ + self.glsl_literal());
    }
}

impl Declare for UVec2 {
    open spec fn glsl_type() -> Seq<char> {
        seq!['u', 'v', 'e', 'c', '2']
    }

    open spec fn glsl_literal(&self) -> Seq<char> {
        seq!['u', 'v', 'e', 'c', '2', '('] + self.x.glsl_literal() + seq![',', ' '] + self.y.glsl_literal() + seq![')']
    }

    fn declare_type(out: &mut String) {
        proof { reveal_strlit("uvec2"); }
        put(out, "uvec2");
    }

    fn literal(&self, out: &mut String) {
        proof { reveal_strlit("uvec2("); reveal_strlit(", "); reveal_strlit(")"); }
        put(out, "uvec2(");
        self.x.literal(out);
        put(out, ", ");
        self.y.literal(out);
        put(out, ")");
        assert(out@ =~= old(out)@ + self.glsl_literal());
    }
}

impl Declare for UVec3 {
    open spec fn glsl_type() -> Seq<char> {
        seq!['u', 'v', 'e', 'c', '3']
    }

    open spec fn glsl_literal(&self) -> Seq<char> {
        seq!['u', 'v', 'e', 'c', '3', '('] + self.x.glsl_literal() + seq![',', ' '] + self.y.glsl_literal() + seq![',', ' '] + self.z.glsl_literal() + seq![')']
    }

    fn declare_type(out: &mut String) {
        proof { reveal_strlit("uvec3"); }
        put(out, "uvec3");
    }

    fn literal(&self, out: &mut String) {
        proof { reveal_strlit("uvec3("); reveal_strlit(", "); reveal_strlit(")"); }
        put(out, "uvec3(");
        self.x.literal(out);
        put(out, ", ");
        self.y.literal(out);
        put(out, ", ");
        self.z.literal(out);
        put(out, ")");
        assert(out@ =~= old(out)@ + self.glsl_literal());
    }
}

impl Declare for UVec4 {
    open spec fn glsl_type() -> Seq<char> {
        seq!['u', 'v', 'e', 'c', '4']
    }

    open spec fn glsl_literal(&self) -> Seq<char> {
        seq!['u', 'v', 'e', 'c', '4', '('] + self.x.glsl_literal() + seq![',', ' '] + self.y.glsl_literal() + seq![',', ' '] + self.z.glsl_literal() + seq![',', ' '] + self.w.glsl_literal() + seq![')']
    }

    fn declare_type(out: &mut String) {
        proof { reveal_strlit("uvec4"); }
        put(out, "uvec4");
    }

    fn literal(&self, out: &mut String) {
        proof { reveal_strlit("uvec4("); reveal_strlit(", "); reveal_strlit(")"); }
        put(out, "uvec4(");
        self.x.literal(out);
        put(out, ", ");
        self.y.literal(out);
        put(out, ", ");
        self.z.literal(out);
        put(out, ", ");
        self.w.literal(out);
        put(out, ")");
        assert(out@ =~= old(out)@ + self.glsl_literal());
    }
}

} // verus!
